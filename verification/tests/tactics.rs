use centurion::room::{build_room, GridPos, RoomLayout, TileKind};
use centurion::state::GameState;
use centurion::tactics::{
    apply_movement, can_move_to, move_is_defined, movement_is_defined, resolve_move, MoveOutcome, PlayerMoveState,
};

#[test]
fn moves_spend_one_step() {
    let layout = build_room(1);
    let r = resolve_move(GridPos { x: 1, y: 1 }, 1, 0, &layout, &[], 100, 1);
    assert_eq!(r, MoveOutcome::Moved { pos: GridPos { x: 2, y: 1 }, steps: 99, floor: 1, next_state: None });
}

#[test]
fn walls_and_edges_block_without_cost() {
    let layout = build_room(1);
    assert_eq!(resolve_move(GridPos { x: 1, y: 1 }, -1, 0, &layout, &[], 10, 1), MoveOutcome::Blocked);
    assert_eq!(resolve_move(GridPos { x: 0, y: 0 }, 0, -1, &layout, &[], 10, 1), MoveOutcome::Blocked);
    assert!(!can_move_to(GridPos { x: 0, y: 0 }, &layout));
    assert!(can_move_to(GridPos { x: 9, y: 0 }, &layout));
}

#[test]
fn enemy_in_the_way_is_attacked() {
    let layout = build_room(1);
    let enemies = [GridPos { x: 5, y: 5 }, GridPos { x: 2, y: 1 }, GridPos { x: 2, y: 1 }];
    let r = resolve_move(GridPos { x: 1, y: 1 }, 1, 0, &layout, &enemies, 10, 1);
    assert_eq!(r, MoveOutcome::Attack { enemy: 1, target: GridPos { x: 2, y: 1 } });
}

#[test]
fn last_step_kills() {
    let layout = build_room(1);
    let r = resolve_move(GridPos { x: 1, y: 1 }, 0, 1, &layout, &[], 1, 1);
    assert_eq!(r, MoveOutcome::Moved { pos: GridPos { x: 1, y: 2 }, steps: 0, floor: 1, next_state: Some(GameState::Dead) });
}

#[test]
fn last_step_onto_exit_is_death() {
    let layout = build_room(1); // exit at (4, 4)
    let r = resolve_move(GridPos { x: 3, y: 4 }, 1, 0, &layout, &[], 1, 1);
    assert_eq!(r, MoveOutcome::Moved { pos: GridPos { x: 4, y: 4 }, steps: 0, floor: 1, next_state: Some(GameState::Dead) });
    let r = resolve_move(GridPos { x: 3, y: 4 }, 1, 0, &layout, &[], 2, 1);
    assert_eq!(r, MoveOutcome::Moved { pos: GridPos { x: 4, y: 4 }, steps: 1, floor: 2, next_state: Some(GameState::Rest) });
}

#[test]
fn move_limits_are_checked() {
    let layout = build_room(1);
    assert!(move_is_defined(GridPos { x: 1, y: 1 }, 1, 0, &layout, &[], 5, 1));
    assert!(!move_is_defined(GridPos { x: 1, y: 1 }, 1, 0, &layout, &[], i32::MIN, 1));
    assert!(move_is_defined(GridPos { x: 1, y: 1 }, -1, 0, &layout, &[], i32::MIN, 1)); // blocked: no step spent
    assert!(!move_is_defined(GridPos { x: 3, y: 4 }, 1, 0, &layout, &[], 5, 255));
    assert!(move_is_defined(GridPos { x: 3, y: 4 }, 1, 0, &layout, &[], 1, 255)); // dies on the exit
    assert!(!move_is_defined(GridPos { x: 3, y: 4 }, i32::MAX, 0, &layout, &[], 5, 1));
    let start = PlayerMoveState { pos: GridPos { x: 1, y: 1 }, steps: i32::MIN + 1, floor: 1 };
    assert!(movement_is_defined(GameState::Room, start, &[(1, 0)], &layout, &[]));
    assert!(!movement_is_defined(GameState::Room, start, &[(1, 0), (1, 0)], &layout, &[]));
    assert!(movement_is_defined(GameState::Rest, start, &[(1, 0), (1, 0)], &layout, &[]));
}

#[test]
fn exit_tile_placed_by_hand() {
    let mut layout = RoomLayout::walled();
    layout.set(2, 2, TileKind::Exit);
    let r = resolve_move(GridPos { x: 2, y: 1 }, 0, 1, &layout, &[], 50, 9);
    assert_eq!(r, MoveOutcome::Moved { pos: GridPos { x: 2, y: 2 }, steps: 49, floor: 10, next_state: Some(GameState::Rest) });
}

#[test]
fn frame_of_moves_applies_in_order() {
    let layout = build_room(1); // exit at (4, 4)
    let start = PlayerMoveState { pos: GridPos { x: 2, y: 4 }, steps: 10, floor: 1 };
    let enemies = [GridPos { x: 2, y: 3 }];
    let intents = [(1, 0), (0, -1), (1, 0), (-1, 0)];
    let r = apply_movement(GameState::Room, start, &intents, &layout, &enemies);
    // (3,4) then attack? no: (3,3) is free; then (4,3); then back to (3,3)
    assert_eq!(r.player, PlayerMoveState { pos: GridPos { x: 3, y: 3 }, steps: 6, floor: 1 });
    assert!(r.attacks.is_empty());
    assert_eq!(r.next_state, None);

    let intents = [(0, -1), (2, 0), (1, 0)];
    let r = apply_movement(GameState::Room, start, &intents, &layout, &enemies);
    assert_eq!(r.attacks, vec![(0usize, GridPos { x: 2, y: 3 })]);
    // the jump of two lands on the exit (4, 4); the last move goes on to (5, 4)
    assert_eq!(r.player, PlayerMoveState { pos: GridPos { x: 5, y: 4 }, steps: 8, floor: 2 });
    assert_eq!(r.next_state, Some(GameState::Rest));

    let r = apply_movement(GameState::Room, PlayerMoveState { steps: 1, ..start }, &[(1, 0), (1, 0)], &layout, &[]);
    assert_eq!(r.player, PlayerMoveState { pos: GridPos { x: 4, y: 4 }, steps: -1, floor: 1 });
    assert_eq!(r.next_state, Some(GameState::Dead));
}

#[test]
fn no_moves_outside_room_state() {
    let layout = build_room(1);
    let start = PlayerMoveState { pos: GridPos { x: 2, y: 2 }, steps: 10, floor: 1 };
    let r = apply_movement(GameState::Rest, start, &[(1, 0)], &layout, &[]);
    assert_eq!(r.player, start);
    assert!(r.attacks.is_empty());
    assert_eq!(r.next_state, None);
}
