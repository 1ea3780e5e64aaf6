use centurion::enemies::{
    advance_enemies, advance_enemy, compute_enemy_move, is_walkable, player_in_los, step_toward, Axis, EnemyAction, EnemyBehavior,
};
use centurion::room::{GridPos, RoomLayout, TileKind};

fn room() -> RoomLayout {
    RoomLayout::walled()
}

#[test]
fn step_toward_prefers_larger_axis() {
    let e = GridPos { x: 3, y: 3 };
    assert_eq!(step_toward(&e, &GridPos { x: 6, y: 4 }), GridPos { x: 4, y: 3 });
    assert_eq!(step_toward(&e, &GridPos { x: 1, y: 2 }), GridPos { x: 2, y: 3 });
    // tie: vertical first
    assert_eq!(step_toward(&e, &GridPos { x: 5, y: 5 }), GridPos { x: 3, y: 4 });
    assert_eq!(step_toward(&e, &GridPos { x: 3, y: 1 }), GridPos { x: 3, y: 2 });
    assert_eq!(step_toward(&e, &e), e);
}

#[test]
fn line_of_sight_rules() {
    let mut layout = room();
    let e = GridPos { x: 2, y: 2 };
    assert!(player_in_los(&e, &GridPos { x: 5, y: 2 }, &layout));
    assert!(!player_in_los(&e, &GridPos { x: 6, y: 2 }, &layout)); // 4 tiles away
    assert!(!player_in_los(&e, &GridPos { x: 3, y: 3 }, &layout)); // diagonal
    assert!(!player_in_los(&e, &e, &layout)); // same tile
    assert!(player_in_los(&e, &GridPos { x: 2, y: 5 }, &layout));
    layout.set(3, 2, TileKind::Wall);
    assert!(!player_in_los(&e, &GridPos { x: 5, y: 2 }, &layout));
    assert!(player_in_los(&GridPos { x: 5, y: 2 }, &GridPos { x: 4, y: 2 }, &layout));
}

#[test]
fn walkable_checks_grid_and_walls() {
    let layout = room();
    assert!(is_walkable(GridPos { x: 3, y: 3 }, &layout));
    assert!(!is_walkable(GridPos { x: 0, y: 3 }, &layout));
    assert!(!is_walkable(GridPos { x: 8, y: 3 }, &layout));
}

#[test]
fn patrol_bounces_at_walls() {
    let layout = room();
    let e = GridPos { x: 6, y: 3 };
    let b = EnemyBehavior::Patrol { axis: Axis::Horizontal, direction: 1 };
    let (t, nb) = compute_enemy_move(&e, b, &GridPos { x: 1, y: 1 }, &layout);
    assert_eq!(t, e);
    assert_eq!(nb, EnemyBehavior::Patrol { axis: Axis::Horizontal, direction: -1 });
    let (t2, nb2) = compute_enemy_move(&e, nb, &GridPos { x: 1, y: 1 }, &layout);
    assert_eq!(t2, GridPos { x: 5, y: 3 });
    assert_eq!(nb2, nb);
    let v = EnemyBehavior::Patrol { axis: Axis::Vertical, direction: 1 };
    assert_eq!(compute_enemy_move(&e, v, &e, &layout).0, GridPos { x: 6, y: 4 });
}

#[test]
fn guard_wakes_up_and_chases() {
    let layout = room();
    let e = GridPos { x: 2, y: 2 };
    let asleep = EnemyBehavior::Guard { alerted: false };
    let (t, nb) = compute_enemy_move(&e, asleep, &GridPos { x: 5, y: 5 }, &layout);
    assert_eq!(t, e);
    assert_eq!(nb, asleep);
    let (t, nb) = compute_enemy_move(&e, asleep, &GridPos { x: 4, y: 2 }, &layout);
    assert_eq!(t, GridPos { x: 3, y: 2 });
    assert_eq!(nb, EnemyBehavior::Guard { alerted: true });
    let (t, nb) = compute_enemy_move(&e, nb, &GridPos { x: 5, y: 6 }, &layout);
    assert_eq!(t, GridPos { x: 2, y: 3 });
    assert_eq!(nb, EnemyBehavior::Guard { alerted: true });
}

#[test]
fn enemy_turn_actions() {
    let layout = room();
    let e = GridPos { x: 3, y: 3 };
    let alert = EnemyBehavior::Guard { alerted: true };
    let t = advance_enemy(&e, alert, &GridPos { x: 4, y: 3 }, &layout);
    assert_eq!(t.action, EnemyAction::Attack { target: GridPos { x: 4, y: 3 } });
    let t = advance_enemy(&e, alert, &GridPos { x: 6, y: 3 }, &layout);
    assert_eq!(t.action, EnemyAction::MoveTo { target: GridPos { x: 4, y: 3 } });
    let t = advance_enemy(&e, EnemyBehavior::Static, &GridPos { x: 6, y: 3 }, &layout);
    assert_eq!(t.action, EnemyAction::MoveTo { target: e });
    let w = GridPos { x: 1, y: 3 };
    let t = advance_enemy(&w, alert, &GridPos { x: 0, y: 3 }, &layout);
    assert_eq!(t.action, EnemyAction::Attack { target: GridPos { x: 0, y: 3 } });
    let mut walled = room();
    walled.set(4, 3, TileKind::Wall);
    let t = advance_enemy(&e, alert, &GridPos { x: 6, y: 3 }, &walled);
    assert_eq!(t.action, EnemyAction::Stay);
}

#[test]
fn enemies_take_turns_only_when_pending() {
    let layout = room();
    let list = [
        (GridPos { x: 3, y: 3 }, EnemyBehavior::Guard { alerted: true }),
        (GridPos { x: 5, y: 5 }, EnemyBehavior::Static),
    ];
    let mut pending = false;
    assert!(advance_enemies(&mut pending, &list, Some(GridPos { x: 6, y: 3 }), &layout).is_empty());
    let mut pending = true;
    let turns = advance_enemies(&mut pending, &list, Some(GridPos { x: 6, y: 3 }), &layout);
    assert!(!pending);
    assert_eq!(turns.len(), 2);
    assert_eq!(turns[0].action, EnemyAction::MoveTo { target: GridPos { x: 4, y: 3 } });
    assert_eq!(turns[1].action, EnemyAction::MoveTo { target: GridPos { x: 5, y: 5 } });
    let mut pending = true;
    assert!(advance_enemies(&mut pending, &list, None, &layout).is_empty());
    assert!(!pending);
}

#[test]
fn no_pending_turn_moves_nobody() {
    let layout = room();
    let list = [(GridPos { x: 1, y: 3 }, EnemyBehavior::Patrol { axis: Axis::Horizontal, direction: i8::MIN })];
    let mut pending = false;
    assert!(advance_enemies(&mut pending, &list, Some(GridPos { x: 6, y: 6 }), &layout).is_empty());
    assert!(!pending);
}
