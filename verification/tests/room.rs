use centurion::room::{build_room, grid_to_world, GridPos, RoomLayout, TileKind, TILE_SIZE};

#[test]
fn test_grid_to_world() {
    let tile = TILE_SIZE as f32;
    // Grid (0,0) top-left: x = (0 - 3.5)*64 = -224, y = (3.5 - 0)*64 = 224
    let world = grid_to_world(GridPos { x: 0, y: 0 });
    assert_eq!(world.x as f32, -3.5 * tile);
    assert_eq!(world.y as f32, 3.5 * tile);

    // Grid (7,7) bottom-right
    let world = grid_to_world(GridPos { x: 7, y: 7 });
    assert_eq!(world.x as f32, 3.5 * tile);
    assert_eq!(world.y as f32, -3.5 * tile);

    // Grid (3,3)
    let world = grid_to_world(GridPos { x: 3, y: 3 });
    assert_eq!(world.x as f32, -0.5 * tile);
    assert_eq!(world.y as f32, 0.5 * tile);

    // Grid (4,4)
    let world = grid_to_world(GridPos { x: 4, y: 4 });
    assert_eq!(world.x as f32, 0.5 * tile);
    assert_eq!(world.y as f32, -0.5 * tile);
}

#[test]
fn test_build_room_walls() {
    let room = build_room(1);

    for i in 0..8 {
        assert_eq!(room.get(i, 0), TileKind::Wall);
        assert_eq!(room.get(i, 7), TileKind::Wall);
        assert_eq!(room.get(0, i), TileKind::Wall);
        assert_eq!(room.get(7, i), TileKind::Wall);
    }

    for x in 1..7 {
        for y in 1..7 {
            let tile = room.get(x, y);
            assert!(
                tile == TileKind::Floor || tile == TileKind::Exit,
                "Interior tile ({},{}) should be Floor or Exit, got {:?}",
                x,
                y,
                tile
            );
        }
    }
}

#[test]
fn test_exit_position_floor_progression() {
    let room1 = build_room(1);
    assert_eq!(room1.get(4, 4), TileKind::Exit);
    assert_eq!(room1.get(5, 4), TileKind::Floor);

    let room2 = build_room(2);
    assert_eq!(room2.get(5, 4), TileKind::Exit);
    assert_eq!(room2.get(4, 4), TileKind::Floor);

    let room3 = build_room(3);
    assert_eq!(room3.get(6, 4), TileKind::Exit);

    let room4 = build_room(4);
    assert_eq!(room4.get(4, 4), TileKind::Exit);
}

#[test]
fn floor_zero_room_has_exit_at_four() {
    let room0 = build_room(0);
    assert_eq!(room0.get(4, 4), TileKind::Exit);
}

#[test]
fn get_outside_grid_is_floor() {
    let room = build_room(1);
    assert_eq!(room.get(8, 0), TileKind::Floor);
    assert_eq!(room.get(0, 200), TileKind::Floor);
}

#[test]
fn new_and_set_round_trip() {
    let mut rows = [[TileKind::Floor; 8]; 8];
    rows[2][5] = TileKind::Wall;
    let mut layout = RoomLayout::new(rows);
    assert_eq!(layout.get(5, 2), TileKind::Wall);
    assert_eq!(layout.get(2, 5), TileKind::Floor);
    layout.set(3, 6, TileKind::Exit);
    assert_eq!(layout.get(3, 6), TileKind::Exit);
    layout.set(9, 9, TileKind::Wall);
    assert_eq!(layout.get(9, 9), TileKind::Floor);
    let walled = RoomLayout::walled();
    assert_eq!(walled.get(0, 3), TileKind::Wall);
    assert_eq!(walled.get(3, 3), TileKind::Floor);
}
