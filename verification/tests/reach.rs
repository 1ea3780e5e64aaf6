use centurion::reach::is_reachable;
use centurion::room::{GridPos, RoomLayout, TileKind};

fn open_room() -> RoomLayout {
    RoomLayout::walled()
}

#[test]
fn reachable_in_open_room() {
    let layout = open_room();
    assert!(is_reachable(GridPos { x: 1, y: 1 }, GridPos { x: 6, y: 6 }, &layout));
    assert!(is_reachable(GridPos { x: 1, y: 1 }, GridPos { x: 1, y: 1 }, &layout));
}

#[test]
fn walls_are_not_reachable_targets() {
    let layout = open_room();
    assert!(!is_reachable(GridPos { x: 1, y: 1 }, GridPos { x: 0, y: 0 }, &layout));
    assert!(!is_reachable(GridPos { x: 1, y: 1 }, GridPos { x: 9, y: 9 }, &layout));
}

#[test]
fn a_wall_line_cuts_the_room() {
    let mut layout = open_room();
    for y in 1..7u8 {
        layout.set(3, y, TileKind::Wall);
    }
    assert!(!is_reachable(GridPos { x: 1, y: 1 }, GridPos { x: 5, y: 5 }, &layout));
    assert!(is_reachable(GridPos { x: 1, y: 1 }, GridPos { x: 2, y: 6 }, &layout));
    layout.set(3, 4, TileKind::Floor);
    assert!(is_reachable(GridPos { x: 1, y: 1 }, GridPos { x: 5, y: 5 }, &layout));
}

#[test]
fn start_on_a_wall_still_walks_out() {
    let layout = open_room();
    assert!(is_reachable(GridPos { x: 0, y: 1 }, GridPos { x: 3, y: 3 }, &layout));
}
