use centurion::input::read_player_input;
use centurion::state::GameState;

#[test]
fn first_pressed_key_gives_the_move() {
    let none = [false; 8];
    assert_eq!(read_player_input(GameState::Room, none), None);
    let mut keys = none;
    keys[1] = true; // W
    assert_eq!(read_player_input(GameState::Room, keys), Some((0, -1)));
    keys[6] = true; // arrow right, later in the order
    assert_eq!(read_player_input(GameState::Room, keys), Some((0, -1)));
    let mut keys = none;
    keys[3] = true; // S
    keys[4] = true; // arrow left
    assert_eq!(read_player_input(GameState::Room, keys), Some((0, 1)));
    let mut keys = none;
    keys[5] = true; // A
    assert_eq!(read_player_input(GameState::Room, keys), Some((-1, 0)));
    let mut keys = none;
    keys[7] = true; // D
    assert_eq!(read_player_input(GameState::Room, keys), Some((1, 0)));
}

#[test]
fn no_moves_read_outside_the_room() {
    let keys = [true; 8];
    assert_eq!(read_player_input(GameState::Rest, keys), None);
    assert_eq!(read_player_input(GameState::Dead, keys), None);
}
