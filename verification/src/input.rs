//! Move requests from the keyboard: one orthogonal step per frame.
use vstd::prelude::*;
use crate::state::GameState;

verus! {

/// The movement keys, in the order in which they are checked: arrow up, W,
/// arrow down, S, arrow left, A, arrow right, D.
pub const MOVE_KEY_COUNT: usize = 8;

/// The direction of the `i`-th movement key: up for the first two, then
/// down, left and right, two keys each (Y grows downwards).
pub open spec fn key_direction(i: int) -> (i32, i32) {
    if i < 2 {
        (0i32, -1i32)
    } else if i < 4 {
        (0i32, 1i32)
    } else if i < 6 {
        (-1i32, 0i32)
    } else {
        (1i32, 0i32)
    }
}

/// The arrow of pair `k` (up, down, left, right) or its letter (W, S, A, D)
/// is pressed.
pub open spec fn pressed_pair(s: Seq<bool>, k: int) -> bool {
    s[2 * k] || s[2 * k + 1]
}

/// A key of pair `k` is pressed, and none of an earlier pair.
pub open spec fn first_pressed_pair(s: Seq<bool>, k: int) -> bool {
    pressed_pair(s, k) && forall|j: int| 0 <= j < k ==> !#[trigger] pressed_pair(s, j)
}

/// An arrow and its letter move the same way: up (towards smaller y, as y
/// grows downwards), down, left and right; up and down are opposite, and so
/// are left and right.
pub proof fn law_movement_keys(k: int)
    requires
        0 <= k < 4,
    ensures
        key_direction(2 * k) == key_direction(2 * k + 1),
        is_unit_step(key_direction(2 * k)),
        key_direction(0) == (0i32, -1i32),
        key_direction(2) == (0i32, 1i32),
        key_direction(4) == (-1i32, 0i32),
        key_direction(6) == (1i32, 0i32),
        key_direction(0).1 == -key_direction(2).1,
        key_direction(4).0 == -key_direction(6).0,
{
}

/// One orthogonal step: no diagonals, no jumps.
pub open spec fn is_unit_step(d: (i32, i32)) -> bool {
    ||| d.0 == 0 && (d.1 == 1 || d.1 == -1)
    ||| d.1 == 0 && (d.0 == 1 || d.0 == -1)
}

/// Index of the first `true` in `s` (the length of `s` when there is none).
pub open spec fn first_true(s: Seq<bool>) -> int
    decreases s.len(),
{
    if s.len() == 0 {
        0
    } else if s[0] {
        0
    } else {
        1 + first_true(s.drop_first())
    }
}

proof fn lemma_first_true_skip(s: Seq<bool>, i: int)
    requires
        0 <= i < s.len(),
        !s[i],
    ensures
        first_true(s.skip(i)) == 1 + first_true(s.skip(i + 1)),
{
    assert(s.skip(i).drop_first() =~= s.skip(i + 1));
}

/// The move request of a frame, from the movement keys just pressed (in the
/// order of `MOVE_KEY_COUNT`'s doc): in the room, the direction of the first
/// pressed key; nothing outside the room or when no key is pressed.
pub fn read_player_input(state: GameState, just_pressed: [bool; 8]) -> (r: Option<(i32, i32)>)
    ensures
        r is Some <==> (state == GameState::Room && just_pressed@.contains(true)),
        r matches Some(d) ==> d == key_direction(first_true(just_pressed@)) && is_unit_step(d),
        state == GameState::Room && pressed_pair(just_pressed@, 0) ==> r == Some((0i32, -1i32)),
        state == GameState::Room && first_pressed_pair(just_pressed@, 1) ==> r == Some((0i32, 1i32)),
        state == GameState::Room && first_pressed_pair(just_pressed@, 2) ==> r == Some((-1i32, 0i32)),
        state == GameState::Room && first_pressed_pair(just_pressed@, 3) ==> r == Some((1i32, 0i32)),
{
    if state != GameState::Room {
        return None;
    }
    let mut i: usize = 0;
    assert(just_pressed@.skip(0) =~= just_pressed@);
    while i < MOVE_KEY_COUNT
        invariant
            i <= 8,
            state == GameState::Room,
            forall|j: int| 0 <= j < i ==> !just_pressed@[j],
            first_true(just_pressed@) == i + first_true(just_pressed@.skip(i as int)),
        decreases 8 - i,
    {
        if just_pressed[i] {
            let d: (i32, i32) = if i < 2 {
                (0, -1)
            } else if i < 4 {
                (0, 1)
            } else if i < 6 {
                (-1, 0)
            } else {
                (1, 0)
            };
            assert(just_pressed@[i as int]);
            assert(just_pressed@.contains(true));
            proof {
                let s = just_pressed@;
                assert(!pressed_pair(s, 0) ==> i >= 2);
                if i >= 2 {
                    assert(pressed_pair(s, (i / 2) as int));
                }
                assert(forall|j: int| 0 <= j < 4 && 2 * j + 1 < i ==> !#[trigger] pressed_pair(s, j));
            }
            return Some(d);
        }
        proof {
            lemma_first_true_skip(just_pressed@, i as int);
        }
        i = i + 1;
    }
    proof {
        let s = just_pressed@;
        assert(forall|j: int| 0 <= j < 4 ==> !#[trigger] pressed_pair(s, j));
    }
    None
}

} // verus!
