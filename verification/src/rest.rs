//! The rest screen between floors: three ways to recover.
use vstd::prelude::*;
use crate::config::div_trunc;
use crate::items::ItemKind;
use crate::player::PlayerPersistence;
use crate::state::GameState;

verus! {

/// The next multiple of 5 above `force` (toward zero division, as in Rust).
pub open spec fn tier_recovery_spec(force: int) -> int {
    (div_trunc(force, 5) + 1) * 5
}

/// Raise force to the next tier (the next multiple of 5 above it).
pub fn tier_recovery(force: i32) -> (r: i32)
    requires
        tier_recovery_spec(force as int) <= i32::MAX,
    ensures
        r == tier_recovery_spec(force as int),
{
    ((force / 5) + 1) * 5
}

/// The force a rest choice starts from: one more with a whetstone in hand.
pub open spec fn adjusted_force_spec(p: PlayerPersistence) -> int {
    if p.held_item == Some(ItemKind::Whetstone) {
        p.force + 1
    } else {
        p.force as int
    }
}

/// Both offered forces fit in an `i32`.
pub open spec fn rest_preview_defined(p: PlayerPersistence) -> bool {
    &&& adjusted_force_spec(p) <= i32::MAX
    &&& tier_recovery_spec(tier_recovery_spec(adjusted_force_spec(p))) <= i32::MAX
}

/// The chosen option changes the counters within their types.
pub open spec fn rest_choice_defined(p: PlayerPersistence, choice: u8) -> bool {
    &&& 1 <= choice <= 3 ==> adjusted_force_spec(p) <= i32::MAX
    &&& choice == 1 ==> p.steps + 20 <= i32::MAX && tier_recovery_spec(adjusted_force_spec(p)) <= i32::MAX
    &&& choice == 2 ==> p.steps + 40 <= i32::MAX
    &&& choice == 3 ==> tier_recovery_spec(tier_recovery_spec(adjusted_force_spec(p))) <= i32::MAX
}

/// The force offered by choices 1 and 3.
pub fn rest_preview(p: &PlayerPersistence) -> (r: (i32, i32))
    requires
        rest_preview_defined(*p),
    ensures
        r.0 == tier_recovery_spec(adjusted_force_spec(*p)),
        r.1 == tier_recovery_spec(tier_recovery_spec(adjusted_force_spec(*p))),
{
    proof {
        lemma_tier_recovery_grows(adjusted_force_spec(*p));
    }
    let adjusted = if p.held_item == Some(ItemKind::Whetstone) { p.force + 1 } else { p.force };
    let opt1 = tier_recovery(adjusted);
    let opt3 = tier_recovery(opt1);
    (opt1, opt3)
}

/// The persistence after a rest choice:
/// 1. quick descent: +20 steps, force up one tier;
/// 2. long rest: +40 steps, force unchanged;
/// 3. hard training: steps unchanged, force up two tiers.
/// Any choice uses up the held item. Other choices change nothing.
pub open spec fn rest_choice_spec(p: PlayerPersistence, choice: u8) -> PlayerPersistence {
    let adjusted = adjusted_force_spec(p);
    if choice == 1 {
        PlayerPersistence { steps: (p.steps + 20) as i32, force: tier_recovery_spec(adjusted) as i32, held_item: None }
    } else if choice == 2 {
        PlayerPersistence { steps: (p.steps + 40) as i32, force: p.force, held_item: None }
    } else if choice == 3 {
        PlayerPersistence {
            steps: p.steps,
            force: tier_recovery_spec(tier_recovery_spec(adjusted)) as i32,
            held_item: None,
        }
    } else {
        p
    }
}

/// The state after a rest choice: back to the room after choice 1, 2 or 3;
/// no change for anything else.
pub open spec fn rest_next_state_spec(choice: u8) -> Option<GameState> {
    if 1 <= choice <= 3 {
        Some(GameState::Room)
    } else {
        None
    }
}

/// Apply the rest choice 1, 2 or 3, and give the state to switch to (none
/// when no choice was made).
pub fn handle_rest_choice(p: &mut PlayerPersistence, choice: u8) -> (next: Option<GameState>)
    requires
        rest_choice_defined(*old(p), choice),
    ensures
        next == rest_next_state_spec(choice),
        *final(p) == rest_choice_spec(*old(p), choice),
        choice == 1 ==> final(p).force == tier_recovery_spec(adjusted_force_spec(*old(p))),
        choice == 3 ==> final(p).force == tier_recovery_spec(adjusted_force_spec(*old(p))) + 5,
{
    if choice < 1 || choice > 3 {
        return None;
    }
    proof {
        lemma_tier_recovery_grows(adjusted_force_spec(*p));
    }
    let adjusted_force = if p.held_item == Some(ItemKind::Whetstone) { p.force + 1 } else { p.force };
    if choice == 1 {
        p.steps = p.steps + 20;
        p.force = tier_recovery(adjusted_force);
    } else if choice == 2 {
        p.steps = p.steps + 40;
    } else {
        p.force = tier_recovery(tier_recovery(adjusted_force));
    }
    p.held_item = None;
    Some(GameState::Room)
}

/// Each rest choice takes what the rest screen offers (`rest_preview`):
/// quick descent the first force, hard training the second; a long rest
/// keeps the force. Quick descent adds 20 steps, a long rest 40, hard
/// training none, and every choice uses up the held item.
pub proof fn law_rest_choice_takes_offer(p: PlayerPersistence)
    requires
        rest_preview_defined(p),
        p.steps + 40 <= i32::MAX,
    ensures
        rest_choice_spec(p, 1).force == tier_recovery_spec(adjusted_force_spec(p)),
        rest_choice_spec(p, 3).force == tier_recovery_spec(tier_recovery_spec(adjusted_force_spec(p))),
        rest_choice_spec(p, 2).force == p.force,
        rest_choice_spec(p, 1).steps == p.steps + 20,
        rest_choice_spec(p, 2).steps == p.steps + 40,
        rest_choice_spec(p, 3).steps == p.steps,
        rest_choice_spec(p, 1).held_item is None,
        rest_choice_spec(p, 2).held_item is None,
        rest_choice_spec(p, 3).held_item is None,
{
    lemma_tier_recovery_grows(adjusted_force_spec(p));
}

/// Hard training lands exactly one tier above quick descent.
pub proof fn law_hard_training_one_tier_above(p: PlayerPersistence)
    requires
        rest_preview_defined(p),
        p.steps + 20 <= i32::MAX,
    ensures
        rest_choice_spec(p, 3).force == rest_choice_spec(p, 1).force + 5,
{
    lemma_tier_recovery_grows(adjusted_force_spec(p));
}

/// A held whetstone counts as one more force before the choice: resting
/// with it gives the force that resting without an item, one force
/// stronger, gives.
pub proof fn law_whetstone_adds_one_first(p: PlayerPersistence, choice: u8)
    requires
        p.held_item == Some(ItemKind::Whetstone),
        rest_choice_defined(p, choice),
        1 <= choice <= 3,
    ensures
        rest_choice_spec(p, choice).force == (if choice == 2 {
            p.force as int
        } else {
            rest_choice_spec(PlayerPersistence { steps: p.steps, force: (p.force + 1) as i32, held_item: None }, choice).force as int
        }),
{
}

/// Quick descent raises a force of 0 or more to the smallest multiple of 5
/// above it.
pub proof fn law_quick_descent_next_multiple_of_5(p: PlayerPersistence)
    requires
        rest_choice_defined(p, 1),
        adjusted_force_spec(p) >= 0,
    ensures
        rest_choice_spec(p, 1).force % 5 == 0,
        adjusted_force_spec(p) < rest_choice_spec(p, 1).force <= adjusted_force_spec(p) + 5,
{
    lemma_tier_recovery_grows(adjusted_force_spec(p));
    let a = adjusted_force_spec(p);
    assert(div_trunc(a, 5) == a / 5);
}

/// A tier is always above the force it starts from, and a multiple of 5;
/// the second tier is exactly 5 above the first.
pub proof fn lemma_tier_recovery_grows(force: int)
    ensures
        tier_recovery_spec(force) > force,
        tier_recovery_spec(force) % 5 == 0,
        tier_recovery_spec(tier_recovery_spec(force)) == tier_recovery_spec(force) + 5,
{
    let t = tier_recovery_spec(force);
    assert(t % 5 == 0);
    if t >= 0 {
        assert(t / 5 * 5 == t);
    } else {
        assert((-t) / 5 * 5 == -t);
    }
}

} // verus!
