//! The player's counters, and what carries over from one floor to the next.
use vstd::prelude::*;
use crate::items::ItemKind;

verus! {

/// Number of movement steps the player has remaining this floor.
#[derive(Clone, Copy, Debug, PartialEq, Eq, Structural)]
pub struct CurrentSteps(pub i32);

/// Combat power: used to determine fight outcomes and damage taken.
#[derive(Clone, Copy, Debug, PartialEq, Eq, Structural)]
pub struct Force(pub i32);

/// The player's steps and force, as the HUD shows them.
#[derive(Clone, Copy, Debug, PartialEq, Eq, Structural)]
pub struct PlayerStats {
    pub steps: i32,
    pub force: i32,
}

/// What the player carries from one floor to the next.
#[derive(Clone, Copy, Debug, PartialEq, Eq, Structural)]
pub struct PlayerPersistence {
    pub steps: i32,
    pub force: i32,
    pub held_item: Option<ItemKind>,
}

/// Steps of a fresh run.
pub const STARTING_STEPS: i32 = 100;
/// Force of a fresh run.
pub const STARTING_FORCE: i32 = 5;

/// The steps and force the player enters a room with: those carried over
/// from the last floor, or 100 steps and force 5 at the start of a run.
pub fn starting_stats(persistence: Option<PlayerPersistence>) -> (s: PlayerStats)
    ensures
        s == (match persistence {
            Some(p) => PlayerStats { steps: p.steps, force: p.force },
            None => PlayerStats { steps: 100, force: 5 },
        }),
{
    match persistence {
        Some(p) => PlayerStats { steps: p.steps, force: p.force },
        None => PlayerStats { steps: STARTING_STEPS, force: STARTING_FORCE },
    }
}

/// What the player takes into the rest screen on leaving a floor.
pub fn persistence_on_rest(steps: i32, force: i32) -> (p: PlayerPersistence)
    ensures
        p == (PlayerPersistence { steps, force, held_item: None }),
{
    PlayerPersistence { steps, force, held_item: None }
}

} // verus!
