//! The game-over screen's statistics.
use vstd::prelude::*;
use crate::combat::LastCombatOutcome;
use crate::player::STARTING_STEPS;

verus! {

/// Why the run ended.
#[derive(Clone, Copy, Debug, PartialEq, Eq, Structural)]
pub enum DeathCause {
    OutOfSteps,
    KilledByEnemy,
}

/// What the game-over screen shows.
#[derive(Clone, Copy, Debug, PartialEq, Eq, Structural)]
pub struct RunStats {
    pub floors_cleared: u8,
    pub steps_taken: i32,
    pub steps_remaining: i32,
    pub cause: DeathCause,
}

/// The statistics of a run that ended on `current_floor`, with the player's
/// remaining steps (none when the player is gone) and the last fight's outcome.
pub open spec fn run_stats_spec(current_floor: u8, steps: Option<i32>, last: LastCombatOutcome) -> RunStats {
    let remaining: int = match steps {
        Some(s) => s as int,
        None => 0,
    };
    let kept = if remaining > 0 { remaining } else { 0 };
    RunStats {
        floors_cleared: (if current_floor >= 1 { current_floor - 1 } else { 0 }) as u8,
        steps_taken: (100 - kept) as i32,
        steps_remaining: kept as i32,
        cause: if remaining <= 0 {
            DeathCause::OutOfSteps
        } else {
            match last {
                LastCombatOutcome::Defeat => DeathCause::KilledByEnemy,
                LastCombatOutcome::Victory => DeathCause::OutOfSteps,
            }
        },
    }
}

/// Gather the statistics of the game-over screen.
pub fn populate_run_stats(current_floor: u8, steps: Option<i32>, last_outcome: LastCombatOutcome) -> (stats: RunStats)
    ensures
        stats == run_stats_spec(current_floor, steps, last_outcome),
{
    let steps_remaining = match steps {
        Some(s) => s,
        None => 0,
    };
    let floors_cleared = current_floor.saturating_sub(1);
    let cause = if steps_remaining <= 0 {
        DeathCause::OutOfSteps
    } else {
        match last_outcome {
            LastCombatOutcome::Defeat => DeathCause::KilledByEnemy,
            LastCombatOutcome::Victory => DeathCause::OutOfSteps,
        }
    };
    let kept = steps_remaining.max(0);
    RunStats { floors_cleared, steps_taken: STARTING_STEPS - kept, steps_remaining: kept, cause }
}

} // verus!
