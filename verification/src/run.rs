//! Starting and restarting a run.
use rand::Rng;
use vstd::prelude::*;
use crate::config::{CenturionConfig, RunSeed, RunStats};
use crate::state::GameState;

verus! {

/// A fresh run seed from the thread-local random generator.
///
/// Calls `rand::thread_rng().gen::<u64>()`. Nothing is claimed of the value:
/// it comes from the operating system's entropy.
#[verifier::external_body]
fn random_seed() -> (seed: u64) {
    rand::thread_rng().gen::<u64>()
}

/// What starting a run sets up.
#[derive(Clone, Copy, Debug, PartialEq, Eq, Structural)]
pub struct RunStart {
    pub seed: RunSeed,
    pub stats: RunStats,
    pub next_state: GameState,
}

/// A run started with `seed`: fresh statistics, and on to the first room.
pub open spec fn start_run_spec(seed: u64) -> RunStart {
    RunStart {
        seed: RunSeed(seed),
        stats: RunStats { floors_cleared: 0, total_steps_taken: 0, enemies_defeated: 0, items_collected: 0 },
        next_state: GameState::Room,
    }
}

/// Start a run with the given seed: fresh statistics, and on to the first room.
pub fn start_run(seed: u64) -> (r: RunStart)
    ensures
        r == start_run_spec(seed),
{
    RunStart { seed: RunSeed(seed), stats: RunStats::default(), next_state: GameState::Room }
}

/// Generate a new run seed and move from Loading to Room.
pub fn loading_to_room() -> (r: RunStart)
    ensures
        r == start_run_spec(r.seed.0),
{
    let seed = random_seed();
    start_run(seed)
}

/// The state a restart leads to.
pub open spec fn restart_state_spec() -> GameState {
    GameState::Loading
}

/// Restart from the game-over or victory screen: back to floor 1 and to Loading.
pub fn restart(config: &mut CenturionConfig) -> (next: GameState)
    ensures
        *final(config) == (CenturionConfig { current_floor: 1, ..*old(config) }),
        next == restart_state_spec(),
{
    config.current_floor = 1;
    GameState::Loading
}

} // verus!
