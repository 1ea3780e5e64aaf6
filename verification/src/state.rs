//! The game's state machine.
use vstd::prelude::*;

verus! {

/// Game state machine that governs the entire game flow.
///
/// Valid transitions:
/// - Loading  → Room
/// - Room     → CombatEvent | Rest | Dead
/// - CombatEvent → Room
/// - Rest     → Room
/// - Dead     → Loading
#[derive(Clone, Copy, Debug, PartialEq, Eq, Hash, Structural)]
pub enum GameState {
    /// Initial state: loading configuration and preparing the first room.
    Loading,
    /// Main gameplay state: player movement, enemies, combat.
    Room,
    /// Brief state for combat animation (flash).
    CombatEvent,
    /// Between-floor state: showing stats and waiting for player to descend.
    Rest,
    /// Game over state: showing final run statistics.
    Dead,
}

impl Default for GameState {
    fn default() -> (s: GameState)
        ensures
            s == GameState::Loading,
    {
        GameState::Loading
    }
}

/// The transitions that the state machine lists as valid.
pub open spec fn valid_transition(from: GameState, to: GameState) -> bool {
    match from {
        GameState::Loading => to == GameState::Room,
        GameState::Room => to == GameState::CombatEvent || to == GameState::Rest || to == GameState::Dead,
        GameState::CombatEvent => to == GameState::Room,
        GameState::Rest => to == GameState::Room,
        GameState::Dead => to == GameState::Loading,
    }
}

} // verus!
