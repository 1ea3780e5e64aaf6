//! Deterministic combat: `player force - enemy force`, no randomness.
use vstd::prelude::*;
use crate::state::GameState;

verus! {

/// Outcome of one fight, seen from the side given first.
#[derive(Clone, Copy, Debug, PartialEq, Eq, Structural)]
pub enum CombatResult {
    PlayerWins { new_force: i32 },
    PlayerDies,
}

/// The first side wins, keeping the difference, exactly when its force is
/// larger; a draw or less loses.
pub open spec fn resolve_spec(player_force: int, enemy_force: int) -> CombatResult {
    if player_force - enemy_force <= 0 {
        CombatResult::PlayerDies
    } else {
        CombatResult::PlayerWins { new_force: (player_force - enemy_force) as i32 }
    }
}

/// Resolve a fight between two forces.
pub fn resolve(player_force: i32, enemy_force: i32) -> (r: CombatResult)
    requires
        i32::MIN <= player_force - enemy_force <= i32::MAX,
    ensures
        r == resolve_spec(player_force as int, enemy_force as int),
{
    let new_force = player_force - enemy_force;
    if new_force <= 0 {
        CombatResult::PlayerDies
    } else {
        CombatResult::PlayerWins { new_force }
    }
}

/// How the last fight ended for the player.
#[derive(Clone, Copy, Debug, PartialEq, Eq, Hash, Structural)]
pub enum LastCombatOutcome {
    Victory,
    Defeat,
}

impl Default for LastCombatOutcome {
    fn default() -> (o: LastCombatOutcome)
        ensures
            o == LastCombatOutcome::Victory,
    {
        LastCombatOutcome::Victory
    }
}

/// What one encounter between the player and an enemy changes.
#[derive(Clone, Copy, Debug, PartialEq, Eq, Structural)]
pub struct Encounter {
    /// How the fight ended for the player.
    pub outcome: LastCombatOutcome,
    /// The player's force afterwards.
    pub player_force: i32,
    /// The enemy is removed from the room.
    pub enemy_defeated: bool,
    /// The player moves onto the enemy's cell.
    pub player_advances: bool,
    /// The state the game switches to: the combat flash.
    pub next_state: GameState,
}

/// The forces of an encounter can be subtracted within `i32`.
pub open spec fn encounter_defined(player_force: int, enemy_force: int) -> bool {
    i32::MIN <= player_force - enemy_force <= i32::MAX
}

/// An encounter, whoever attacked: the player wins exactly when the player's
/// force exceeds the enemy's, and keeps the difference; the defeated enemy
/// leaves, and an attacking player steps onto its cell. A loser keeps the
/// force he had. Either way the combat flash follows.
pub open spec fn encounter_spec(attacker_is_player: bool, player_force: int, enemy_force: int) -> Encounter {
    if player_force - enemy_force > 0 {
        Encounter {
            outcome: LastCombatOutcome::Victory,
            player_force: (player_force - enemy_force) as i32,
            enemy_defeated: true,
            player_advances: attacker_is_player,
            next_state: GameState::CombatEvent,
        }
    } else {
        Encounter {
            outcome: LastCombatOutcome::Defeat,
            player_force: player_force as i32,
            enemy_defeated: false,
            player_advances: false,
            next_state: GameState::CombatEvent,
        }
    }
}

/// Resolve one encounter between the player and an enemy, whichever of them attacked.
pub fn resolve_encounter(attacker_is_player: bool, player_force: i32, enemy_force: i32) -> (e: Encounter)
    requires
        encounter_defined(player_force as int, enemy_force as int),
    ensures
        e == encounter_spec(attacker_is_player, player_force as int, enemy_force as int),
{
    match resolve(player_force, enemy_force) {
        CombatResult::PlayerWins { new_force } => Encounter {
            outcome: LastCombatOutcome::Victory,
            player_force: new_force,
            enemy_defeated: true,
            player_advances: attacker_is_player,
            next_state: GameState::CombatEvent,
        },
        CombatResult::PlayerDies => Encounter {
            outcome: LastCombatOutcome::Defeat,
            player_force,
            enemy_defeated: false,
            player_advances: false,
            next_state: GameState::CombatEvent,
        },
    }
}

/// How the combat flash ends: the state it leads to, and the state that
/// follows that one at once.
#[derive(Clone, Copy, Debug, PartialEq, Eq, Structural)]
pub struct FlashEnd {
    pub next_state: GameState,
    pub afterwards: Option<GameState>,
}

/// The flash always leads back to the room; after a defeat the room then
/// gives way to the game-over screen.
pub open spec fn flash_end_spec(outcome: LastCombatOutcome) -> FlashEnd {
    FlashEnd {
        next_state: GameState::Room,
        afterwards: match outcome {
            LastCombatOutcome::Victory => None,
            LastCombatOutcome::Defeat => Some(GameState::Dead),
        },
    }
}

/// The states that follow the combat flash once its timer has finished.
pub fn state_after_flash(outcome: LastCombatOutcome) -> (end: FlashEnd)
    ensures
        end == flash_end_spec(outcome),
{
    match outcome {
        LastCombatOutcome::Victory => FlashEnd { next_state: GameState::Room, afterwards: None },
        LastCombatOutcome::Defeat => FlashEnd { next_state: GameState::Room, afterwards: Some(GameState::Dead) },
    }
}

} // verus!
