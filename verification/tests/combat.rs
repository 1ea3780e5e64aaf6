use centurion::combat::{resolve, resolve_encounter, state_after_flash, CombatResult, FlashEnd, LastCombatOutcome};
use centurion::state::GameState;

#[test]
fn player_wins() {
    assert_eq!(resolve(5, 3), CombatResult::PlayerWins { new_force: 2 });
}

#[test]
fn player_dies_negative() {
    assert_eq!(resolve(5, 7), CombatResult::PlayerDies);
}

#[test]
fn player_dies_at_zero() {
    assert_eq!(resolve(5, 5), CombatResult::PlayerDies);
}

#[test]
fn player_attack_wins_and_advances() {
    let e = resolve_encounter(true, 8, 3);
    assert_eq!(e.outcome, LastCombatOutcome::Victory);
    assert_eq!(e.player_force, 5);
    assert!(e.enemy_defeated);
    assert!(e.player_advances);
}

#[test]
fn player_attack_draw_is_defeat() {
    let e = resolve_encounter(true, 4, 4);
    assert_eq!(e.outcome, LastCombatOutcome::Defeat);
    assert_eq!(e.player_force, 4);
    assert!(!e.enemy_defeated);
    assert!(!e.player_advances);
}

#[test]
fn enemy_attack_draw_is_defeat() {
    let e = resolve_encounter(false, 4, 4);
    assert_eq!(e.outcome, LastCombatOutcome::Defeat);
    assert_eq!(e.player_force, 4);
    assert!(!e.enemy_defeated);
    assert!(!e.player_advances);
    assert_eq!(e.next_state, GameState::CombatEvent);
}

#[test]
fn enemy_attack_weaker_enemy_loses() {
    let e = resolve_encounter(false, 9, 4);
    assert_eq!(e.outcome, LastCombatOutcome::Victory);
    assert_eq!(e.player_force, 5);
    assert!(e.enemy_defeated);
    assert!(!e.player_advances);
}

#[test]
fn enemy_attack_stronger_enemy_wins() {
    let e = resolve_encounter(false, 4, 9);
    assert_eq!(e.outcome, LastCombatOutcome::Defeat);
    assert_eq!(e.player_force, 4);
    assert!(!e.enemy_defeated);
}

#[test]
fn flash_leads_back_to_room_or_to_death() {
    assert_eq!(state_after_flash(LastCombatOutcome::Victory), FlashEnd { next_state: GameState::Room, afterwards: None });
    assert_eq!(
        state_after_flash(LastCombatOutcome::Defeat),
        FlashEnd { next_state: GameState::Room, afterwards: Some(GameState::Dead) }
    );
    assert_eq!(LastCombatOutcome::default(), LastCombatOutcome::Victory);
    assert_eq!(GameState::default(), GameState::Loading);
}
