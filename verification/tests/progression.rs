use centurion::combat::LastCombatOutcome;
use centurion::config::{CenturionConfig, RunStats};
use centurion::dead_screen::{populate_run_stats, DeathCause};
use centurion::enemies::EnemyBehavior;
use centurion::hud::boss_estimate;
use centurion::items::ItemKind;
use centurion::player::{persistence_on_rest, starting_stats, PlayerPersistence, PlayerStats};
use centurion::procgen::{build_room_proc, generate_enemy_defs};
use centurion::rest::{handle_rest_choice, rest_preview, tier_recovery};
use centurion::room::GridPos;
use centurion::run::{loading_to_room, restart, start_run};
use centurion::spawn::{boss_force, enemy_spawn_defs, item_spawn_defs};
use centurion::state::GameState;

#[test]
fn score_formula() {
    let stats = RunStats { floors_cleared: 0, total_steps_taken: 41, enemies_defeated: 0, items_collected: 0 };
    assert_eq!(stats.calculate_score(3, 12, 7), 300 + 24 + 70 - 20);
    let neg = RunStats { total_steps_taken: -5, ..stats };
    assert_eq!(neg.calculate_score(0, 0, 0), 2);
}

#[test]
fn config_defaults() {
    let c = CenturionConfig::default();
    assert_eq!(c.current_floor, 1);
    assert_eq!(c.window_width, 800);
    assert_eq!(c.window_height, 800);
    assert_eq!(RunStats::default().total_steps_taken, 0);
}

#[test]
fn tiers_of_recovery() {
    assert_eq!(tier_recovery(5), 10);
    assert_eq!(tier_recovery(7), 10);
    assert_eq!(tier_recovery(0), 5);
    assert_eq!(tier_recovery(-3), 5);
    assert_eq!(tier_recovery(-7), 0);
}

#[test]
fn rest_choices() {
    let p = PlayerPersistence { steps: 30, force: 7, held_item: Some(ItemKind::Whetstone) };
    assert_eq!(rest_preview(&p), (10, 15));
    let mut a = p;
    assert_eq!(handle_rest_choice(&mut a, 1), Some(GameState::Room));
    assert_eq!(a, PlayerPersistence { steps: 50, force: 10, held_item: None });
    let mut b = p;
    assert_eq!(handle_rest_choice(&mut b, 2), Some(GameState::Room));
    assert_eq!(b, PlayerPersistence { steps: 70, force: 7, held_item: None });
    let mut c = PlayerPersistence { held_item: None, force: 9, ..p };
    assert_eq!(handle_rest_choice(&mut c, 3), Some(GameState::Room));
    assert_eq!(c, PlayerPersistence { steps: 30, force: 15, held_item: None });
    let mut d = p;
    assert_eq!(handle_rest_choice(&mut d, 4), None);
    assert_eq!(d, p);
}

#[test]
fn dead_screen_stats() {
    let s = populate_run_stats(4, Some(37), LastCombatOutcome::Defeat);
    assert_eq!(s.floors_cleared, 3);
    assert_eq!(s.steps_taken, 63);
    assert_eq!(s.steps_remaining, 37);
    assert_eq!(s.cause, DeathCause::KilledByEnemy);
    let s = populate_run_stats(1, Some(-2), LastCombatOutcome::Defeat);
    assert_eq!(s.floors_cleared, 0);
    assert_eq!(s.steps_taken, 100);
    assert_eq!(s.steps_remaining, 0);
    assert_eq!(s.cause, DeathCause::OutOfSteps);
    let s = populate_run_stats(0, None, LastCombatOutcome::Victory);
    assert_eq!(s.floors_cleared, 0);
    assert_eq!(s.cause, DeathCause::OutOfSteps);
    let s = populate_run_stats(2, Some(5), LastCombatOutcome::Victory);
    assert_eq!(s.cause, DeathCause::OutOfSteps);
}

#[test]
fn hud_boss_estimate() {
    assert_eq!(boss_estimate(0, 0), 10);
    assert_eq!(boss_estimate(3, 1), 11);
    assert_eq!(boss_estimate(0, 4), 1);
}

#[test]
fn player_start_and_carry_over() {
    assert_eq!(starting_stats(None), PlayerStats { steps: 100, force: 5 });
    let p = persistence_on_rest(42, 9);
    assert_eq!(p, PlayerPersistence { steps: 42, force: 9, held_item: None });
    assert_eq!(starting_stats(Some(p)), PlayerStats { steps: 42, force: 9 });
}

#[test]
fn boss_floor_spawns_one_boss() {
    assert_eq!(boss_force(None), 20);
    let p = PlayerPersistence { steps: 10, force: 13, held_item: None };
    assert_eq!(boss_force(Some(p)), 26);
    let defs = enemy_spawn_defs(10, 5, None, None, Some(p));
    assert_eq!(defs.len(), 1);
    assert_eq!(defs[0].pos, GridPos { x: 4, y: 4 });
    assert_eq!(defs[0].force, 26);
    assert_eq!(defs[0].behavior, EnemyBehavior::Static);
}

#[test]
fn spawns_fall_back_to_generated_room() {
    let (layout, exit) = build_room_proc(3, 77);
    let direct = generate_enemy_defs(3, 77, &layout, exit);
    assert_eq!(enemy_spawn_defs(3, 77, None, None, None), direct);
    assert_eq!(enemy_spawn_defs(3, 77, Some(&layout), Some(exit), None), direct);
    assert!(item_spawn_defs(10, 77, Some(&layout), Some(exit), &[]).is_empty());
    assert!(item_spawn_defs(3, 77, None, Some(exit), &[]).is_empty());
    assert!(!item_spawn_defs(3, 77, Some(&layout), Some(exit), &[]).is_empty());
}

#[test]
fn runs_start_and_restart() {
    let r = start_run(0xABC);
    assert_eq!(r.seed.0, 0xABC);
    assert_eq!(r.stats, RunStats::default());
    assert_eq!(r.next_state, GameState::Room);
    let fresh = loading_to_room();
    assert_eq!(fresh.stats, RunStats::default());
    assert_eq!(fresh.next_state, GameState::Room);
    let mut c = CenturionConfig { current_floor: 7, window_width: 640, window_height: 480 };
    assert_eq!(restart(&mut c), GameState::Loading);
    assert_eq!(c, CenturionConfig { current_floor: 1, window_width: 640, window_height: 480 });
}

#[test]
fn carried_force_is_only_doubled_on_the_boss_floor() {
    let p = PlayerPersistence { steps: 10, force: i32::MAX, held_item: None };
    let (layout, exit) = build_room_proc(3, 77);
    assert_eq!(enemy_spawn_defs(3, 77, None, None, Some(p)), generate_enemy_defs(3, 77, &layout, exit));
}
