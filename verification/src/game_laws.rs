//! What holds of the game's rules as a whole: combat, the state machine,
//! enemy turns, player moves, resting and the game-over statistics.
use vstd::prelude::*;
use crate::room::{GridPos, TileKind, in_grid, tile_of, on_border, fixed_room_tiles, fixed_exit_x, lemma_walled_tiles, cell_index};
use crate::reach::adjacent;
use crate::combat::{LastCombatOutcome, encounter_spec, encounter_defined, flash_end_spec};
use crate::rest::rest_next_state_spec;
use crate::run::{restart_state_spec, start_run_spec};
use crate::tactics::{PlayerMoveState, movement_fold};
use crate::input::is_unit_step;
use crate::state::{GameState, valid_transition};
use crate::enemies::{EnemyBehavior, EnemyAction, enemy_move_spec, enemy_action_spec, walkable};
use crate::tactics::{MoveOutcome, move_spec};
use crate::dead_screen::{DeathCause, run_stats_spec};
use crate::rest::{rest_choice_spec, tier_recovery_spec, adjusted_force_spec, lemma_tier_recovery_grows};
use crate::player::PlayerPersistence;

verus! {

/// Combat is `player force - enemy force`, whoever attacks: the player wins
/// exactly when the difference is above 0 (a draw is a loss) and keeps the
/// difference; a win removes the enemy, a loss leaves the player's force as
/// it was, and only an attacking player who wins steps forward.
pub proof fn law_encounter_outcome(attacker_is_player: bool, player_force: i32, enemy_force: i32)
    requires
        encounter_defined(player_force as int, enemy_force as int),
    ensures
        ({
            let e = encounter_spec(attacker_is_player, player_force as int, enemy_force as int);
            &&& (e.outcome == LastCombatOutcome::Victory) <==> player_force - enemy_force > 0
            &&& (e.outcome == LastCombatOutcome::Victory) <==> e.enemy_defeated
            &&& e.outcome == LastCombatOutcome::Victory ==> e.player_force == player_force - enemy_force
                && e.player_force > 0
            &&& e.outcome == LastCombatOutcome::Defeat ==> e.player_force == player_force
            &&& e.player_advances <==> (attacker_is_player && e.outcome == LastCombatOutcome::Victory)
            &&& encounter_spec(!attacker_is_player, player_force as int, enemy_force as int).outcome == e.outcome
        }),
{
}

/// Every state change that the rules decide follows the state machine:
/// a fight from Room, the end of its flash (to Room, and after a defeat on to
/// Dead), the moves of a frame in Room, a rest choice, a restart from Dead and
/// the start of a run.
pub proof fn law_transitions_follow_state_machine(
    attacker_is_player: bool,
    player_force: int,
    enemy_force: int,
    outcome: LastCombatOutcome,
    start: PlayerMoveState,
    intents: Seq<(i32, i32)>,
    tiles: Seq<TileKind>,
    enemies: Seq<GridPos>,
    choice: u8,
    seed: u64,
)
    ensures
        valid_transition(GameState::Room, encounter_spec(attacker_is_player, player_force, enemy_force).next_state),
        valid_transition(GameState::CombatEvent, flash_end_spec(outcome).next_state),
        flash_end_spec(outcome).afterwards matches Some(s) ==> valid_transition(flash_end_spec(outcome).next_state, s),
        movement_fold(start, intents, tiles, enemies).2 matches Some(s) ==> valid_transition(GameState::Room, s),
        rest_next_state_spec(choice) matches Some(s) ==> valid_transition(GameState::Rest, s),
        valid_transition(GameState::Dead, restart_state_spec()),
        valid_transition(GameState::Loading, start_run_spec(seed).next_state),
    decreases intents.len(),
{
    if intents.len() > 0 {
        law_transitions_follow_state_machine(
            attacker_is_player,
            player_force,
            enemy_force,
            outcome,
            start,
            intents.drop_last(),
            tiles,
            enemies,
            choice,
            seed,
        );
    }
}

/// A player's move lands on the grid, on no wall and on no enemy, on a
/// neighbouring cell for an orthogonal unit request; it costs exactly one
/// step; running out of steps is death, on the exit too; otherwise reaching
/// the exit leads to the rest screen and the next floor.
pub proof fn law_player_move(
    pos: GridPos,
    dx: int,
    dy: int,
    tiles: Seq<TileKind>,
    enemies: Seq<GridPos>,
    steps: int,
    floor: int,
)
    requires
        i32::MIN < steps <= i32::MAX,
        0 <= floor < 255,
    ensures
        move_spec(pos, dx, dy, tiles, enemies, steps, floor) matches MoveOutcome::Moved { pos: p, steps: s, floor: f, next_state: n }
            ==> {
            &&& in_grid(p)
            &&& p.x == pos.x + dx && p.y == pos.y + dy
            &&& tile_of(tiles, p.x as int, p.y as int) != TileKind::Wall
            &&& !enemies.contains(p)
            &&& is_unit_step((dx as i32, dy as i32)) && dx == dx as i32 && dy == dy as i32 ==> adjacent(pos, p)
            &&& s == steps - 1
            &&& s <= 0 ==> (f == floor && n == Some(GameState::Dead))
            &&& (s > 0 && tile_of(tiles, p.x as int, p.y as int) == TileKind::Exit) ==> (f == floor + 1 && n == Some(GameState::Rest))
            &&& (s > 0 && tile_of(tiles, p.x as int, p.y as int) != TileKind::Exit) ==> (f == floor && n is None)
        },
        move_spec(pos, dx, dy, tiles, enemies, steps, floor) matches MoveOutcome::Attack { enemy: i, target: t } ==> {
            &&& enemies.contains(t)
            &&& t.x == pos.x + dx && t.y == pos.y + dy
        },
{
}

/// Static enemies never move; an alerted guard stays alerted; an enemy only
/// moves onto walkable cells, and a guard or a patrol of unit stride only to a
/// neighbouring cell.
pub proof fn law_enemy_turn(tiles: Seq<TileKind>, enemy: GridPos, behavior: EnemyBehavior, player: GridPos)
    requires
        in_grid(enemy),
    ensures
        ({
            let (target, next) = enemy_move_spec(tiles, enemy, behavior, player);
            let action = enemy_action_spec(tiles, target, player);
            &&& behavior == EnemyBehavior::Static ==> target == enemy && next == EnemyBehavior::Static
            &&& behavior == (EnemyBehavior::Guard { alerted: true }) ==> next == (EnemyBehavior::Guard { alerted: true })
            &&& action matches EnemyAction::MoveTo { target: t } ==> walkable(tiles, t)
            &&& action matches EnemyAction::Attack { target: t } ==> t == player
            &&& (behavior is Guard || (behavior matches EnemyBehavior::Patrol { direction, .. } && (direction == 1
                || direction == -1))) && walkable(tiles, target) && target != enemy ==> adjacent(enemy, target)
        }),
{
    if let EnemyBehavior::Patrol { axis, direction } = behavior {
        if direction == -1 {
            let x = enemy.x;
            let y = enemy.y;
            if x == 0 {
                assert((x + direction) as u8 == 255u8) by (bit_vector)
                    requires
                        x == 0u8,
                        direction == -1i8,
                ;
            }
            if y == 0 {
                assert((y + direction) as u8 == 255u8) by (bit_vector)
                    requires
                        y == 0u8,
                        direction == -1i8,
                ;
            }
        }
    }
}

/// The fixed room of a floor has walls on its outer ring, floor inside, and
/// its exit at column 4, 5 or 6 of row 4.
pub proof fn law_fixed_room(floor: u8, x: int, y: int)
    requires
        0 <= x < 8,
        0 <= y < 8,
    ensures
        4 <= fixed_exit_x(floor) <= 6,
        tile_of(fixed_room_tiles(floor), x, y) == (if on_border(x, y) {
            TileKind::Wall
        } else if x == fixed_exit_x(floor) && y == 4 {
            TileKind::Exit
        } else {
            TileKind::Floor
        }),
{
    lemma_walled_tiles();
    if !(x == fixed_exit_x(floor) && y == 4) {
        assert(cell_index(x, y) != cell_index(fixed_exit_x(floor), 4));
    }
}

/// Every rest choice uses up the held item; choice 1 raises force to the next
/// tier, choice 3 to the tier after that, exactly 5 higher; a tier is always
/// above the force it starts from and a multiple of 5.
pub proof fn law_rest_choices(p: PlayerPersistence)
    ensures
        forall|c: u8| 1 <= c <= 3 ==> (#[trigger] rest_choice_spec(p, c)).held_item is None,
        tier_recovery_spec(adjusted_force_spec(p)) > adjusted_force_spec(p),
        tier_recovery_spec(adjusted_force_spec(p)) % 5 == 0,
        tier_recovery_spec(tier_recovery_spec(adjusted_force_spec(p))) == tier_recovery_spec(
            adjusted_force_spec(p),
        ) + 5,
{
    lemma_tier_recovery_grows(adjusted_force_spec(p));
}

/// On the game-over screen the steps taken and the steps left add up to the
/// 100 steps of a run, the steps left are never negative, and a death by an
/// enemy is only reported after a lost fight with steps to spare.
pub proof fn law_run_stats(current_floor: u8, steps: Option<i32>, last: LastCombatOutcome)
    ensures
        ({
            let s = run_stats_spec(current_floor, steps, last);
            &&& s.steps_taken + s.steps_remaining == 100
            &&& s.steps_remaining >= 0
            &&& s.cause == DeathCause::KilledByEnemy ==> last == LastCombatOutcome::Defeat && s.steps_remaining > 0
            &&& s.floors_cleared <= current_floor
        }),
{
}

} // verus!
