//! Enemies: their kinds of behaviour, and what each does on its turn.
use vstd::prelude::*;
use crate::room::{GridPos, RoomLayout, TileKind, tile_of};

verus! {

/// The axis along which a patrolling enemy walks.
#[derive(Clone, Copy, Debug, PartialEq, Eq, Structural)]
pub enum Axis {
    Horizontal,
    Vertical,
}

/// How an enemy acts on its turn.
#[derive(Clone, Copy, Debug, PartialEq, Eq, Structural)]
pub enum EnemyBehavior {
    /// Never moves.
    Static,
    /// Walks along an axis and turns back at walls.
    Patrol { axis: Axis, direction: i8 },
    /// Waits until it sees the player, then chases.
    Guard { alerted: bool },
}

/// An enemy to spawn: where, how strong, and how it behaves.
#[derive(Clone, Copy, Debug, PartialEq, Eq, Structural)]
pub struct EnemyDef {
    pub pos: GridPos,
    pub force: i32,
    pub behavior: EnemyBehavior,
}

/// Inside the grid and not a wall.
pub open spec fn walkable(tiles: Seq<TileKind>, pos: GridPos) -> bool {
    pos.x < 8 && pos.y < 8 && tile_of(tiles, pos.x as int, pos.y as int) != TileKind::Wall
}

/// Whether an enemy may step onto `pos`: inside the grid and not a wall.
pub fn is_walkable(pos: GridPos, layout: &RoomLayout) -> (r: bool)
    ensures
        r == walkable(layout@, pos),
{
    pos.x < 8 && pos.y < 8 && layout.get(pos.x, pos.y) != TileKind::Wall
}

/// |x|
pub open spec fn abs_int(x: int) -> int {
    if x < 0 {
        -x
    } else {
        x
    }
}

fn abs_i32(x: i32) -> (r: i32)
    requires
        x > i32::MIN,
    ensures
        r == abs_int(x as int),
{
    if x < 0 {
        -x
    } else {
        x
    }
}

/// One step toward the player, closing the axis with the larger distance
/// first (the vertical one on a tie); no step when already there.
pub open spec fn step_toward_spec(enemy: GridPos, player: GridPos) -> GridPos {
    let dx = player.x - enemy.x;
    let dy = player.y - enemy.y;
    if abs_int(dx) > abs_int(dy) {
        if dx > 0 {
            GridPos { x: (enemy.x + 1) as u8, y: enemy.y }
        } else {
            GridPos { x: (enemy.x - 1) as u8, y: enemy.y }
        }
    } else if abs_int(dy) > 0 {
        if dy > 0 {
            GridPos { x: enemy.x, y: (enemy.y + 1) as u8 }
        } else {
            GridPos { x: enemy.x, y: (enemy.y - 1) as u8 }
        }
    } else {
        enemy
    }
}

/// Step toward the player (Manhattan: prefer closing the axis with the larger delta).
pub fn step_toward(enemy: &GridPos, player: &GridPos) -> (r: GridPos)
    ensures
        r == step_toward_spec(*enemy, *player),
{
    let dx = player.x as i32 - enemy.x as i32;
    let dy = player.y as i32 - enemy.y as i32;
    if abs_i32(dx) > abs_i32(dy) {
        if dx > 0 {
            GridPos { x: enemy.x + 1, y: enemy.y }
        } else {
            GridPos { x: enemy.x - 1, y: enemy.y }
        }
    } else if abs_i32(dy) > 0 {
        if dy > 0 {
            GridPos { x: enemy.x, y: enemy.y + 1 }
        } else {
            GridPos { x: enemy.x, y: enemy.y - 1 }
        }
    } else {
        *enemy
    }
}

/// The tile `i` steps from `enemy` toward `player`: along the row when they
/// share one, else along the column.
pub open spec fn ray_tile(tiles: Seq<TileKind>, enemy: GridPos, player: GridPos, i: int) -> TileKind {
    if enemy.y == player.y {
        let d = if player.x > enemy.x { i } else { -i };
        tile_of(tiles, enemy.x + d, enemy.y as int)
    } else {
        let d = if player.y > enemy.y { i } else { -i };
        tile_of(tiles, enemy.x as int, enemy.y + d)
    }
}

/// The player stands in the same row or column as the enemy, one to three
/// tiles away, and no wall lies between them (the player's tile included).
pub open spec fn in_line_of_sight(tiles: Seq<TileKind>, enemy: GridPos, player: GridPos) -> bool {
    let dx = player.x - enemy.x;
    let dy = player.y - enemy.y;
    if dy == 0 && 0 < abs_int(dx) <= 3 {
        forall|i: int| 1 <= i <= abs_int(dx) ==> #[trigger] ray_tile(tiles, enemy, player, i) != TileKind::Wall
    } else if dx == 0 && 0 < abs_int(dy) <= 3 {
        forall|i: int| 1 <= i <= abs_int(dy) ==> #[trigger] ray_tile(tiles, enemy, player, i) != TileKind::Wall
    } else {
        false
    }
}

/// Orthogonal ray cast of up to 3 tiles from the enemy toward the player.
pub fn player_in_los(enemy: &GridPos, player: &GridPos, layout: &RoomLayout) -> (r: bool)
    ensures
        r == in_line_of_sight(layout@, *enemy, *player),
{
    let dx = player.x as i32 - enemy.x as i32;
    let dy = player.y as i32 - enemy.y as i32;

    // Horizontal
    if dy == 0 && abs_i32(dx) <= 3 && abs_i32(dx) > 0 {
        let step: i32 = if dx > 0 { 1 } else { -1 };
        let n = abs_i32(dx);
        let mut i: i32 = 1;
        while i <= n
            invariant
                1 <= i <= n + 1,
                n == abs_int(dx as int),
                1 <= n <= 3,
                dx == player.x - enemy.x,
                player.y == enemy.y,
                step == (if dx > 0 { 1int } else { -1int }),
                forall|k: int| 1 <= k < i ==> #[trigger] ray_tile(layout@, *enemy, *player, k) != TileKind::Wall,
            decreases n + 1 - i,
        {
            assert(step * i == (if dx > 0 { i as int } else { -i })) by (nonlinear_arith)
                requires
                    step == (if dx > 0 { 1int } else { -1int }),
            ;
            let check_x = (enemy.x as i32 + step * i) as u8;
            assert(check_x == enemy.x + (if dx > 0 { i as int } else { -i }));
            if layout.get(check_x, enemy.y) == TileKind::Wall {
                assert(ray_tile(layout@, *enemy, *player, i as int) == TileKind::Wall);
                return false;
            }
            i = i + 1;
        }
        return true;
    }
    // Vertical
    if dx == 0 && abs_i32(dy) <= 3 && abs_i32(dy) > 0 {
        let step: i32 = if dy > 0 { 1 } else { -1 };
        let n = abs_i32(dy);
        let mut i: i32 = 1;
        while i <= n
            invariant
                1 <= i <= n + 1,
                n == abs_int(dy as int),
                1 <= n <= 3,
                dy == player.y - enemy.y,
                step == (if dy > 0 { 1int } else { -1int }),
                forall|k: int| 1 <= k < i ==> #[trigger] ray_tile(layout@, *enemy, *player, k) != TileKind::Wall,
            decreases n + 1 - i,
        {
            assert(step * i == (if dy > 0 { i as int } else { -i })) by (nonlinear_arith)
                requires
                    step == (if dy > 0 { 1int } else { -1int }),
            ;
            let check_y = (enemy.y as i32 + step * i) as u8;
            assert(check_y == enemy.y + (if dy > 0 { i as int } else { -i }));
            if layout.get(enemy.x, check_y) == TileKind::Wall {
                assert(ray_tile(layout@, *enemy, *player, i as int) == TileKind::Wall);
                return false;
            }
            i = i + 1;
        }
        return true;
    }
    false
}

/// The cell a patrolling enemy tries next: one step of `direction` along
/// `axis`, the coordinate taken modulo 256.
pub open spec fn patrol_target(enemy: GridPos, axis: Axis, direction: i8) -> GridPos {
    match axis {
        Axis::Horizontal => GridPos { x: (enemy.x + direction) as u8, y: enemy.y },
        Axis::Vertical => GridPos { x: enemy.x, y: (enemy.y + direction) as u8 },
    }
}

/// Where an enemy wants to go this turn, and its behaviour afterwards:
/// - static enemies stay;
/// - patrols step along their axis, or turn back (staying put) at a wall or the edge;
/// - guards become alerted once they see the player, and alerted guards step toward the player.
pub open spec fn enemy_move_spec(
    tiles: Seq<TileKind>,
    enemy: GridPos,
    behavior: EnemyBehavior,
    player: GridPos,
) -> (GridPos, EnemyBehavior) {
    match behavior {
        EnemyBehavior::Static => (enemy, EnemyBehavior::Static),
        EnemyBehavior::Patrol { axis, direction } => {
            let candidate = patrol_target(enemy, axis, direction);
            if walkable(tiles, candidate) {
                (candidate, EnemyBehavior::Patrol { axis, direction })
            } else {
                (enemy, EnemyBehavior::Patrol { axis, direction: (-direction) as i8 })
            }
        },
        EnemyBehavior::Guard { alerted } => {
            let now_alerted = alerted || in_line_of_sight(tiles, enemy, player);
            let target = if now_alerted { step_toward_spec(enemy, player) } else { enemy };
            (target, EnemyBehavior::Guard { alerted: now_alerted })
        },
    }
}

/// A patrol that turns back needs a direction that can be negated.
pub open spec fn move_defined(tiles: Seq<TileKind>, enemy: GridPos, behavior: EnemyBehavior) -> bool {
    match behavior {
        EnemyBehavior::Patrol { axis, direction } => direction != i8::MIN || walkable(
            tiles,
            patrol_target(enemy, axis, direction),
        ),
        _ => true,
    }
}

/// Where the enemy wants to go this turn, and its behaviour afterwards.
pub fn compute_enemy_move(
    enemy_pos: &GridPos,
    behavior: EnemyBehavior,
    player_pos: &GridPos,
    layout: &RoomLayout,
) -> (r: (GridPos, EnemyBehavior))
    requires
        move_defined(layout@, *enemy_pos, behavior),
    ensures
        r == enemy_move_spec(layout@, *enemy_pos, behavior, *player_pos),
{
    match behavior {
        EnemyBehavior::Static => (*enemy_pos, EnemyBehavior::Static),
        EnemyBehavior::Patrol { axis, direction } => {
            let candidate = match axis {
                Axis::Horizontal => GridPos {
                    x: (enemy_pos.x as i32 + direction as i32) as u8,
                    y: enemy_pos.y,
                },
                Axis::Vertical => GridPos {
                    x: enemy_pos.x,
                    y: (enemy_pos.y as i32 + direction as i32) as u8,
                },
            };
            if is_walkable(candidate, layout) {
                (candidate, EnemyBehavior::Patrol { axis, direction })
            } else {
                // Bounce: turn around and stay put this turn
                (*enemy_pos, EnemyBehavior::Patrol { axis, direction: -direction })
            }
        },
        EnemyBehavior::Guard { alerted } => {
            let new_alerted = alerted || player_in_los(enemy_pos, player_pos, layout);
            let target = if new_alerted {
                step_toward(enemy_pos, player_pos)
            } else {
                *enemy_pos
            };
            (target, EnemyBehavior::Guard { alerted: new_alerted })
        },
    }
}

/// What an enemy does on its turn.
#[derive(Clone, Copy, Debug, PartialEq, Eq, Structural)]
pub enum EnemyAction {
    /// Its target is the player's cell: it attacks the player there.
    Attack { target: GridPos },
    /// It moves to a walkable target cell.
    MoveTo { target: GridPos },
    /// Its target is a wall or off the grid: it stays.
    Stay,
}

/// An enemy's turn: its action and its behaviour from now on.
#[derive(Clone, Copy, Debug, PartialEq, Eq, Structural)]
pub struct EnemyTurn {
    pub action: EnemyAction,
    pub behavior: EnemyBehavior,
}

/// The action that follows from an enemy's target cell.
pub open spec fn enemy_action_spec(tiles: Seq<TileKind>, target: GridPos, player: GridPos) -> EnemyAction {
    if target == player {
        EnemyAction::Attack { target }
    } else if walkable(tiles, target) {
        EnemyAction::MoveTo { target }
    } else {
        EnemyAction::Stay
    }
}

/// One enemy's turn: it picks its target, then attacks the player standing
/// there, moves there when the cell is walkable, or stays.
pub fn advance_enemy(
    enemy_pos: &GridPos,
    behavior: EnemyBehavior,
    player_pos: &GridPos,
    layout: &RoomLayout,
) -> (turn: EnemyTurn)
    requires
        move_defined(layout@, *enemy_pos, behavior),
    ensures
        ({
            let (target, next) = enemy_move_spec(layout@, *enemy_pos, behavior, *player_pos);
            turn == EnemyTurn { action: enemy_action_spec(layout@, target, *player_pos), behavior: next }
        }),
{
    let (target, new_behavior) = compute_enemy_move(enemy_pos, behavior, player_pos, layout);
    let action = if target == *player_pos {
        EnemyAction::Attack { target }
    } else if is_walkable(target, layout) {
        EnemyAction::MoveTo { target }
    } else {
        EnemyAction::Stay
    };
    EnemyTurn { action, behavior: new_behavior }
}

/// Every enemy of the list can take its turn.
pub open spec fn all_moves_defined(tiles: Seq<TileKind>, enemies: Seq<(GridPos, EnemyBehavior)>) -> bool {
    forall|i: int| 0 <= i < enemies.len() ==> move_defined(tiles, #[trigger] enemies[i].0, enemies[i].1)
}

/// The turn of one enemy, in the model.
pub open spec fn enemy_turn_spec(tiles: Seq<TileKind>, enemy: GridPos, behavior: EnemyBehavior, player: GridPos) -> EnemyTurn {
    let (target, next) = enemy_move_spec(tiles, enemy, behavior, player);
    EnemyTurn { action: enemy_action_spec(tiles, target, player), behavior: next }
}

/// The enemies' turn, when one is pending: it is used up, and every enemy of
/// the list takes its turn, in order, against the player's position (no
/// enemy acts when there is no player).
pub fn advance_enemies(
    turn_pending: &mut bool,
    enemies: &[(GridPos, EnemyBehavior)],
    player_pos: Option<GridPos>,
    layout: &RoomLayout,
) -> (turns: Vec<EnemyTurn>)
    requires
        (*old(turn_pending) && player_pos is Some) ==> all_moves_defined(layout@, enemies@),
    ensures
        !*final(turn_pending),
        (!*old(turn_pending) || player_pos is None) ==> turns@.len() == 0,
        (*old(turn_pending) && player_pos is Some) ==> turns@.len() == enemies@.len() && forall|i: int|
            0 <= i < enemies@.len() ==> #[trigger] turns@[i] == enemy_turn_spec(
                layout@,
                enemies@[i].0,
                enemies@[i].1,
                player_pos.unwrap(),
            ),
{
    let mut turns: Vec<EnemyTurn> = Vec::new();
    if !*turn_pending {
        return turns;
    }
    *turn_pending = false;
    let player = match player_pos {
        Some(p) => p,
        None => return turns,
    };
    let mut i: usize = 0;
    while i < enemies.len()
        invariant
            i <= enemies@.len(),
            all_moves_defined(layout@, enemies@),
            player_pos == Some(player),
            turns@.len() == i,
            forall|j: int| 0 <= j < i ==> #[trigger] turns@[j] == enemy_turn_spec(layout@, enemies@[j].0, enemies@[j].1, player),
        decreases enemies@.len() - i,
    {
        let (pos, behavior) = enemies[i];
        assert(move_defined(layout@, enemies@[i as int].0, enemies@[i as int].1));
        turns.push(advance_enemy(&pos, behavior, &player, layout));
        i = i + 1;
    }
    turns
}

} // verus!
