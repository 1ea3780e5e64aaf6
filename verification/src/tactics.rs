//! The player's moves on the grid.
use vstd::prelude::*;
use crate::room::{GridPos, RoomLayout, TileKind, tile_of};
use crate::state::GameState;

verus! {

/// The player may enter any tile that is not a wall (off the grid counts as floor).
pub fn can_move_to(pos: GridPos, layout: &RoomLayout) -> (r: bool)
    ensures
        r == (tile_of(layout@, pos.x as int, pos.y as int) != TileKind::Wall),
{
    layout.get(pos.x, pos.y) != TileKind::Wall
}

/// The cell one move of (dx, dy) away from `pos`, when it lies on the grid.
pub open spec fn move_target(pos: GridPos, dx: int, dy: int) -> Option<GridPos> {
    let nx = pos.x + dx;
    let ny = pos.y + dy;
    if 0 <= nx < 8 && 0 <= ny < 8 {
        Some(GridPos { x: nx as u8, y: ny as u8 })
    } else {
        None
    }
}

/// Index of the first occurrence of `p` in `s` (the length of `s` when there is none).
pub open spec fn first_match(s: Seq<GridPos>, p: GridPos) -> int
    decreases s.len(),
{
    if s.len() == 0 {
        0
    } else if s[0] == p {
        0
    } else {
        1 + first_match(s.drop_first(), p)
    }
}

/// What one move request does.
#[derive(Clone, Copy, Debug, PartialEq, Eq, Structural)]
pub enum MoveOutcome {
    /// Off the grid or into a wall: nothing happens and no step is spent.
    Blocked,
    /// An enemy stands on the target: the player attacks the first such
    /// enemy of the list; no step is spent.
    Attack { enemy: usize, target: GridPos },
    /// The player moves and spends a step.
    Moved {
        pos: GridPos,
        steps: i32,
        floor: u8,
        next_state: Option<GameState>,
    },
}

/// The outcome of a move request: blocked off the grid and at walls; an
/// attack on an enemy standing on the target; otherwise a move that costs a
/// step. Running out of steps is death, on the exit too; otherwise the exit
/// leads to the rest screen and the next floor.
pub open spec fn move_spec(
    pos: GridPos,
    dx: int,
    dy: int,
    tiles: Seq<TileKind>,
    enemies: Seq<GridPos>,
    steps: int,
    floor: int,
) -> MoveOutcome {
    match move_target(pos, dx, dy) {
        None => MoveOutcome::Blocked,
        Some(t) => {
            let tile = tile_of(tiles, t.x as int, t.y as int);
            if tile == TileKind::Wall {
                MoveOutcome::Blocked
            } else if enemies.contains(t) {
                MoveOutcome::Attack { enemy: first_match(enemies, t) as usize, target: t }
            } else {
                let left = steps - 1;
                let descends = tile == TileKind::Exit && left > 0;
                MoveOutcome::Moved {
                    pos: t,
                    steps: left as i32,
                    floor: (if descends { floor + 1 } else { floor }) as u8,
                    next_state: if left <= 0 {
                        Some(GameState::Dead)
                    } else if descends {
                        Some(GameState::Rest)
                    } else {
                        None
                    },
                }
            }
        },
    }
}

/// A move leaves the step counter and the floor number within their types.
pub open spec fn move_defined(
    pos: GridPos,
    dx: int,
    dy: int,
    tiles: Seq<TileKind>,
    enemies: Seq<GridPos>,
    steps: int,
    floor: int,
) -> bool {
    &&& i32::MIN <= pos.x + dx <= i32::MAX
    &&& i32::MIN <= pos.y + dy <= i32::MAX
    &&& move_spec(pos, dx, dy, tiles, enemies, steps, floor) is Moved ==> {
        &&& steps > i32::MIN
        &&& (tile_of(tiles, pos.x + dx, pos.y + dy) == TileKind::Exit && steps - 1 > 0) ==> floor < 255
    }
}

proof fn lemma_first_match_skip(s: Seq<GridPos>, p: GridPos, i: int)
    requires
        0 <= i < s.len(),
        s[i] != p,
    ensures
        first_match(s.skip(i), p) == 1 + first_match(s.skip(i + 1), p),
{
    assert(s.skip(i).drop_first() =~= s.skip(i + 1));
}

/// Find the first enemy standing on `target`.
fn find_enemy(enemies: &[GridPos], target: GridPos) -> (r: Option<usize>)
    ensures
        r is Some <==> enemies@.contains(target),
        r matches Some(i) ==> i == first_match(enemies@, target),
{
    let mut i: usize = 0;
    assert(enemies@.skip(0) =~= enemies@);
    while i < enemies.len()
        invariant
            i <= enemies@.len(),
            forall|j: int| 0 <= j < i ==> enemies@[j] != target,
            first_match(enemies@, target) == i + first_match(enemies@.skip(i as int), target),
        decreases enemies@.len() - i,
    {
        if enemies[i] == target {
            assert(enemies@[i as int] == target);
            return Some(i);
        }
        proof {
            lemma_first_match_skip(enemies@, target, i as int);
        }
        i = i + 1;
    }
    None
}

/// One move request of the player: the move itself, the attack on an enemy
/// in the way, the step it costs, and death or the next floor that follows.
pub fn resolve_move(
    pos: GridPos,
    dx: i32,
    dy: i32,
    layout: &RoomLayout,
    enemies: &[GridPos],
    steps: i32,
    floor: u8,
) -> (r: MoveOutcome)
    requires
        move_defined(pos, dx as int, dy as int, layout@, enemies@, steps as int, floor as int),
    ensures
        r == move_spec(pos, dx as int, dy as int, layout@, enemies@, steps as int, floor as int),
{
    let new_x = (pos.x as i32) + dx;
    let new_y = (pos.y as i32) + dy;

    // Bounds check 0..8
    if new_x < 0 || new_x >= 8 || new_y < 0 || new_y >= 8 {
        return MoveOutcome::Blocked;
    }
    let new_pos = GridPos { x: new_x as u8, y: new_y as u8 };

    // Wall check: no step spent
    if !can_move_to(new_pos, layout) {
        return MoveOutcome::Blocked;
    }

    // Enemy check: combat spends no step
    if let Some(enemy) = find_enemy(enemies, new_pos) {
        return MoveOutcome::Attack { enemy, target: new_pos };
    }

    let left = steps - 1;
    // Death when the steps run out, on the exit too
    if left <= 0 {
        return MoveOutcome::Moved { pos: new_pos, steps: left, floor, next_state: Some(GameState::Dead) };
    }
    // Exit detection
    if layout.get(new_pos.x, new_pos.y) == TileKind::Exit {
        return MoveOutcome::Moved { pos: new_pos, steps: left, floor: floor + 1, next_state: Some(GameState::Rest) };
    }
    MoveOutcome::Moved { pos: new_pos, steps: left, floor, next_state: None }
}

/// Whether a move request stays within the counters' types (see `move_defined`).
pub fn move_is_defined(
    pos: GridPos,
    dx: i32,
    dy: i32,
    layout: &RoomLayout,
    enemies: &[GridPos],
    steps: i32,
    floor: u8,
) -> (r: bool)
    ensures
        r == move_defined(pos, dx as int, dy as int, layout@, enemies@, steps as int, floor as int),
{
    let new_x = match (pos.x as i32).checked_add(dx) {
        Some(v) => v,
        None => return false,
    };
    let new_y = match (pos.y as i32).checked_add(dy) {
        Some(v) => v,
        None => return false,
    };
    if new_x < 0 || new_x >= 8 || new_y < 0 || new_y >= 8 {
        return true;
    }
    let new_pos = GridPos { x: new_x as u8, y: new_y as u8 };
    if !can_move_to(new_pos, layout) {
        return true;
    }
    if find_enemy(enemies, new_pos).is_some() {
        return true;
    }
    if steps == i32::MIN {
        return false;
    }
    !(layout.get(new_pos.x, new_pos.y) == TileKind::Exit && steps - 1 > 0 && floor == 255)
}

/// The player's position and counters while moves are applied.
#[derive(Clone, Copy, Debug, PartialEq, Eq, Structural)]
pub struct PlayerMoveState {
    pub pos: GridPos,
    pub steps: i32,
    pub floor: u8,
}

/// The result of a frame's move requests: where the player ends up, the
/// attacks requested (enemy index and cell), and the state to switch to.
pub struct MovementReport {
    pub player: PlayerMoveState,
    pub attacks: Vec<(usize, GridPos)>,
    pub next_state: Option<GameState>,
}

/// The frame's move requests applied in order: each move starts where the
/// last one ended; a later state request replaces an earlier one.
pub open spec fn movement_fold(
    start: PlayerMoveState,
    intents: Seq<(i32, i32)>,
    tiles: Seq<TileKind>,
    enemies: Seq<GridPos>,
) -> (PlayerMoveState, Seq<(usize, GridPos)>, Option<GameState>)
    decreases intents.len(),
{
    if intents.len() == 0 {
        (start, Seq::empty(), None)
    } else {
        let prev = movement_fold(start, intents.drop_last(), tiles, enemies);
        let s = prev.0;
        let d = intents.last();
        match move_spec(s.pos, d.0 as int, d.1 as int, tiles, enemies, s.steps as int, s.floor as int) {
            MoveOutcome::Blocked => prev,
            MoveOutcome::Attack { enemy, target } => (s, prev.1.push((enemy, target)), prev.2),
            MoveOutcome::Moved { pos, steps, floor, next_state } => (
                PlayerMoveState { pos, steps, floor },
                prev.1,
                if next_state is Some { next_state } else { prev.2 },
            ),
        }
    }
}

/// Every move of the frame keeps the counters within their types.
pub open spec fn movement_defined(
    start: PlayerMoveState,
    intents: Seq<(i32, i32)>,
    tiles: Seq<TileKind>,
    enemies: Seq<GridPos>,
) -> bool
    decreases intents.len(),
{
    if intents.len() == 0 {
        true
    } else {
        let s = movement_fold(start, intents.drop_last(), tiles, enemies).0;
        let d = intents.last();
        &&& movement_defined(start, intents.drop_last(), tiles, enemies)
        &&& move_defined(s.pos, d.0 as int, d.1 as int, tiles, enemies, s.steps as int, s.floor as int)
    }
}

proof fn lemma_movement_defined_prefix(
    start: PlayerMoveState,
    intents: Seq<(i32, i32)>,
    tiles: Seq<TileKind>,
    enemies: Seq<GridPos>,
    k: int,
)
    requires
        0 <= k <= intents.len(),
        movement_defined(start, intents, tiles, enemies),
    ensures
        movement_defined(start, intents.take(k), tiles, enemies),
    decreases intents.len(),
{
    if k < intents.len() {
        lemma_movement_defined_prefix(start, intents.drop_last(), tiles, enemies, k);
        assert(intents.drop_last().take(k) =~= intents.take(k));
    } else {
        assert(intents.take(k) =~= intents);
    }
}

/// Whether a frame's move requests stay within the counters' types.
pub fn movement_is_defined(
    state: GameState,
    start: PlayerMoveState,
    intents: &[(i32, i32)],
    layout: &RoomLayout,
    enemies: &[GridPos],
) -> (r: bool)
    ensures
        r == (state == GameState::Room ==> movement_defined(start, intents@, layout@, enemies@)),
{
    if state != GameState::Room {
        return true;
    }
    let mut cur = start;
    let mut i: usize = 0;
    while i < intents.len()
        invariant
            i <= intents@.len(),
            state == GameState::Room,
            movement_defined(start, intents@.take(i as int), layout@, enemies@),
            cur == movement_fold(start, intents@.take(i as int), layout@, enemies@).0,
        decreases intents@.len() - i,
    {
        let (dx, dy) = intents[i];
        proof {
            assert(intents@.take(i + 1).drop_last() =~= intents@.take(i as int));
            assert(intents@.take(i + 1).last() == (dx, dy));
        }
        if !move_is_defined(cur.pos, dx, dy, layout, enemies, cur.steps, cur.floor) {
            proof {
                let pre = intents@.take(i + 1);
                assert(pre.drop_last() =~= intents@.take(i as int));
                assert(!movement_defined(start, pre, layout@, enemies@));
                lemma_movement_defined_prefix_neg(start, intents@, layout@, enemies@, i + 1);
            }
            return false;
        }
        match resolve_move(cur.pos, dx, dy, layout, enemies, cur.steps, cur.floor) {
            MoveOutcome::Moved { pos, steps, floor, .. } => {
                cur = PlayerMoveState { pos, steps, floor };
            },
            _ => {},
        }
        i = i + 1;
    }
    assert(intents@.take(intents@.len() as int) =~= intents@);
    true
}

proof fn lemma_movement_defined_prefix_neg(
    start: PlayerMoveState,
    intents: Seq<(i32, i32)>,
    tiles: Seq<TileKind>,
    enemies: Seq<GridPos>,
    k: int,
)
    requires
        0 <= k <= intents.len(),
        !movement_defined(start, intents.take(k), tiles, enemies),
    ensures
        !movement_defined(start, intents, tiles, enemies),
{
    if movement_defined(start, intents, tiles, enemies) {
        lemma_movement_defined_prefix(start, intents, tiles, enemies, k);
    }
}

/// Apply the frame's move requests, in the Room state only.
pub fn apply_movement(
    state: GameState,
    start: PlayerMoveState,
    intents: &[(i32, i32)],
    layout: &RoomLayout,
    enemies: &[GridPos],
) -> (report: MovementReport)
    requires
        state == GameState::Room ==> movement_defined(start, intents@, layout@, enemies@),
    ensures
        state != GameState::Room ==> report.player == start && report.attacks@.len() == 0 && report.next_state is None,
        state == GameState::Room ==> (report.player, report.attacks@, report.next_state) == movement_fold(
            start,
            intents@,
            layout@,
            enemies@,
        ),
{
    let mut cur = start;
    let mut attacks: Vec<(usize, GridPos)> = Vec::new();
    let mut next_state: Option<GameState> = None;
    if state != GameState::Room {
        return MovementReport { player: cur, attacks, next_state };
    }
    let mut i: usize = 0;
    assert(intents@.take(0) =~= Seq::<(i32, i32)>::empty());
    while i < intents.len()
        invariant
            i <= intents@.len(),
            movement_defined(start, intents@, layout@, enemies@),
            (cur, attacks@, next_state) == movement_fold(start, intents@.take(i as int), layout@, enemies@),
        decreases intents@.len() - i,
    {
        let (dx, dy) = intents[i];
        proof {
            lemma_movement_defined_prefix(start, intents@, layout@, enemies@, i + 1);
            assert(intents@.take(i + 1).drop_last() =~= intents@.take(i as int));
            assert(intents@.take(i + 1).last() == (dx, dy));
        }
        match resolve_move(cur.pos, dx, dy, layout, enemies, cur.steps, cur.floor) {
            MoveOutcome::Blocked => {},
            MoveOutcome::Attack { enemy, target } => {
                attacks.push((enemy, target));
            },
            MoveOutcome::Moved { pos, steps, floor, next_state: requested } => {
                cur = PlayerMoveState { pos, steps, floor };
                if requested.is_some() {
                    next_state = requested;
                }
            },
        }
        i = i + 1;
    }
    assert(intents@.take(intents@.len() as int) =~= intents@);
    MovementReport { player: cur, attacks, next_state }
}

} // verus!
