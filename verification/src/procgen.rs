//! Procedural room generation: seed mixing, the seeded shuffle, exit and
//! pillar placement, and enemy and item placement.
use vstd::prelude::*;
use vstd::arithmetic::div_mod::{lemma_add_mod_noop, lemma_mod_bound, lemma_small_mod};
use crate::room::{GridPos, RoomLayout, TileKind, in_grid, cell_index, walled_tiles};
use crate::reach::{reachable, is_reachable};
use crate::enemies::{Axis, EnemyBehavior, EnemyDef};
use crate::items::{ItemDef, ItemKind};
use crate::room::tile_of;

verus! {

/// 2^64, the modulus of `u64` wrapping arithmetic.
pub open spec fn two64() -> int {
    0x1_0000_0000_0000_0000
}

/// Multiplier of the linear congruential generator.
pub const LCG_MUL: u64 = 6364136223846793005;
/// Increment of the linear congruential generator.
pub const LCG_INC: u64 = 1442695040888963407;

/// The sub-seed of a (run, floor, salt) triple:
/// `run_seed * LCG_MUL + floor * 256 + salt` modulo 2^64.
pub open spec fn sub_seed_spec(run_seed: u64, floor: u8, salt: u64) -> u64 {
    ((run_seed as int * LCG_MUL as int + floor as int * 256 + salt as int) % two64()) as u64
}

proof fn lemma_wrapping_add_is_mod(a: u64, b: u64)
    ensures
        vstd::wrapping::u64_specs::wrapping_add(a, b) as int == (a as int + b as int) % two64(),
{
    if a + b > u64::MAX {
        lemma_small_mod((a + b - two64()) as nat, two64() as nat);
        assert((a + b) % two64() == (a + b - two64()) % two64()) by {
            vstd::arithmetic::div_mod::lemma_mod_add_multiples_vanish(a + b - two64(), two64());
        }
    } else {
        lemma_small_mod((a + b) as nat, two64() as nat);
    }
}

/// LCG sub-seed mixer. Unique per (run, floor, salt) triple, for salts below
/// 256: the floor takes the bits above the salt's.
pub fn sub_seed(run_seed: u64, floor: u8, salt: u64) -> (r: u64)
    ensures
        r == sub_seed_spec(run_seed, floor, salt),
{
    let f = (floor as u64) * 256;
    let m = run_seed.wrapping_mul(LCG_MUL);
    let a = m.wrapping_add(f);
    let r = a.wrapping_add(salt);
    proof {
        let t = two64();
        let p = run_seed as int * LCG_MUL as int;
        lemma_wrapping_add_is_mod(m, f);
        lemma_wrapping_add_is_mod(a, salt);
        assert(m as int == p % t);
        lemma_small_mod(f as nat, t as nat);
        lemma_add_mod_noop(p, f as int, t);
        assert(a as int == (p + f) % t);
        lemma_small_mod(salt as nat, t as nat);
        lemma_add_mod_noop(p + f, salt as int, t);
    }
    r
}

/// One step of the shuffle's generator: `state * LCG_MUL + LCG_INC` modulo 2^64.
pub open spec fn lcg_step(state: u64) -> u64 {
    ((state as int * LCG_MUL as int + LCG_INC as int) % two64()) as u64
}

/// `s` with the entries at `i` and `j` exchanged.
pub open spec fn swap_spec(s: Seq<GridPos>, i: int, j: int) -> Seq<GridPos> {
    s.update(i, s[j]).update(j, s[i])
}

/// The swaps of the Fisher–Yates shuffle for positions `i`, `i - 1`, …, 1,
/// drawing each partner index from the generator that starts at `state`.
pub open spec fn shuffle_rounds(s: Seq<GridPos>, state: u64, i: nat) -> Seq<GridPos>
    decreases i,
{
    if i == 0 {
        s
    } else {
        let st = lcg_step(state);
        let j = (st >> 33u64) as int % (i + 1) as int;
        shuffle_rounds(swap_spec(s, i as int, j), st, (i - 1) as nat)
    }
}

/// The seeded Fisher–Yates shuffle of `s`.
pub open spec fn shuffle_spec(s: Seq<GridPos>, seed: u64) -> Seq<GridPos> {
    if s.len() == 0 {
        s
    } else {
        shuffle_rounds(s, seed, (s.len() - 1) as nat)
    }
}

/// Fisher-Yates shuffle using `seed` as the state of the generator.
pub fn shuffle_candidates(candidates: Vec<GridPos>, seed: u64) -> (r: Vec<GridPos>)
    ensures
        r@ == shuffle_spec(candidates@, seed),
{
    let mut v = candidates;
    let mut state = seed;
    let n = v.len();
    if n == 0 {
        return v;
    }
    let mut i = n;
    while i > 1
        invariant
            1 <= i <= n,
            v.len() == n,
            shuffle_spec(candidates@, seed) == shuffle_rounds(v@, state, (i - 1) as nat),
        decreases i,
    {
        i = i - 1;
        let ghost s0 = v@;
        let ghost st0 = state;
        state = state.wrapping_mul(LCG_MUL).wrapping_add(LCG_INC);
        proof {
            let t = two64();
            let m = st0.wrapping_mul(LCG_MUL);
            lemma_wrapping_add_is_mod(m, LCG_INC);
            lemma_small_mod(LCG_INC as nat, t as nat);
            lemma_add_mod_noop(st0 as int * LCG_MUL as int, LCG_INC as int, t);
            assert(state == lcg_step(st0));
        }
        let hi = state >> 33u64;
        assert(hi <= 0x7fff_ffff) by (bit_vector)
            requires
                hi == state >> 33u64,
        ;
        let j = (hi as usize) % (i + 1);
        let a = v[i];
        let b = v[j];
        v.set(i, b);
        v.set(j, a);
        proof {
            assert(v@ == swap_spec(s0, i as int, j as int));
        }
    }
    v
}

proof fn lemma_shuffle_rounds_len(s: Seq<GridPos>, state: u64, i: nat)
    requires
        i < s.len(),
    ensures
        shuffle_rounds(s, state, i).len() == s.len(),
    decreases i,
{
    if i > 0 {
        let st = lcg_step(state);
        let j = (st >> 33u64) as int % (i + 1) as int;
        lemma_shuffle_rounds_len(swap_spec(s, i as int, j), st, (i - 1) as nat);
    }
}

/// The shuffle keeps the length of its input.
pub proof fn lemma_shuffle_len(s: Seq<GridPos>, seed: u64)
    ensures
        shuffle_spec(s, seed).len() == s.len(),
{
    if s.len() > 0 {
        lemma_shuffle_rounds_len(s, seed, (s.len() - 1) as nat);
    }
}

/// Where the player enters every room.
pub open spec fn player_spawn() -> GridPos {
    GridPos { x: 1, y: 1 }
}

/// `tiles` with the tile at `p` replaced; positions outside the grid are left alone.
pub open spec fn with_tile(tiles: Seq<TileKind>, p: GridPos, kind: TileKind) -> Seq<TileKind> {
    if in_grid(p) {
        tiles.update(cell_index(p.x as int, p.y as int), kind)
    } else {
        tiles
    }
}

/// The exit candidates: the inner ring of the walkable area (x or y in {1, 6}),
/// without the player spawn (1, 1).
pub open spec fn exit_candidates() -> Seq<GridPos> {
    seq![
        GridPos { x: 1, y: 2 }, GridPos { x: 1, y: 3 }, GridPos { x: 1, y: 4 }, GridPos { x: 1, y: 5 }, GridPos { x: 1, y: 6 },
        GridPos { x: 6, y: 2 }, GridPos { x: 6, y: 3 }, GridPos { x: 6, y: 4 }, GridPos { x: 6, y: 5 }, GridPos { x: 6, y: 6 },
        GridPos { x: 2, y: 1 }, GridPos { x: 3, y: 1 }, GridPos { x: 4, y: 1 }, GridPos { x: 5, y: 1 },
        GridPos { x: 2, y: 6 }, GridPos { x: 3, y: 6 }, GridPos { x: 4, y: 6 }, GridPos { x: 5, y: 6 },
    ]
}

/// The exit of a generated floor: the candidate picked by the floor's first sub-seed.
pub open spec fn exit_spec(floor: u8, run_seed: u64) -> GridPos {
    exit_candidates()[(sub_seed_spec(run_seed, floor, 0) as usize) as int % 18]
}

/// Pick exit position from interior-border candidates (18 total, excluding player spawn (1,1)).
/// Interior-border = tiles on the inner edge of the walkable area (x or y in {1,6}).
pub fn place_exit(floor: u8, run_seed: u64) -> (exit: GridPos)
    ensures
        exit == exit_spec(floor, run_seed),
{
    let candidates = [
        GridPos { x: 1, y: 2 }, GridPos { x: 1, y: 3 }, GridPos { x: 1, y: 4 }, GridPos { x: 1, y: 5 }, GridPos { x: 1, y: 6 },
        GridPos { x: 6, y: 2 }, GridPos { x: 6, y: 3 }, GridPos { x: 6, y: 4 }, GridPos { x: 6, y: 5 }, GridPos { x: 6, y: 6 },
        GridPos { x: 2, y: 1 }, GridPos { x: 3, y: 1 }, GridPos { x: 4, y: 1 }, GridPos { x: 5, y: 1 },
        GridPos { x: 2, y: 6 }, GridPos { x: 3, y: 6 }, GridPos { x: 4, y: 6 }, GridPos { x: 5, y: 6 },
    ];
    assert(candidates@ =~= exit_candidates());
    let seed = sub_seed(run_seed, floor, 0);
    let idx = (seed as usize) % 18;
    candidates[idx]
}

/// The cells where pillars may stand: the 3×3 block from (2,2) to (4,4).
pub open spec fn pillar_candidates() -> Seq<GridPos> {
    seq![
        GridPos { x: 2, y: 2 }, GridPos { x: 3, y: 2 }, GridPos { x: 4, y: 2 },
        GridPos { x: 2, y: 3 }, GridPos { x: 3, y: 3 }, GridPos { x: 4, y: 3 },
        GridPos { x: 2, y: 4 }, GridPos { x: 3, y: 4 }, GridPos { x: 4, y: 4 },
    ]
}

/// How many pillars a floor tries to place (0 to 3).
pub open spec fn pillar_count(floor: u8, run_seed: u64) -> int {
    (sub_seed_spec(run_seed, floor, 1) % 4) as int
}

/// The order in which a floor tries the pillar cells.
pub open spec fn pillar_order(floor: u8, run_seed: u64) -> Seq<GridPos> {
    shuffle_spec(pillar_candidates(), sub_seed_spec(run_seed, floor, 2))
}

/// One pillar attempt at `c`: keep the wall when the exit stays reachable
/// from the spawn, otherwise put floor back.
pub open spec fn pillar_step(prev: (Seq<TileKind>, Seq<GridPos>), c: GridPos, exit: GridPos) -> (Seq<TileKind>, Seq<GridPos>) {
    let walled = with_tile(prev.0, c, TileKind::Wall);
    if reachable(walled, player_spawn(), exit) {
        (walled, prev.1.push(c))
    } else {
        (with_tile(prev.0, c, TileKind::Floor), prev.1)
    }
}

/// Try each of `cands` in turn: make it a wall, and keep the wall only when
/// the exit stays reachable from the spawn; otherwise put floor back.
/// Gives the tiles and the cells that became walls.
pub open spec fn pillar_pass(tiles: Seq<TileKind>, cands: Seq<GridPos>, exit: GridPos) -> (Seq<TileKind>, Seq<GridPos>)
    decreases cands.len(),
{
    if cands.len() == 0 {
        (tiles, Seq::empty())
    } else {
        pillar_step(pillar_pass(tiles, cands.drop_last(), exit), cands.last(), exit)
    }
}

/// One pillar attempt at `candidate` on the layout.
fn try_pillar(layout: &mut RoomLayout, placed: &mut Vec<GridPos>, candidate: GridPos, exit_pos: GridPos)
    ensures
        (final(layout)@, final(placed)@) == pillar_step((old(layout)@, old(placed)@), candidate, exit_pos),
{
    let ghost before = layout@;
    proof {
        RoomLayout::lemma_view_len(*layout);
    }
    layout.set(candidate.x, candidate.y, TileKind::Wall);
    assert(layout@ == with_tile(before, candidate, TileKind::Wall));
    if is_reachable(GridPos { x: 1, y: 1 }, exit_pos, layout) {
        placed.push(candidate);
    } else {
        let ghost mid = layout@;
        layout.set(candidate.x, candidate.y, TileKind::Floor);
        assert(layout@ == with_tile(mid, candidate, TileKind::Floor));
        proof {
            if in_grid(candidate) {
                let i = cell_index(candidate.x as int, candidate.y as int);
                assert(layout@ =~= before.update(i, TileKind::Floor));
            }
        }
    }
}

/// Place 0–3 wall (pillar) tiles inside the 3x3 center grid (2,2)–(4,4).
/// Validates BFS connectivity from spawn (1,1) to exit after each placement.
pub fn place_pillars(floor: u8, run_seed: u64, layout: &mut RoomLayout, exit_pos: GridPos) -> (placed: Vec<GridPos>)
    ensures
        (final(layout)@, placed@) == pillar_pass(
            old(layout)@,
            pillar_order(floor, run_seed).take(pillar_count(floor, run_seed)),
            exit_pos,
        ),
{
    let cells = vec![
        GridPos { x: 2, y: 2 }, GridPos { x: 3, y: 2 }, GridPos { x: 4, y: 2 },
        GridPos { x: 2, y: 3 }, GridPos { x: 3, y: 3 }, GridPos { x: 4, y: 3 },
        GridPos { x: 2, y: 4 }, GridPos { x: 3, y: 4 }, GridPos { x: 4, y: 4 },
    ];
    assert(cells@ =~= pillar_candidates());
    let count = (sub_seed(run_seed, floor, 1) % 4) as usize;
    let shuffled = shuffle_candidates(cells, sub_seed(run_seed, floor, 2));
    proof {
        lemma_shuffle_len(pillar_candidates(), sub_seed_spec(run_seed, floor, 2));
    }
    let ghost order = pillar_order(floor, run_seed);
    let ghost start = layout@;
    let mut placed: Vec<GridPos> = Vec::new();
    let mut k: usize = 0;
    while k < count
        invariant
            count == pillar_count(floor, run_seed),
            count <= 3,
            shuffled@ == order,
            order.len() == 9,
            k <= count,
            (layout@, placed@) == pillar_pass(start, order.take(k as int), exit_pos),
        decreases count - k,
    {
        let candidate = shuffled[k];
        proof {
            assert(order.take(k + 1).drop_last() =~= order.take(k as int));
            assert(order.take(k + 1).last() == candidate);
        }
        try_pillar(layout, &mut placed, candidate, exit_pos);
        k = k + 1;
    }
    proof {
        assert(order.take(count as int) == order.take(k as int));
    }
    placed
}

/// The room of a floor and its exit. Floor 10 is an open arena with no exit
/// and no pillars, reported with the exit position (0, 0).
pub open spec fn room_spec(floor: u8, run_seed: u64) -> (Seq<TileKind>, GridPos) {
    if floor == 10 {
        (walled_tiles(), GridPos { x: 0, y: 0 })
    } else {
        let exit = exit_spec(floor, run_seed);
        let base = with_tile(walled_tiles(), exit, TileKind::Exit);
        (pillar_pass(base, pillar_order(floor, run_seed).take(pillar_count(floor, run_seed)), exit).0, exit)
    }
}

/// Main entry point: builds a full room layout procedurally.
/// Floor 10 returns an open arena with no exit and no pillars.
pub fn build_room_proc(floor: u8, run_seed: u64) -> (res: (RoomLayout, GridPos))
    ensures
        (res.0@, res.1) == room_spec(floor, run_seed),
{
    let mut layout = RoomLayout::walled();
    if floor == 10 {
        return (layout, GridPos { x: 0, y: 0 });
    }
    let exit_pos = place_exit(floor, run_seed);
    layout.set(exit_pos.x, exit_pos.y, TileKind::Exit);
    let _pillars = place_pillars(floor, run_seed, &mut layout, exit_pos);
    (layout, exit_pos)
}

/// The 36 inner cells, row by row: (1,1), (2,1), …, (6,1), (1,2), …, (6,6).
pub open spec fn interior_cells() -> Seq<GridPos> {
    Seq::new(36, |i: int| GridPos { x: (1 + i % 6) as u8, y: (1 + i / 6) as u8 })
}

/// A cell where something may spawn: a floor tile that is neither the
/// spawn, nor the exit, nor one of `taken`.
pub open spec fn free_cell(tiles: Seq<TileKind>, exit: GridPos, taken: Seq<GridPos>, p: GridPos) -> bool {
    &&& tile_of(tiles, p.x as int, p.y as int) == TileKind::Floor
    &&& p != player_spawn()
    &&& p != exit
    &&& !taken.contains(p)
}

/// The free cells among `cells`, in their order.
pub open spec fn free_cells(cells: Seq<GridPos>, tiles: Seq<TileKind>, exit: GridPos, taken: Seq<GridPos>) -> Seq<GridPos>
    decreases cells.len(),
{
    if cells.len() == 0 {
        Seq::empty()
    } else {
        let prev = free_cells(cells.drop_last(), tiles, exit, taken);
        if free_cell(tiles, exit, taken, cells.last()) {
            prev.push(cells.last())
        } else {
            prev
        }
    }
}

/// Whether `p` is one of `v`.
pub fn contains_pos(v: &[GridPos], p: GridPos) -> (r: bool)
    ensures
        r == v@.contains(p),
{
    let mut i: usize = 0;
    while i < v.len()
        invariant
            i <= v@.len(),
            forall|j: int| 0 <= j < i ==> v@[j] != p,
        decreases v@.len() - i,
    {
        if v[i] == p {
            assert(v@[i as int] == p);
            return true;
        }
        i = i + 1;
    }
    false
}

/// The free inner cells of a room, row by row.
pub fn free_interior_cells(layout: &RoomLayout, exit_pos: GridPos, taken: &[GridPos]) -> (r: Vec<GridPos>)
    ensures
        r@ == free_cells(interior_cells(), layout@, exit_pos, taken@),
{
    let spawn = GridPos { x: 1, y: 1 };
    let mut out: Vec<GridPos> = Vec::new();
    let mut k: u8 = 0;
    while k < 36
        invariant
            k <= 36,
            spawn == player_spawn(),
            out@ == free_cells(interior_cells().take(k as int), layout@, exit_pos, taken@),
        decreases 36 - k,
    {
        let p = GridPos { x: 1 + k % 6, y: 1 + k / 6 };
        proof {
            assert(interior_cells().take(k + 1).drop_last() =~= interior_cells().take(k as int));
            assert(interior_cells().take(k + 1).last() == p);
        }
        let ghost prev = out@;
        if layout.get(p.x, p.y) == TileKind::Floor && p != spawn && p != exit_pos && !contains_pos(taken, p) {
            out.push(p);
        }
        assert(out@ == (if free_cell(layout@, exit_pos, taken@, p) { prev.push(p) } else { prev }));
        k = k + 1;
    }
    assert(interior_cells().take(36) =~= interior_cells());
    out
}

/// How many enemies a floor spawns (2 to 4, fewer when the room lacks space).
pub open spec fn enemy_count(floor: u8, run_seed: u64) -> int {
    2 + (sub_seed_spec(run_seed, floor, 10) % 3) as int
}

/// The free cells of a room in the order in which enemies take them.
pub open spec fn enemy_order(tiles: Seq<TileKind>, exit: GridPos, floor: u8, run_seed: u64) -> Seq<GridPos> {
    shuffle_spec(free_cells(interior_cells(), tiles, exit, Seq::empty()), sub_seed_spec(run_seed, floor, 11))
}

/// The `i`-th enemy of a floor, placed at `pos`: force `floor + 2 + 2i`, and
/// behaviours in turn guard, horizontal patrol, static.
pub open spec fn enemy_def_spec(floor: u8, i: int, pos: GridPos) -> EnemyDef {
    EnemyDef {
        pos,
        force: (floor + 2 + 2 * i) as i32,
        behavior: if i % 3 == 0 {
            EnemyBehavior::Guard { alerted: false }
        } else if i % 3 == 1 {
            EnemyBehavior::Patrol { axis: Axis::Horizontal, direction: 1 }
        } else {
            EnemyBehavior::Static
        },
    }
}

/// The smaller of two integers.
pub open spec fn min_int(a: int, b: int) -> int {
    if a < b {
        a
    } else {
        b
    }
}

/// Generate 2–4 enemy definitions procedurally.
pub fn generate_enemy_defs(floor: u8, run_seed: u64, layout: &RoomLayout, exit_pos: GridPos) -> (defs: Vec<EnemyDef>)
    ensures
        ({
            let order = enemy_order(layout@, exit_pos, floor, run_seed);
            &&& defs@.len() == min_int(enemy_count(floor, run_seed), order.len() as int)
            &&& forall|i: int| 0 <= i < defs@.len() ==> #[trigger] defs@[i] == enemy_def_spec(floor, i, order[i])
        }),
        forall|i: int, j: int| 0 <= i < defs@.len() && 0 <= j < defs@.len() && i % 3 == j % 3
            ==> #[trigger] defs@[i].behavior == #[trigger] defs@[j].behavior,
        defs@.len() > 0 ==> defs@[0].behavior == (EnemyBehavior::Guard { alerted: false }),
        defs@.len() > 1 ==> defs@[1].behavior == (EnemyBehavior::Patrol { axis: Axis::Horizontal, direction: 1 }),
        defs@.len() > 2 ==> defs@[2].behavior == EnemyBehavior::Static,
        forall|i: int| 0 < i < defs@.len() ==> #[trigger] defs@[i].force == defs@[i - 1].force + 2,
        defs@.len() > 0 ==> defs@[0].force == floor + 2,
{
    let count = 2 + (sub_seed(run_seed, floor, 10) % 3) as usize;
    let no_cells: Vec<GridPos> = Vec::new();
    let candidates = free_interior_cells(layout, exit_pos, no_cells.as_slice());
    assert(no_cells@ =~= Seq::<GridPos>::empty());
    let shuffled = shuffle_candidates(candidates, sub_seed(run_seed, floor, 11));
    let base_force = floor as i32 + 2;
    let ghost order = enemy_order(layout@, exit_pos, floor, run_seed);
    let limit = if count < shuffled.len() { count } else { shuffled.len() };
    let mut defs: Vec<EnemyDef> = Vec::new();
    let mut i: usize = 0;
    while i < limit
        invariant
            shuffled@ == order,
            limit <= 4,
            limit <= shuffled@.len(),
            limit == min_int(enemy_count(floor, run_seed), order.len() as int),
            base_force == floor + 2,
            i <= limit,
            defs@.len() == i,
            forall|j: int| 0 <= j < i ==> #[trigger] defs@[j] == enemy_def_spec(floor, j, order[j]),
        decreases limit - i,
    {
        let pos = shuffled[i];
        let force = base_force + (i as i32 * 2);
        let behavior = match i % 3 {
            0 => EnemyBehavior::Guard { alerted: false },
            1 => EnemyBehavior::Patrol { axis: Axis::Horizontal, direction: 1 },
            _ => EnemyBehavior::Static,
        };
        defs.push(EnemyDef { pos, force, behavior });
        i = i + 1;
    }
    proof {
        assert forall|i: int, j: int| 0 <= i < defs@.len() && 0 <= j < defs@.len() && i % 3 == j % 3
            implies #[trigger] defs@[i].behavior == #[trigger] defs@[j].behavior by {
            law_enemy_behaviour_cycles(floor, i, j, order[i], order[j]);
        }
        assert forall|i: int| 0 < i < defs@.len() implies #[trigger] defs@[i].force == defs@[i - 1].force + 2 by {
            assert(defs@[i - 1] == enemy_def_spec(floor, i - 1, order[i - 1]));
        }
        if defs@.len() > 2 {
            assert(defs@[2] == enemy_def_spec(floor, 2, order[2]));
        }
        if defs@.len() > 1 {
            assert(defs@[1] == enemy_def_spec(floor, 1, order[1]));
        }
        if defs@.len() > 0 {
            assert(defs@[0] == enemy_def_spec(floor, 0, order[0]));
        }
    }
    defs
}

/// The behaviour of a generated enemy depends only on its index modulo 3:
/// index 0 is an unalerted guard, 1 a horizontal patrol heading right, 2 a
/// static enemy, and enemy `i` acts as enemy `i + 3`. Forces rise by 2 from
/// one enemy to the next, from `floor + 2`, and do not depend on the cell.
pub proof fn law_enemy_behaviour_cycles(floor: u8, i: int, j: int, p: GridPos, q: GridPos)
    requires
        0 <= i,
        0 <= j,
        i % 3 == j % 3,
    ensures
        enemy_def_spec(floor, i, p).behavior == enemy_def_spec(floor, j, q).behavior,
        enemy_def_spec(floor, i, p).behavior == enemy_def_spec(floor, i + 3, q).behavior,
        enemy_def_spec(floor, 0, p).behavior == (EnemyBehavior::Guard { alerted: false }),
        enemy_def_spec(floor, 1, p).behavior == (EnemyBehavior::Patrol { axis: Axis::Horizontal, direction: 1 }),
        enemy_def_spec(floor, 2, p).behavior == EnemyBehavior::Static,
        enemy_def_spec(floor, 0, p).force == floor + 2,
        0 < i < 100 ==> enemy_def_spec(floor, i, p).force == enemy_def_spec(floor, i - 1, q).force + 2,
        enemy_def_spec(floor, i, p).pos == p,
{
    assert((i + 3) % 3 == i % 3);
}

/// How many items a floor spawns (1 or 2, fewer when the room lacks space).
pub open spec fn item_count(floor: u8, run_seed: u64) -> int {
    1 + (sub_seed_spec(run_seed, floor, 200) % 2) as int
}

/// The free cells of a room, avoiding `taken`, in the order in which items take them.
pub open spec fn item_order(
    tiles: Seq<TileKind>,
    exit: GridPos,
    taken: Seq<GridPos>,
    floor: u8,
    run_seed: u64,
) -> Seq<GridPos> {
    shuffle_spec(free_cells(interior_cells(), tiles, exit, taken), sub_seed_spec(run_seed, floor, 201))
}

/// The kind of the `i`-th item of a floor, drawn from its own sub-seed.
pub open spec fn item_kind_spec(floor: u8, run_seed: u64, i: int) -> ItemKind {
    let r = sub_seed_spec(run_seed, floor, (202 + i) as u64) % 3;
    if r == 0 {
        ItemKind::Ration
    } else if r == 1 {
        ItemKind::Whetstone
    } else {
        ItemKind::Runa
    }
}

/// Generate 1–2 item definitions procedurally, avoiding spawn, exit, walls, and enemy positions.
pub fn generate_item_defs(
    floor: u8,
    run_seed: u64,
    layout: &RoomLayout,
    exit_pos: GridPos,
    enemy_positions: &[GridPos],
) -> (defs: Vec<ItemDef>)
    ensures
        ({
            let order = item_order(layout@, exit_pos, enemy_positions@, floor, run_seed);
            &&& defs@.len() == min_int(item_count(floor, run_seed), order.len() as int)
            &&& forall|i: int| 0 <= i < defs@.len()
                ==> #[trigger] defs@[i] == (ItemDef { pos: order[i], kind: item_kind_spec(floor, run_seed, i) })
        }),
        forall|i: int| 0 <= i < defs@.len() ==> {
            let r = sub_seed_spec(run_seed, floor, (202 + i) as u64) % 3;
            &&& (#[trigger] defs@[i].kind == ItemKind::Ration) == (r == 0)
            &&& (defs@[i].kind == ItemKind::Whetstone) == (r == 1)
            &&& (defs@[i].kind == ItemKind::Runa) == (r == 2)
        },
{
    let count = 1 + (sub_seed(run_seed, floor, 200) % 2) as usize;
    let candidates = free_interior_cells(layout, exit_pos, enemy_positions);
    let shuffled = shuffle_candidates(candidates, sub_seed(run_seed, floor, 201));
    let ghost order = item_order(layout@, exit_pos, enemy_positions@, floor, run_seed);
    let limit = if count < shuffled.len() { count } else { shuffled.len() };
    let mut defs: Vec<ItemDef> = Vec::new();
    let mut i: usize = 0;
    while i < limit
        invariant
            shuffled@ == order,
            limit <= 2,
            limit <= shuffled@.len(),
            limit == min_int(item_count(floor, run_seed), order.len() as int),
            i <= limit,
            defs@.len() == i,
            forall|j: int| 0 <= j < i
                ==> #[trigger] defs@[j] == (ItemDef { pos: order[j], kind: item_kind_spec(floor, run_seed, j) }),
        decreases limit - i,
    {
        let pos = shuffled[i];
        let kind = match sub_seed(run_seed, floor, 202 + i as u64) % 3 {
            0 => ItemKind::Ration,
            1 => ItemKind::Whetstone,
            _ => ItemKind::Runa,
        };
        defs.push(ItemDef { pos, kind });
        i = i + 1;
    }
    proof {
        assert forall|i: int| 0 <= i < defs@.len() implies {
            let r = sub_seed_spec(run_seed, floor, (202 + i) as u64) % 3;
            &&& (#[trigger] defs@[i].kind == ItemKind::Ration) == (r == 0)
            &&& (defs@[i].kind == ItemKind::Whetstone) == (r == 1)
            &&& (defs@[i].kind == ItemKind::Runa) == (r == 2)
        } by {
            law_item_kind_by_sub_seed(floor, run_seed, i);
        }
    }
    defs
}

/// The kind of item `i` is read off its own sub-seed (salt `202 + i`)
/// modulo 3: a ration for 0, a whetstone for 1, a runa for 2. Each kind
/// occurs: on floor 0 of run 0 the first three items are a whetstone, a runa
/// and a ration.
pub proof fn law_item_kind_by_sub_seed(floor: u8, run_seed: u64, i: int)
    ensures
        ({
            let r = sub_seed_spec(run_seed, floor, (202 + i) as u64) % 3;
            &&& (item_kind_spec(floor, run_seed, i) == ItemKind::Ration) == (r == 0)
            &&& (item_kind_spec(floor, run_seed, i) == ItemKind::Whetstone) == (r == 1)
            &&& (item_kind_spec(floor, run_seed, i) == ItemKind::Runa) == (r == 2)
        }),
        item_kind_spec(0, 0, 0) == ItemKind::Whetstone,
        item_kind_spec(0, 0, 1) == ItemKind::Runa,
        item_kind_spec(0, 0, 2) == ItemKind::Ration,
{
    lemma_small_mod(202nat, two64() as nat);
    assert(sub_seed_spec(0, 0, 202) == 202);
    lemma_small_mod(203nat, two64() as nat);
    assert(sub_seed_spec(0, 0, 203) == 203);
    lemma_small_mod(204nat, two64() as nat);
    assert(sub_seed_spec(0, 0, 204) == 204);
}

} // verus!
