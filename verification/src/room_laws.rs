//! What holds of every generated room: the shuffle only reorders, the spawn
//! is never the exit, the outer ring is walls, the exit tile stays an exit,
//! the exit can always be reached from the spawn, and every pillar, enemy
//! and item that a floor draws finds its place.
use vstd::prelude::*;
use crate::room::{
    GridPos, TileKind, in_grid, tile_of, cell_index, on_border, walled_tiles, lemma_walled_tiles,
};
use crate::reach::{reachable, is_walk, passable, step_ok, adjacent};
use vstd::arithmetic::div_mod::{lemma_mod_equivalence, lemma_small_mod, lemma_mul_mod_noop_left, lemma_mod_multiples_vanish};
use crate::procgen::{
    two64,
    exit_candidates, exit_spec, lcg_step, lemma_shuffle_len, pillar_candidates, pillar_count,
    pillar_order, pillar_pass, player_spawn, room_spec, shuffle_rounds, shuffle_spec, sub_seed_spec,
    swap_spec, with_tile, interior_cells, free_cell, free_cells, enemy_order, enemy_count, item_order,
    item_count, min_int,
};

verus! {

broadcast use {
    vstd::seq_lib::group_to_multiset_ensures,
    vstd::multiset::group_multiset_axioms,
    vstd::multiset::group_multiset_properties,
};

proof fn lemma_swap_multiset(s: Seq<GridPos>, i: int, j: int)
    requires
        0 <= i < s.len(),
        0 <= j < s.len(),
    ensures
        swap_spec(s, i, j).to_multiset() == s.to_multiset(),
        swap_spec(s, i, j).len() == s.len(),
{
    broadcast use vstd::seq_lib::to_multiset_update;

    let s1 = s.update(i, s[j]);
    let m = s.to_multiset();
    assert(s1.to_multiset() == m.insert(s[j]).remove(s[i]));
    assert(swap_spec(s, i, j).to_multiset() == s1.to_multiset().insert(s[i]).remove(s1[j]));
    assert(s1[j] == s[j]);
    assert(m.insert(s[j]).remove(s[i]).insert(s[i]).remove(s[j]) =~= m);
}

proof fn lemma_shuffle_rounds_multiset(s: Seq<GridPos>, state: u64, i: nat)
    requires
        i < s.len(),
    ensures
        shuffle_rounds(s, state, i).to_multiset() == s.to_multiset(),
    decreases i,
{
    if i > 0 {
        let st = lcg_step(state);
        let j = (st >> 33u64) as int % (i + 1) as int;
        lemma_swap_multiset(s, i as int, j);
        lemma_shuffle_rounds_multiset(swap_spec(s, i as int, j), st, (i - 1) as nat);
    }
}

/// The shuffle only reorders: its result holds the same items, each as often.
pub proof fn law_shuffle_is_permutation(s: Seq<GridPos>, seed: u64)
    ensures
        shuffle_spec(s, seed).len() == s.len(),
        shuffle_spec(s, seed).to_multiset() == s.to_multiset(),
{
    lemma_shuffle_len(s, seed);
    if s.len() > 0 {
        lemma_shuffle_rounds_multiset(s, seed, (s.len() - 1) as nat);
    }
}

/// Every cell that the shuffle hands out was among its input.
pub proof fn law_shuffle_keeps_items(s: Seq<GridPos>, seed: u64, p: GridPos)
    ensures
        shuffle_spec(s, seed).contains(p) <==> s.contains(p),
{
    law_shuffle_is_permutation(s, seed);
    assert(shuffle_spec(s, seed).to_multiset().count(p) == s.to_multiset().count(p));
}

/// Making tiles passable never breaks a connection.
pub proof fn lemma_reachable_mono(t1: Seq<TileKind>, t2: Seq<TileKind>, from: GridPos, to: GridPos)
    requires
        reachable(t1, from, to),
        forall|p: GridPos| passable(t1, p) ==> #[trigger] passable(t2, p),
    ensures
        reachable(t2, from, to),
{
    let w = choose|w: Seq<GridPos>| #[trigger] is_walk(t1, w) && w[0] == from && w.last() == to;
    assert forall|i: int| 0 < i < w.len() implies step_ok(t2, w[i - 1], #[trigger] w[i]) by {
        assert(step_ok(t1, w[i - 1], w[i]));
        assert(passable(t1, w[i]));
    }
    assert(is_walk(t2, w));
}

/// In a room whose inner 6×6 block has no walls, every inner cell can be
/// reached from the spawn: along row 1, then down the target's column.
pub proof fn lemma_open_interior_connected(tiles: Seq<TileKind>, target: GridPos)
    requires
        tiles.len() == 64,
        forall|x: int, y: int| 1 <= x <= 6 && 1 <= y <= 6 ==> #[trigger] tile_of(tiles, x, y) != TileKind::Wall,
        1 <= target.x <= 6,
        1 <= target.y <= 6,
    ensures
        reachable(tiles, player_spawn(), target),
{
    let tx = target.x as int;
    let ty = target.y as int;
    let w = Seq::new((tx + ty - 1) as nat, |i: int|
        if i < tx { GridPos { x: (1 + i) as u8, y: 1 } } else { GridPos { x: target.x, y: (i - tx + 2) as u8 } });
    assert forall|i: int| 0 < i < w.len() implies step_ok(tiles, w[i - 1], #[trigger] w[i]) by {
        let p = w[i];
        assert(1 <= p.x <= 6 && 1 <= p.y <= 6);
        assert(tile_of(tiles, p.x as int, p.y as int) != TileKind::Wall);
        assert(adjacent(w[i - 1], p));
    }
    assert(w[0] == player_spawn());
    if ty == 1 {
        assert(w.last() == target);
    } else {
        assert(w.last() == target);
    }
    assert(is_walk(tiles, w));
}

/// A pillar pass changes no cell outside its candidates, and keeps the length.
pub proof fn lemma_pillar_pass_frame(tiles: Seq<TileKind>, cands: Seq<GridPos>, exit: GridPos, x: int, y: int)
    requires
        tiles.len() == 64,
        0 <= x < 8,
        0 <= y < 8,
        forall|i: int| 0 <= i < cands.len() ==> !(#[trigger] cands[i].x == x && cands[i].y == y),
    ensures
        pillar_pass(tiles, cands, exit).0.len() == 64,
        tile_of(pillar_pass(tiles, cands, exit).0, x, y) == tile_of(tiles, x, y),
    decreases cands.len(),
{
    if cands.len() > 0 {
        let rest = cands.drop_last();
        assert forall|i: int| 0 <= i < rest.len() implies !(#[trigger] rest[i].x == x && rest[i].y == y) by {
            assert(rest[i] == cands[i]);
        }
        lemma_pillar_pass_frame(tiles, rest, exit, x, y);
        let c = cands.last();
        assert(!(c.x == x && c.y == y));
        let prev = pillar_pass(tiles, rest, exit);
        if in_grid(c) {
            assert(cell_index(c.x as int, c.y as int) != cell_index(x, y));
        }
    }
}

/// A pillar pass keeps the exit reachable from the spawn.
pub proof fn lemma_pillar_pass_connected(tiles: Seq<TileKind>, cands: Seq<GridPos>, exit: GridPos)
    requires
        tiles.len() == 64,
        reachable(tiles, player_spawn(), exit),
    ensures
        pillar_pass(tiles, cands, exit).0.len() == 64,
        reachable(pillar_pass(tiles, cands, exit).0, player_spawn(), exit),
    decreases cands.len(),
{
    if cands.len() > 0 {
        let rest = cands.drop_last();
        lemma_pillar_pass_connected(tiles, rest, exit);
        let prev = pillar_pass(tiles, rest, exit);
        let c = cands.last();
        let walled = with_tile(prev.0, c, TileKind::Wall);
        if !reachable(walled, player_spawn(), exit) {
            let opened = with_tile(prev.0, c, TileKind::Floor);
            assert forall|p: GridPos| passable(prev.0, p) implies #[trigger] passable(opened, p) by {
                if in_grid(c) && in_grid(p) && p != c {
                    assert(cell_index(c.x as int, c.y as int) != cell_index(p.x as int, p.y as int));
                }
            }
            lemma_reachable_mono(prev.0, opened, player_spawn(), exit);
        }
    }
}

/// The cells of the pillar block: columns and rows 2 to 4.
pub open spec fn in_pillar_block(p: GridPos) -> bool {
    2 <= p.x <= 4 && 2 <= p.y <= 4
}

/// Every cell that a floor tries as a pillar lies in the pillar block.
pub proof fn law_pillar_order_in_block(floor: u8, run_seed: u64)
    ensures
        pillar_order(floor, run_seed).len() == 9,
        forall|i: int| 0 <= i < pillar_order(floor, run_seed).len()
            ==> in_pillar_block(#[trigger] pillar_order(floor, run_seed)[i]),
{
    let order = pillar_order(floor, run_seed);
    law_shuffle_is_permutation(pillar_candidates(), sub_seed_spec(run_seed, floor, 2));
    assert forall|i: int| 0 <= i < order.len() implies in_pillar_block(#[trigger] order[i]) by {
        law_shuffle_keeps_items(pillar_candidates(), sub_seed_spec(run_seed, floor, 2), order[i]);
        assert(pillar_candidates().contains(order[i]));
        let j = choose|j: int| 0 <= j < pillar_candidates().len() && pillar_candidates()[j] == order[i];
        assert(in_pillar_block(pillar_candidates()[j]));
    }
}

/// A cell of the inner ring: inside the walls, on row or column 1 or 6.
pub open spec fn on_inner_ring(x: int, y: int) -> bool {
    1 <= x <= 6 && 1 <= y <= 6 && (x == 1 || x == 6 || y == 1 || y == 6)
}

/// From the spawn along row 1 to the target's column, then down that column.
proof fn lemma_walk_row_then_column(tiles: Seq<TileKind>, target: GridPos)
    requires
        tiles.len() == 64,
        1 <= target.x <= 6,
        1 <= target.y <= 6,
        forall|x: int| 1 <= x <= target.x ==> #[trigger] tile_of(tiles, x, 1) != TileKind::Wall,
        forall|y: int| 1 <= y <= target.y ==> #[trigger] tile_of(tiles, target.x as int, y) != TileKind::Wall,
    ensures
        reachable(tiles, player_spawn(), target),
{
    let tx = target.x as int;
    let ty = target.y as int;
    let w = Seq::new((tx + ty - 1) as nat, |i: int|
        if i < tx { GridPos { x: (1 + i) as u8, y: 1 } } else { GridPos { x: target.x, y: (i - tx + 2) as u8 } });
    assert forall|i: int| 0 < i < w.len() implies step_ok(tiles, w[i - 1], #[trigger] w[i]) by {
        let p = w[i];
        if i < tx {
            assert(tile_of(tiles, p.x as int, 1) != TileKind::Wall);
        } else {
            assert(tile_of(tiles, tx, p.y as int) != TileKind::Wall);
        }
        assert(adjacent(w[i - 1], p));
    }
    assert(w[0] == player_spawn());
    assert(w.last() == target);
    assert(is_walk(tiles, w));
}

/// From the spawn down column 1 to the target's row, then along that row.
proof fn lemma_walk_column_then_row(tiles: Seq<TileKind>, target: GridPos)
    requires
        tiles.len() == 64,
        1 <= target.x <= 6,
        1 <= target.y <= 6,
        forall|y: int| 1 <= y <= target.y ==> #[trigger] tile_of(tiles, 1, y) != TileKind::Wall,
        forall|x: int| 1 <= x <= target.x ==> #[trigger] tile_of(tiles, x, target.y as int) != TileKind::Wall,
    ensures
        reachable(tiles, player_spawn(), target),
{
    let tx = target.x as int;
    let ty = target.y as int;
    let w = Seq::new((tx + ty - 1) as nat, |i: int|
        if i < ty { GridPos { x: 1, y: (1 + i) as u8 } } else { GridPos { x: (i - ty + 2) as u8, y: target.y } });
    assert forall|i: int| 0 < i < w.len() implies step_ok(tiles, w[i - 1], #[trigger] w[i]) by {
        let p = w[i];
        if i < ty {
            assert(tile_of(tiles, 1, p.y as int) != TileKind::Wall);
        } else {
            assert(tile_of(tiles, p.x as int, ty) != TileKind::Wall);
        }
        assert(adjacent(w[i - 1], p));
    }
    assert(w[0] == player_spawn());
    assert(w.last() == target);
    assert(is_walk(tiles, w));
}

/// While the inner ring has no walls, every cell of it can be reached from
/// the spawn, whatever stands inside the ring.
pub proof fn lemma_inner_ring_connected(tiles: Seq<TileKind>, target: GridPos)
    requires
        tiles.len() == 64,
        forall|x: int, y: int| on_inner_ring(x, y) ==> #[trigger] tile_of(tiles, x, y) != TileKind::Wall,
        on_inner_ring(target.x as int, target.y as int),
    ensures
        reachable(tiles, player_spawn(), target),
{
    let tx = target.x as int;
    let ty = target.y as int;
    if tx == 6 || ty == 1 {
        assert forall|x: int| 1 <= x <= tx implies #[trigger] tile_of(tiles, x, 1) != TileKind::Wall by {
            assert(on_inner_ring(x, 1));
        }
        assert forall|y: int| 1 <= y <= ty implies #[trigger] tile_of(tiles, tx, y) != TileKind::Wall by {
            assert(on_inner_ring(tx, y));
        }
        lemma_walk_row_then_column(tiles, target);
    } else {
        assert forall|y: int| 1 <= y <= ty implies #[trigger] tile_of(tiles, 1, y) != TileKind::Wall by {
            assert(on_inner_ring(1, y));
        }
        assert forall|x: int| 1 <= x <= tx implies #[trigger] tile_of(tiles, x, ty) != TileKind::Wall by {
            assert(on_inner_ring(x, ty));
        }
        lemma_walk_column_then_row(tiles, target);
    }
}

/// The grid cell at (x, y).
pub open spec fn cell_at(x: int, y: int) -> GridPos {
    GridPos { x: x as u8, y: y as u8 }
}

/// While the inner ring has no walls and the exit lies on it, a pillar pass
/// over cells of the pillar block keeps every wall it tries: it places all
/// its candidates, and the tiles are the old ones with exactly those cells
/// turned to walls.
pub proof fn lemma_pillar_pass_keeps_all(tiles: Seq<TileKind>, cands: Seq<GridPos>, exit: GridPos)
    requires
        tiles.len() == 64,
        forall|x: int, y: int| on_inner_ring(x, y) ==> #[trigger] tile_of(tiles, x, y) != TileKind::Wall,
        on_inner_ring(exit.x as int, exit.y as int),
        forall|i: int| 0 <= i < cands.len() ==> in_pillar_block(#[trigger] cands[i]),
    ensures
        pillar_pass(tiles, cands, exit).1 == cands,
        pillar_pass(tiles, cands, exit).0.len() == 64,
        forall|x: int, y: int| 0 <= x < 8 && 0 <= y < 8 ==> #[trigger] tile_of(pillar_pass(tiles, cands, exit).0, x, y)
            == (if cands.contains(cell_at(x, y)) { TileKind::Wall } else { tile_of(tiles, x, y) }),
    decreases cands.len(),
{
    if cands.len() > 0 {
        let rest = cands.drop_last();
        assert forall|i: int| 0 <= i < rest.len() implies in_pillar_block(#[trigger] rest[i]) by {
            assert(rest[i] == cands[i]);
        }
        lemma_pillar_pass_keeps_all(tiles, rest, exit);
        let prev = pillar_pass(tiles, rest, exit);
        let c = cands.last();
        assert(in_pillar_block(cands[cands.len() - 1]));
        let walled = with_tile(prev.0, c, TileKind::Wall);
        let ci = cell_index(c.x as int, c.y as int);
        assert forall|x: int, y: int| 0 <= x < 8 && 0 <= y < 8 implies #[trigger] tile_of(walled, x, y)
            == (if cands.contains(cell_at(x, y)) { TileKind::Wall } else { tile_of(tiles, x, y) }) by {
            let p = cell_at(x, y);
            if p == c {
                assert(cands[cands.len() - 1] == p);
                assert(cell_index(x, y) == ci);
            } else {
                assert(cell_index(x, y) != ci);
                assert(tile_of(walled, x, y) == tile_of(prev.0, x, y));
                if rest.contains(p) {
                    let j = choose|j: int| 0 <= j < rest.len() && rest[j] == p;
                    assert(cands[j] == p);
                }
                if cands.contains(p) {
                    let j = choose|j: int| 0 <= j < cands.len() && cands[j] == p;
                    assert(j < cands.len() - 1);
                    assert(rest[j] == p);
                }
            }
        }
        assert forall|x: int, y: int| on_inner_ring(x, y) implies #[trigger] tile_of(walled, x, y) != TileKind::Wall by {
            assert(tile_of(tiles, x, y) != TileKind::Wall);
            if cands.contains(cell_at(x, y)) {
                let j = choose|j: int| 0 <= j < cands.len() && cands[j] == cell_at(x, y);
                assert(in_pillar_block(cands[j]));
            }
        }
        lemma_inner_ring_connected(walled, exit);
        assert(rest.push(c) =~= cands);
    }
}

/// Every exit candidate lies on the inner ring (x or y in {1, 6}) and is not the spawn.
pub proof fn law_exit_candidates_on_inner_ring(i: int)
    requires
        0 <= i < 18,
    ensures
        1 <= exit_candidates()[i].x <= 6,
        1 <= exit_candidates()[i].y <= 6,
        exit_candidates()[i].x == 1 || exit_candidates()[i].x == 6 || exit_candidates()[i].y == 1
            || exit_candidates()[i].y == 6,
        exit_candidates()[i] != player_spawn(),
{
}

/// The exit of every floor is never the player spawn (1, 1).
pub proof fn law_exit_not_on_spawn(floor: u8, run_seed: u64)
    ensures
        room_spec(floor, run_seed).1 != player_spawn(),
{
    if floor != 10 {
        let i = (sub_seed_spec(run_seed, floor, 0) as usize) as int % 18;
        law_exit_candidates_on_inner_ring(i);
    }
}

/// Facts about the room of a floor other than 10 that the laws below share.
proof fn lemma_generated_room(floor: u8, run_seed: u64)
    requires
        floor != 10,
    ensures
        ({
            let exit = exit_spec(floor, run_seed);
            let base = with_tile(walled_tiles(), exit, TileKind::Exit);
            let cands = pillar_order(floor, run_seed).take(pillar_count(floor, run_seed));
            &&& 1 <= exit.x <= 6 && 1 <= exit.y <= 6
            &&& exit.x == 1 || exit.x == 6 || exit.y == 1 || exit.y == 6
            &&& base.len() == 64
            &&& tile_of(base, exit.x as int, exit.y as int) == TileKind::Exit
            &&& forall|x: int, y: int| 0 <= x < 8 && 0 <= y < 8 && on_border(x, y)
                ==> #[trigger] tile_of(base, x, y) == TileKind::Wall
            &&& forall|x: int, y: int| 1 <= x <= 6 && 1 <= y <= 6
                ==> #[trigger] tile_of(base, x, y) != TileKind::Wall
            &&& forall|i: int| 0 <= i < cands.len() ==> in_pillar_block(#[trigger] cands[i])
        }),
{
    let exit = exit_spec(floor, run_seed);
    let i = (sub_seed_spec(run_seed, floor, 0) as usize) as int % 18;
    law_exit_candidates_on_inner_ring(i);
    lemma_walled_tiles();
    let base = with_tile(walled_tiles(), exit, TileKind::Exit);
    assert forall|x: int, y: int| 0 <= x < 8 && 0 <= y < 8 && on_border(x, y)
        implies #[trigger] tile_of(base, x, y) == TileKind::Wall by {
        assert(cell_index(x, y) != cell_index(exit.x as int, exit.y as int));
        assert(tile_of(walled_tiles(), x, y) == TileKind::Wall);
    }
    assert forall|x: int, y: int| 1 <= x <= 6 && 1 <= y <= 6
        implies #[trigger] tile_of(base, x, y) != TileKind::Wall by {
        if !(x == exit.x && y == exit.y) {
            assert(cell_index(x, y) != cell_index(exit.x as int, exit.y as int));
            assert(tile_of(walled_tiles(), x, y) == TileKind::Floor);
        }
    }
    law_pillar_order_in_block(floor, run_seed);
    let order = pillar_order(floor, run_seed);
    let cands = order.take(pillar_count(floor, run_seed));
    assert forall|i: int| 0 <= i < cands.len() implies in_pillar_block(#[trigger] cands[i]) by {
        assert(cands[i] == order[i]);
    }
}

/// The outer ring of every generated room is walls.
pub proof fn law_perimeter_walls(floor: u8, run_seed: u64, x: int, y: int)
    requires
        0 <= x < 8,
        0 <= y < 8,
        on_border(x, y),
    ensures
        tile_of(room_spec(floor, run_seed).0, x, y) == TileKind::Wall,
{
    lemma_walled_tiles();
    if floor != 10 {
        lemma_generated_room(floor, run_seed);
        let exit = exit_spec(floor, run_seed);
        let base = with_tile(walled_tiles(), exit, TileKind::Exit);
        let cands = pillar_order(floor, run_seed).take(pillar_count(floor, run_seed));
        assert forall|i: int| 0 <= i < cands.len() implies !(#[trigger] cands[i].x == x && cands[i].y == y) by {
            assert(in_pillar_block(cands[i]));
        }
        lemma_pillar_pass_frame(base, cands, exit, x, y);
    }
}

/// On every floor but 10 the exit cell holds the exit tile.
pub proof fn law_exit_tile(floor: u8, run_seed: u64)
    requires
        floor != 10,
    ensures
        ({
            let (tiles, exit) = room_spec(floor, run_seed);
            tile_of(tiles, exit.x as int, exit.y as int) == TileKind::Exit
        }),
{
    lemma_generated_room(floor, run_seed);
    let exit = exit_spec(floor, run_seed);
    let base = with_tile(walled_tiles(), exit, TileKind::Exit);
    let cands = pillar_order(floor, run_seed).take(pillar_count(floor, run_seed));
    assert forall|i: int| 0 <= i < cands.len()
        implies !(#[trigger] cands[i].x == exit.x as int && cands[i].y == exit.y as int) by {
        assert(in_pillar_block(cands[i]));
    }
    lemma_pillar_pass_frame(base, cands, exit, exit.x as int, exit.y as int);
}

/// On every floor but 10 the exit can be reached from the spawn.
pub proof fn law_room_connected(floor: u8, run_seed: u64)
    requires
        floor != 10,
    ensures
        ({
            let (tiles, exit) = room_spec(floor, run_seed);
            reachable(tiles, player_spawn(), exit)
        }),
{
    lemma_generated_room(floor, run_seed);
    let exit = exit_spec(floor, run_seed);
    let base = with_tile(walled_tiles(), exit, TileKind::Exit);
    let cands = pillar_order(floor, run_seed).take(pillar_count(floor, run_seed));
    lemma_open_interior_connected(base, exit);
    lemma_pillar_pass_connected(base, cands, exit);
}

proof fn lemma_offset_mod_injective(a: int, d1: int, d2: int)
    requires
        0 <= d1 < two64(),
        0 <= d2 < two64(),
        (a + d1) % two64() == (a + d2) % two64(),
    ensures
        d1 == d2,
{
    let m = two64();
    lemma_mod_equivalence(a + d1, a + d2, m);
    lemma_mod_equivalence(a + d2, a + d1, m);
    assert((a + d1) - (a + d2) == d1 - d2);
    assert((a + d2) - (a + d1) == d2 - d1);
    if d1 > d2 {
        lemma_small_mod((d1 - d2) as nat, m as nat);
    } else if d2 > d1 {
        lemma_small_mod((d2 - d1) as nat, m as nat);
    }
}

/// Within one run, different (floor, salt) pairs give different sub-seeds,
/// for salts below 256 (the generation uses salts 0 to 203).
pub proof fn law_sub_seed_unique_in_run(run_seed: u64, floor1: u8, salt1: u64, floor2: u8, salt2: u64)
    requires
        (floor1, salt1) != (floor2, salt2),
        salt1 < 256,
        salt2 < 256,
    ensures
        sub_seed_spec(run_seed, floor1, salt1) != sub_seed_spec(run_seed, floor2, salt2),
{
    let d1 = floor1 as int * 256 + salt1 as int;
    let d2 = floor2 as int * 256 + salt2 as int;
    if d1 == d2 {
        if floor1 < floor2 {
            assert(floor1 as int * 256 + 256 <= floor2 as int * 256);
        } else if floor2 < floor1 {
            assert(floor2 as int * 256 + 256 <= floor1 as int * 256);
        }
        assert(false);
    }
    if sub_seed_spec(run_seed, floor1, salt1) == sub_seed_spec(run_seed, floor2, salt2) {
        let a = run_seed as int * 6364136223846793005;
        assert(run_seed as int * 6364136223846793005 + floor1 as int * 256 + salt1 as int == a + d1);
        assert(run_seed as int * 6364136223846793005 + floor2 as int * 256 + salt2 as int == a + d2);
        lemma_offset_mod_injective(a, d1, d2);
    }
}

/// Different runs give different sub-seeds, for the same floor and salt: the
/// multiplier is odd, so multiplying by it modulo 2^64 loses nothing.
pub proof fn law_sub_seed_distinct_runs(run1: u64, run2: u64, floor: u8, salt: u64)
    requires
        run1 != run2,
    ensures
        sub_seed_spec(run1, floor, salt) != sub_seed_spec(run2, floor, salt),
{
    let m = two64();
    let a: int = 6364136223846793005;
    let inv: int = 13877824140714322085;
    let k: int = 4787856489426250814;
    if sub_seed_spec(run1, floor, salt) == sub_seed_spec(run2, floor, salt) {
        let off = floor as int * 256 + salt as int;
        let x1 = run1 as int * a;
        let x2 = run2 as int * a;
        assert((x1 + off) % m == (x2 + off) % m);
        lemma_mod_equivalence(x1 + off, x2 + off, m);
        lemma_mod_equivalence(x1, x2, m);
        assert((x1 + off) - (x2 + off) == x1 - x2);
        assert(x1 % m == x2 % m);
        lemma_mul_mod_noop_left(x1, inv, m);
        lemma_mul_mod_noop_left(x2, inv, m);
        assert((x1 * inv) % m == (x2 * inv) % m);
        assert(a * inv == k * m + 1);
        assert(x1 * inv == m * (run1 as int * k) + run1 as int) by (nonlinear_arith)
            requires
                x1 == run1 as int * a,
                a * inv == k * m + 1,
        ;
        assert(x2 * inv == m * (run2 as int * k) + run2 as int) by (nonlinear_arith)
            requires
                x2 == run2 as int * a,
                a * inv == k * m + 1,
        ;
        lemma_mod_multiples_vanish(run1 as int * k, run1 as int, m);
        lemma_mod_multiples_vanish(run2 as int * k, run2 as int, m);
        lemma_small_mod(run1 as nat, m as nat);
        lemma_small_mod(run2 as nat, m as nat);
    }
}

/// The free cells are free, and come from the cells they were taken from.
pub proof fn lemma_free_cells_are_free(
    cells: Seq<GridPos>,
    tiles: Seq<TileKind>,
    exit: GridPos,
    taken: Seq<GridPos>,
    p: GridPos,
)
    requires
        free_cells(cells, tiles, exit, taken).contains(p),
    ensures
        cells.contains(p),
        free_cell(tiles, exit, taken, p),
    decreases cells.len(),
{
    if cells.len() > 0 {
        let rest = cells.drop_last();
        let prev = free_cells(rest, tiles, exit, taken);
        if prev.contains(p) {
            lemma_free_cells_are_free(rest, tiles, exit, taken, p);
            let j = choose|j: int| 0 <= j < rest.len() && rest[j] == p;
            assert(cells[j] == p);
        } else {
            assert(p == cells.last());
            assert(cells[cells.len() - 1] == p);
        }
    }
}

/// The free cells of a list without repeats hold no repeats.
pub proof fn lemma_free_cells_no_dup(cells: Seq<GridPos>, tiles: Seq<TileKind>, exit: GridPos, taken: Seq<GridPos>)
    requires
        cells.no_duplicates(),
    ensures
        free_cells(cells, tiles, exit, taken).no_duplicates(),
    decreases cells.len(),
{
    if cells.len() > 0 {
        let rest = cells.drop_last();
        assert(rest.no_duplicates());
        lemma_free_cells_no_dup(rest, tiles, exit, taken);
        let prev = free_cells(rest, tiles, exit, taken);
        let c = cells.last();
        if prev.contains(c) {
            lemma_free_cells_are_free(rest, tiles, exit, taken, c);
            let j = choose|j: int| 0 <= j < rest.len() && rest[j] == c;
            assert(cells[j] == cells[cells.len() - 1]);
        }
    }
}

/// The inner cells are listed once each.
pub proof fn lemma_interior_cells_no_dup()
    ensures
        interior_cells().no_duplicates(),
        interior_cells().len() == 36,
{
    let s = interior_cells();
    assert forall|i: int, j: int| 0 <= i < s.len() && 0 <= j < s.len() && i != j implies s[i] != s[j] by {
        assert(i == 6 * (i / 6) + i % 6);
        assert(j == 6 * (j / 6) + j % 6);
    }
}

/// A shuffle of a list without repeats has no repeats.
pub proof fn lemma_shuffle_no_dup(s: Seq<GridPos>, seed: u64)
    requires
        s.no_duplicates(),
    ensures
        shuffle_spec(s, seed).no_duplicates(),
{
    let r = shuffle_spec(s, seed);
    law_shuffle_is_permutation(s, seed);
    s.lemma_multiset_has_no_duplicates();
    r.lemma_multiset_has_no_duplicates_conv();
}

/// Every floor tries 0 to 3 pillars, and places 2 to 4 enemies and 1 or 2
/// items, when the room has room.
pub proof fn law_placement_counts(floor: u8, run_seed: u64)
    ensures
        0 <= pillar_count(floor, run_seed) <= 3,
        2 <= enemy_count(floor, run_seed) <= 4,
        1 <= item_count(floor, run_seed) <= 2,
{
}

/// Enemies stand on floor tiles, never on the spawn or the exit, and never
/// two on one cell.
pub proof fn law_enemy_cells(tiles: Seq<TileKind>, exit: GridPos, floor: u8, run_seed: u64)
    ensures
        ({
            let order = enemy_order(tiles, exit, floor, run_seed);
            &&& order.no_duplicates()
            &&& forall|i: int| 0 <= i < order.len() ==> {
                &&& 1 <= #[trigger] order[i].x <= 6 && 1 <= order[i].y <= 6
                &&& tile_of(tiles, order[i].x as int, order[i].y as int) == TileKind::Floor
                &&& order[i] != player_spawn()
                &&& order[i] != exit
            }
        }),
{
    let free = free_cells(interior_cells(), tiles, exit, Seq::empty());
    let seed = sub_seed_spec(run_seed, floor, 11);
    let order = enemy_order(tiles, exit, floor, run_seed);
    lemma_interior_cells_no_dup();
    lemma_free_cells_no_dup(interior_cells(), tiles, exit, Seq::empty());
    lemma_shuffle_no_dup(free, seed);
    assert forall|i: int| 0 <= i < order.len() implies {
        &&& 1 <= #[trigger] order[i].x <= 6 && 1 <= order[i].y <= 6
        &&& tile_of(tiles, order[i].x as int, order[i].y as int) == TileKind::Floor
        &&& order[i] != player_spawn()
        &&& order[i] != exit
    } by {
        law_shuffle_keeps_items(free, seed, order[i]);
        lemma_free_cells_are_free(interior_cells(), tiles, exit, Seq::empty(), order[i]);
        let j = choose|j: int| 0 <= j < interior_cells().len() && interior_cells()[j] == order[i];
    }
}

/// Items stand on floor tiles, never on the spawn, the exit or a taken
/// (enemy) cell, and never two on one cell.
pub proof fn law_item_cells(tiles: Seq<TileKind>, exit: GridPos, taken: Seq<GridPos>, floor: u8, run_seed: u64)
    ensures
        ({
            let order = item_order(tiles, exit, taken, floor, run_seed);
            &&& order.no_duplicates()
            &&& forall|i: int| 0 <= i < order.len() ==> {
                &&& 1 <= #[trigger] order[i].x <= 6 && 1 <= order[i].y <= 6
                &&& tile_of(tiles, order[i].x as int, order[i].y as int) == TileKind::Floor
                &&& order[i] != player_spawn()
                &&& order[i] != exit
                &&& !taken.contains(order[i])
            }
        }),
{
    let free = free_cells(interior_cells(), tiles, exit, taken);
    let seed = sub_seed_spec(run_seed, floor, 201);
    let order = item_order(tiles, exit, taken, floor, run_seed);
    lemma_interior_cells_no_dup();
    lemma_free_cells_no_dup(interior_cells(), tiles, exit, taken);
    lemma_shuffle_no_dup(free, seed);
    assert forall|i: int| 0 <= i < order.len() implies {
        &&& 1 <= #[trigger] order[i].x <= 6 && 1 <= order[i].y <= 6
        &&& tile_of(tiles, order[i].x as int, order[i].y as int) == TileKind::Floor
        &&& order[i] != player_spawn()
        &&& order[i] != exit
        &&& !taken.contains(order[i])
    } by {
        law_shuffle_keeps_items(free, seed, order[i]);
        lemma_free_cells_are_free(interior_cells(), tiles, exit, taken, order[i]);
        let j = choose|j: int| 0 <= j < interior_cells().len() && interior_cells()[j] == order[i];
    }
}

/// The pillar cells are listed once each.
proof fn lemma_pillar_candidates_no_dup()
    ensures
        pillar_candidates().no_duplicates(),
        pillar_candidates().len() == 9,
{
    let s = pillar_candidates();
    let g = Seq::new(9, |i: int| GridPos { x: (2 + i % 3) as u8, y: (2 + i / 3) as u8 });
    assert(s =~= g);
    assert forall|i: int, j: int| 0 <= i < g.len() && 0 <= j < g.len() && i != j implies g[i] != g[j] by {
        assert(i == 3 * (i / 3) + i % 3);
        assert(j == 3 * (j / 3) + j % 3);
    }
}

/// Placing pillars in the walled room with its exit on the inner ring keeps
/// every pillar that the floor draws (what `place_pillars` does there): the
/// placed cells are the first `pillar_count` cells of the floor's pillar
/// order, 0 to 3 distinct cells of the pillar block; the room is the old one
/// with exactly those cells turned to walls; and the exit stays reachable
/// from the spawn.
pub proof fn law_pillars_all_placed(floor: u8, run_seed: u64, exit: GridPos)
    requires
        on_inner_ring(exit.x as int, exit.y as int),
    ensures
        ({
            let base = with_tile(walled_tiles(), exit, TileKind::Exit);
            let cands = pillar_order(floor, run_seed).take(pillar_count(floor, run_seed));
            let (tiles, placed) = pillar_pass(base, cands, exit);
            &&& placed == cands
            &&& placed.len() == pillar_count(floor, run_seed)
            &&& placed.len() <= 3
            &&& placed.no_duplicates()
            &&& forall|i: int| 0 <= i < placed.len() ==> in_pillar_block(#[trigger] placed[i])
            &&& tiles.len() == 64
            &&& forall|x: int, y: int| 0 <= x < 8 && 0 <= y < 8 ==> #[trigger] tile_of(tiles, x, y)
                == (if placed.contains(cell_at(x, y)) { TileKind::Wall } else { tile_of(base, x, y) })
            &&& reachable(tiles, player_spawn(), exit)
        }),
{
    lemma_walled_tiles();
    let base = with_tile(walled_tiles(), exit, TileKind::Exit);
    let order = pillar_order(floor, run_seed);
    let count = pillar_count(floor, run_seed);
    let cands = order.take(count);
    assert forall|x: int, y: int| on_inner_ring(x, y) implies #[trigger] tile_of(base, x, y) != TileKind::Wall by {
        if !(x == exit.x && y == exit.y) {
            assert(cell_index(x, y) != cell_index(exit.x as int, exit.y as int));
            assert(tile_of(walled_tiles(), x, y) == TileKind::Floor);
        }
    }
    law_pillar_order_in_block(floor, run_seed);
    assert forall|i: int| 0 <= i < cands.len() implies in_pillar_block(#[trigger] cands[i]) by {
        assert(cands[i] == order[i]);
    }
    lemma_pillar_candidates_no_dup();
    lemma_shuffle_no_dup(pillar_candidates(), sub_seed_spec(run_seed, floor, 2));
    assert forall|i: int, j: int| 0 <= i < cands.len() && 0 <= j < cands.len() && i != j implies cands[i] != cands[j] by {
        assert(cands[i] == order[i] && cands[j] == order[j]);
    }
    lemma_pillar_pass_keeps_all(base, cands, exit);
    lemma_inner_ring_connected(base, exit);
    lemma_pillar_pass_connected(base, cands, exit);
}

/// Among `cells` without repeats, at most `others.len()` are not free when
/// each cell that is not free is one of `others`.
proof fn lemma_free_cells_count(
    cells: Seq<GridPos>,
    tiles: Seq<TileKind>,
    exit: GridPos,
    taken: Seq<GridPos>,
    others: Seq<GridPos>,
)
    requires
        cells.no_duplicates(),
        forall|i: int| 0 <= i < cells.len() && !free_cell(tiles, exit, taken, #[trigger] cells[i])
            ==> others.contains(cells[i]),
    ensures
        free_cells(cells, tiles, exit, taken).len() + others.len() >= cells.len(),
    decreases cells.len(),
{
    if cells.len() > 0 {
        let rest = cells.drop_last();
        let c = cells.last();
        assert(rest.no_duplicates());
        if free_cell(tiles, exit, taken, c) {
            assert forall|i: int| 0 <= i < rest.len() && !free_cell(tiles, exit, taken, #[trigger] rest[i])
                implies others.contains(rest[i]) by {
                assert(rest[i] == cells[i]);
            }
            lemma_free_cells_count(rest, tiles, exit, taken, others);
        } else {
            assert(cells[cells.len() - 1] == c);
            let k = choose|k: int| 0 <= k < others.len() && others[k] == c;
            let fewer = others.remove(k);
            others.remove_ensures(k);
            assert forall|i: int| 0 <= i < rest.len() && !free_cell(tiles, exit, taken, #[trigger] rest[i])
                implies fewer.contains(rest[i]) by {
                assert(rest[i] == cells[i]);
                assert(others.contains(cells[i]));
                let m = choose|m: int| 0 <= m < others.len() && others[m] == cells[i];
                assert(cells[i] != cells[cells.len() - 1]);
                if m < k {
                    assert(fewer[m] == others[m]);
                } else {
                    assert(fewer[m - 1] == others[m]);
                }
            }
            lemma_free_cells_count(rest, tiles, exit, taken, fewer);
        }
    }
}

/// In a room of a floor other than 10, the inner cells that are not free for
/// `taken` are the spawn, the exit, the pillars and the cells of `taken`.
proof fn lemma_generated_room_free_cells(floor: u8, run_seed: u64, taken: Seq<GridPos>)
    requires
        floor != 10,
    ensures
        ({
            let (tiles, exit) = room_spec(floor, run_seed);
            free_cells(interior_cells(), tiles, exit, taken).len() + 5 + taken.len() >= 36
        }),
{
    let exit = exit_spec(floor, run_seed);
    let i = (sub_seed_spec(run_seed, floor, 0) as usize) as int % 18;
    law_exit_candidates_on_inner_ring(i);
    law_pillars_all_placed(floor, run_seed, exit);
    lemma_walled_tiles();
    let base = with_tile(walled_tiles(), exit, TileKind::Exit);
    let cands = pillar_order(floor, run_seed).take(pillar_count(floor, run_seed));
    let tiles = room_spec(floor, run_seed).0;
    let others = seq![player_spawn(), exit] + cands + taken;
    let cells = interior_cells();
    lemma_interior_cells_no_dup();
    assert forall|k: int| 0 <= k < cells.len() && !free_cell(tiles, exit, taken, #[trigger] cells[k])
        implies others.contains(cells[k]) by {
        let p = cells[k];
        let x = p.x as int;
        let y = p.y as int;
        assert(1 <= x <= 6 && 1 <= y <= 6);
        assert(cell_at(x, y) == p);
        if p == player_spawn() {
            assert(others[0] == p);
        } else if p == exit {
            assert(others[1] == p);
        } else if taken.contains(p) {
            let j = choose|j: int| 0 <= j < taken.len() && taken[j] == p;
            assert(others[2 + cands.len() + j] == p);
        } else if cands.contains(p) {
            let j = choose|j: int| 0 <= j < cands.len() && cands[j] == p;
            assert(others[2 + j] == p);
        } else {
            assert(cell_index(x, y) != cell_index(exit.x as int, exit.y as int));
            assert(tile_of(walled_tiles(), x, y) == TileKind::Floor);
            assert(tile_of(tiles, x, y) == TileKind::Floor);
        }
    }
    lemma_free_cells_count(cells, tiles, exit, taken, others);
}

/// On every floor but 10 the room has space for all its enemies: at least 31
/// free cells, so exactly `enemy_count` enemies (2 to 4) are placed.
pub proof fn law_enemy_count_met(floor: u8, run_seed: u64)
    requires
        floor != 10,
    ensures
        ({
            let (tiles, exit) = room_spec(floor, run_seed);
            let order = enemy_order(tiles, exit, floor, run_seed);
            &&& order.len() >= 31
            &&& min_int(enemy_count(floor, run_seed), order.len() as int) == enemy_count(floor, run_seed)
        }),
{
    let (tiles, exit) = room_spec(floor, run_seed);
    lemma_generated_room_free_cells(floor, run_seed, Seq::empty());
    lemma_shuffle_len(free_cells(interior_cells(), tiles, exit, Seq::empty()), sub_seed_spec(run_seed, floor, 11));
}

/// On every floor but 10 the room has space for all its items, next to at
/// most 29 taken cells: exactly `item_count` items (1 or 2) are placed.
pub proof fn law_item_count_met(floor: u8, run_seed: u64, taken: Seq<GridPos>)
    requires
        floor != 10,
        taken.len() <= 29,
    ensures
        ({
            let (tiles, exit) = room_spec(floor, run_seed);
            let order = item_order(tiles, exit, taken, floor, run_seed);
            &&& order.len() + taken.len() >= 31
            &&& min_int(item_count(floor, run_seed), order.len() as int) == item_count(floor, run_seed)
        }),
{
    let (tiles, exit) = room_spec(floor, run_seed);
    lemma_generated_room_free_cells(floor, run_seed, taken);
    lemma_shuffle_len(free_cells(interior_cells(), tiles, exit, taken), sub_seed_spec(run_seed, floor, 201));
}

} // verus!
