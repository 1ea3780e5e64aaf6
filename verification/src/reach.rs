//! Connectivity of a room: orthogonal walks over non-wall tiles, and the
//! breadth-first search that decides them.
use std::collections::VecDeque;
use vstd::prelude::*;
use crate::room::{GridPos, RoomLayout, TileKind, in_grid, tile_of};

verus! {

broadcast use vstd::seq_lib::group_seq_properties;

/// Row-major index of a grid position.
pub open spec fn pos_index(p: GridPos) -> int {
    p.y * 8 + p.x
}

/// `a` and `b` are orthogonal neighbours (no diagonals).
pub open spec fn adjacent(a: GridPos, b: GridPos) -> bool {
    ||| (a.x == b.x && (a.y + 1 == b.y || b.y + 1 == a.y))
    ||| (a.y == b.y && (a.x + 1 == b.x || b.x + 1 == a.x))
}

/// `p` is not a wall in the given tiles.
pub open spec fn passable(tiles: Seq<TileKind>, p: GridPos) -> bool {
    tile_of(tiles, p.x as int, p.y as int) != TileKind::Wall
}

/// One move from `a` to `b`: a neighbour inside the grid that is not a wall.
pub open spec fn step_ok(tiles: Seq<TileKind>, a: GridPos, b: GridPos) -> bool {
    in_grid(b) && adjacent(a, b) && passable(tiles, b)
}

/// A walk: starts inside the grid, and every later position is one move
/// away from the one before it. The starting tile itself may be a wall.
pub open spec fn is_walk(tiles: Seq<TileKind>, w: Seq<GridPos>) -> bool {
    &&& w.len() > 0
    &&& in_grid(w[0])
    &&& forall|i: int| 0 < i < w.len() ==> step_ok(tiles, w[i - 1], #[trigger] w[i])
}

/// `to` can be reached from `from` by a walk.
pub open spec fn reachable(tiles: Seq<TileKind>, from: GridPos, to: GridPos) -> bool {
    exists|w: Seq<GridPos>| #[trigger] is_walk(tiles, w) && w[0] == from && w.last() == to
}

/// Every grid position reaches itself.
pub proof fn lemma_reachable_refl(tiles: Seq<TileKind>, p: GridPos)
    requires
        in_grid(p),
    ensures
        reachable(tiles, p, p),
{
    let w = seq![p];
    assert(is_walk(tiles, w));
}

/// A reachable position extends its walks by one move.
pub proof fn lemma_reachable_step(tiles: Seq<TileKind>, from: GridPos, a: GridPos, b: GridPos)
    requires
        reachable(tiles, from, a),
        step_ok(tiles, a, b),
    ensures
        reachable(tiles, from, b),
{
    let w = choose|w: Seq<GridPos>| #[trigger] is_walk(tiles, w) && w[0] == from && w.last() == a;
    let w2 = w.push(b);
    assert forall|i: int| 0 < i < w2.len() implies step_ok(tiles, w2[i - 1], #[trigger] w2[i]) by {
        if i < w.len() {
            assert(w2[i] == w[i] && w2[i - 1] == w[i - 1]);
        } else {
            assert(w2[i - 1] == a);
        }
    }
    assert(is_walk(tiles, w2));
}

/// A set of positions that holds the start of a walk and is closed under
/// moves holds every position of the walk.
pub proof fn lemma_closed_holds_walk(tiles: Seq<TileKind>, cells: Seq<GridPos>, w: Seq<GridPos>)
    requires
        is_walk(tiles, w),
        cells.contains(w[0]),
        forall|i: int, n: GridPos|
            0 <= i < cells.len() && #[trigger] step_ok(tiles, cells[i], n) ==> cells.contains(n),
    ensures
        forall|k: int| 0 <= k < w.len() ==> cells.contains(#[trigger] w[k]),
    decreases w.len(),
{
    if w.len() > 1 {
        let p = w.drop_last();
        assert forall|i: int| 0 < i < p.len() implies step_ok(tiles, p[i - 1], #[trigger] p[i]) by {
            assert(p[i] == w[i] && p[i - 1] == w[i - 1]);
        }
        lemma_closed_holds_walk(tiles, cells, p);
        let last = w.len() - 1;
        assert(cells.contains(p[last - 1]));
        let j = choose|j: int| 0 <= j < cells.len() && cells[j] == w[last - 1];
        assert(step_ok(tiles, w[last - 1], w[last]));
        assert(step_ok(tiles, cells[j], w[last]));
        assert forall|k: int| 0 <= k < w.len() implies cells.contains(#[trigger] w[k]) by {
            if k < last {
                assert(w[k] == p[k]);
            }
        }
    }
}

/// Number of `true` entries.
pub open spec fn count_true(s: Seq<bool>) -> nat
    decreases s.len(),
{
    if s.len() == 0 {
        0
    } else {
        count_true(s.drop_last()) + if s.last() { 1nat } else { 0nat }
    }
}

proof fn lemma_count_true_le_len(s: Seq<bool>)
    ensures
        count_true(s) <= s.len(),
    decreases s.len(),
{
    if s.len() > 0 {
        lemma_count_true_le_len(s.drop_last());
    }
}

proof fn lemma_count_true_all_false(s: Seq<bool>)
    requires
        forall|i: int| 0 <= i < s.len() ==> !s[i],
    ensures
        count_true(s) == 0,
    decreases s.len(),
{
    if s.len() > 0 {
        lemma_count_true_all_false(s.drop_last());
    }
}

proof fn lemma_count_true_set(s: Seq<bool>, k: int)
    requires
        0 <= k < s.len(),
        !s[k],
    ensures
        count_true(s.update(k, true)) == count_true(s) + 1,
    decreases s.len(),
{
    let u = s.update(k, true);
    if k == s.len() - 1 {
        assert(u.drop_last() =~= s.drop_last());
    } else {
        assert(u.drop_last() =~= s.drop_last().update(k, true));
        lemma_count_true_set(s.drop_last(), k);
    }
}

/// What the search keeps true of its state: the queue is the unprocessed
/// tail of every position ever queued, the seen marks are exactly the queued
/// positions, and every queued position is reachable from the start.
spec fn search_state(
    tiles: Seq<TileKind>,
    from: GridPos,
    visited: Seq<bool>,
    queue: Seq<GridPos>,
    order: Seq<GridPos>,
    head: int,
) -> bool {
    &&& visited.len() == 64
    &&& 0 <= head <= order.len()
    &&& queue == order.subrange(head, order.len() as int)
    &&& count_true(visited) == order.len()
    &&& order.len() >= 1
    &&& order[0] == from
    &&& forall|i: int| 0 <= i < order.len() ==> in_grid(#[trigger] order[i])
    &&& forall|p: GridPos| #![trigger pos_index(p)]
        in_grid(p) ==> (visited[pos_index(p)] <==> order.contains(p))
    &&& forall|i: int| 0 <= i < order.len() ==> reachable(tiles, from, #[trigger] order[i])
}

/// Look at the neighbour (nx, ny) of `cur`: when it lies inside the grid, is
/// not a wall and has not been seen yet, mark it seen and queue it.
fn visit_neighbor(
    layout: &RoomLayout,
    visited: &mut [bool; 64],
    queue: &mut VecDeque<GridPos>,
    cur: GridPos,
    nx: i32,
    ny: i32,
    Ghost(from): Ghost<GridPos>,
    Ghost(order): Ghost<Seq<GridPos>>,
    Ghost(head): Ghost<int>,
) -> (new_order: Ghost<Seq<GridPos>>)
    requires
        search_state(layout@, from, old(visited)@, old(queue)@, order, head),
        reachable(layout@, from, cur),
        in_grid(cur),
        (nx == cur.x - 1 && ny == cur.y) || (nx == cur.x + 1 && ny == cur.y)
            || (nx == cur.x && ny == cur.y - 1) || (nx == cur.x && ny == cur.y + 1),
    ensures
        search_state(layout@, from, final(visited)@, final(queue)@, new_order@, head),
        order.len() <= new_order@.len(),
        forall|i: int| 0 <= i < order.len() ==> new_order@[i] == #[trigger] order[i],
        forall|k: int| 0 <= k < 64 && old(visited)@[k] ==> #[trigger] final(visited)@[k],
        (0 <= nx < 8 && 0 <= ny < 8 && passable(layout@, GridPos { x: nx as u8, y: ny as u8 }))
            ==> final(visited)@[ny * 8 + nx],
{
    if nx < 0 || nx >= 8 || ny < 0 || ny >= 8 {
        return Ghost(order);
    }
    let x = nx as u8;
    let y = ny as u8;
    let p = GridPos { x, y };
    let k = (ny * 8 + nx) as usize;
    if visited[k] {
        return Ghost(order);
    }
    if layout.get(x, y) == TileKind::Wall {
        return Ghost(order);
    }
    let ghost v0 = visited@;
    visited[k] = true;
    queue.push_back(p);
    proof {
        assert(pos_index(p) == k);
        lemma_count_true_set(v0, k as int);
        assert(step_ok(layout@, cur, p));
        lemma_reachable_step(layout@, from, cur, p);
        let o2 = order.push(p);
        assert(queue@ =~= o2.subrange(head, o2.len() as int));
        assert forall|q: GridPos| #![trigger pos_index(q)]
            in_grid(q) implies (visited@[pos_index(q)] <==> o2.contains(q)) by {
            if q == p {
                assert(o2[o2.len() - 1] == p);
            } else {
                assert(pos_index(q) != pos_index(p));
                if order.contains(q) {
                    let j = choose|j: int| 0 <= j < order.len() && order[j] == q;
                    assert(o2[j] == q);
                }
                if o2.contains(q) {
                    let j = choose|j: int| 0 <= j < o2.len() && o2[j] == q;
                    assert(order[j] == q);
                }
            }
        }
        assert forall|i: int| 0 <= i < o2.len() implies reachable(layout@, from, #[trigger] o2[i]) by {
            if i < order.len() {
                assert(o2[i] == order[i]);
            }
        }
        assert forall|i: int| 0 <= i < o2.len() implies in_grid(#[trigger] o2[i]) by {
            if i < order.len() {
                assert(o2[i] == order[i]);
            }
        }
    }
    Ghost(order.push(p))
}

/// Breadth-first connectivity check treating Wall tiles as impassable.
pub fn is_reachable(from: GridPos, to: GridPos, layout: &RoomLayout) -> (r: bool)
    requires
        in_grid(from),
    ensures
        r == reachable(layout@, from, to),
{
    let mut visited = [false; 64];
    let mut queue: VecDeque<GridPos> = VecDeque::new();
    proof {
        lemma_count_true_all_false(visited@);
    }
    queue.push_back(from);
    let k0 = (from.y as usize) * 8 + (from.x as usize);
    let ghost v0 = visited@;
    visited[k0] = true;
    let ghost mut order: Seq<GridPos> = seq![from];
    let ghost mut head: int = 0;
    proof {
        lemma_count_true_set(v0, pos_index(from));
        lemma_reachable_refl(layout@, from);
        assert(queue@ =~= order.subrange(0, 1));
        assert forall|p: GridPos| #![trigger pos_index(p)]
            in_grid(p) implies (visited@[pos_index(p)] <==> order.contains(p)) by {
            if p == from {
                assert(order[0] == p);
            } else {
                assert(pos_index(p) != pos_index(from));
            }
        }
    }
    loop
        invariant
            search_state(layout@, from, visited@, queue@, order, head),
            forall|i: int| 0 <= i < head ==> #[trigger] order[i] != to,
            forall|i: int, n: GridPos|
                0 <= i < head && #[trigger] step_ok(layout@, order[i], n) ==> visited@[pos_index(n)],
        decreases 64 - head,
    {
        proof {
            lemma_count_true_le_len(visited@);
        }
        match queue.pop_front() {
            None => {
                proof {
                    assert(head == order.len());
                    assert forall|i: int, n: GridPos|
                        0 <= i < order.len() && #[trigger] step_ok(layout@, order[i], n)
                        implies order.contains(n) by {
                        assert(visited@[pos_index(n)]);
                    }
                    if reachable(layout@, from, to) {
                        let w = choose|w: Seq<GridPos>|
                            #[trigger] is_walk(layout@, w) && w[0] == from && w.last() == to;
                        lemma_closed_holds_walk(layout@, order, w);
                        assert(order.contains(w[w.len() - 1]));
                        assert(false);
                    }
                }
                return false;
            },
            Some(cur) => {
                let ghost cur_i = head;
                proof {
                    assert(cur == order[cur_i]);
                    head = head + 1;
                    assert(queue@ =~= order.subrange(head, order.len() as int));
                }
                if cur == to {
                    return true;
                }
                let cx = cur.x as i32;
                let cy = cur.y as i32;
                let ghost o_start = order;
                let ghost v_start = visited@;
                let Ghost(o1) = visit_neighbor(layout, &mut visited, &mut queue, cur, cx - 1, cy,
                    Ghost(from), Ghost(order), Ghost(head));
                let Ghost(o2) = visit_neighbor(layout, &mut visited, &mut queue, cur, cx + 1, cy,
                    Ghost(from), Ghost(o1), Ghost(head));
                let Ghost(o3) = visit_neighbor(layout, &mut visited, &mut queue, cur, cx, cy - 1,
                    Ghost(from), Ghost(o2), Ghost(head));
                let Ghost(o4) = visit_neighbor(layout, &mut visited, &mut queue, cur, cx, cy + 1,
                    Ghost(from), Ghost(o3), Ghost(head));
                proof {
                    order = o4;
                    assert forall|i: int| 0 <= i < head implies #[trigger] order[i] != to by {
                        assert(order[i] == o_start[i]);
                    }
                    assert forall|i: int, n: GridPos|
                        0 <= i < head && #[trigger] step_ok(layout@, order[i], n)
                        implies visited@[pos_index(n)] by {
                        assert(order[i] == o_start[i]);
                        if i < cur_i {
                            assert(v_start[pos_index(n)]);
                        } else {
                            assert(order[i] == cur);
                        }
                    }
                }
            },
        }
    }
}

} // verus!
