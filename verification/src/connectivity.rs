//! Flood-fill reachability over the grid.
//!
//! A breadth-first traversal from the starting tile over non-blocked tiles
//! with 8-directional adjacency computes, for every tile, the least number
//! of moves needed to reach it.  Unreached floor tiles are converted to
//! walls, and the reached floor tile with the greatest distance (ties
//! broken by raster order) is the canonical exit placement.

use crate::grid::{
    lemma_area_bounds, lemma_idx_coords, lemma_idx_injective, lemma_xy_idx_bounds, Grid, GridView,
    TileType,
};
use vstd::prelude::*;
use vstd::seq_lib::*;
use vstd::set_lib::*;

verus! {

/// The distance value that marks a tile the traversal never reached.
pub const UNREACHABLE: usize = usize::MAX;

/// A movement destination read off the blocked flags, as the movement
/// queries use it: inside the movement margin and not blocked.
pub open spec fn dest_ok_blocked(m: GridView, x: int, y: int) -> bool {
    &&& 1 <= x <= m.width - 1
    &&& 1 <= y <= m.height - 1
    &&& !m.blocked[y * m.width + x]
}

/// The one-element list holding `idx` when `(x, y)` is a valid movement
/// destination, empty otherwise.
pub open spec fn exit_entry(m: GridView, x: int, y: int, idx: int) -> Seq<usize> {
    if dest_ok_blocked(m, x, y) {
        seq![idx as usize]
    } else {
        Seq::empty()
    }
}

/// The valid cardinal movement destinations one step from `idx`.
pub open spec fn cardinal_exits_spec(m: GridView, idx: int) -> Seq<usize> {
    let x = idx % m.width;
    let y = idx / m.width;
    let w = m.width;
    exit_entry(m, x - 1, y, idx - 1) + exit_entry(m, x + 1, y, idx + 1) + exit_entry(
        m,
        x,
        y - 1,
        idx - w,
    ) + exit_entry(m, x, y + 1, idx + w)
}

/// The valid diagonal movement destinations one step from `idx`.
pub open spec fn diagonal_exits_spec(m: GridView, idx: int) -> Seq<usize> {
    let x = idx % m.width;
    let y = idx / m.width;
    let w = m.width;
    exit_entry(m, x - 1, y - 1, idx - w - 1) + exit_entry(m, x + 1, y - 1, idx - w + 1)
        + exit_entry(m, x - 1, y + 1, idx + w - 1) + exit_entry(m, x + 1, y + 1, idx + w + 1)
}

/// The valid movement destinations one step from `idx`, cardinals first,
/// then diagonals, as the movement queries enumerate them.
pub open spec fn exits_spec(m: GridView, idx: int) -> Seq<usize> {
    cardinal_exits_spec(m, idx) + diagonal_exits_spec(m, idx)
}

/// Tile index `i` is a valid movement destination on tiles `t`: it lies
/// inside the movement margin and is not a wall.
pub open spec fn dest_ok(t: Seq<TileType>, w: int, h: int, i: int) -> bool {
    &&& 1 <= i % w <= w - 1
    &&& 1 <= i / w <= h - 1
    &&& t[i] != TileType::Wall
}

/// One move from tile `a` to tile `b`: the tiles are distinct, their
/// coordinates differ by at most one along each axis, and `b` is a valid
/// destination.
pub open spec fn step(t: Seq<TileType>, w: int, h: int, a: int, b: int) -> bool {
    &&& a != b
    &&& -1 <= b % w - a % w <= 1
    &&& -1 <= b / w - a / w <= 1
    &&& dest_ok(t, w, h, b)
}

/// Tile `i` can be reached from `s` in at most `d` moves.
pub open spec fn reachable_within(
    t: Seq<TileType>,
    w: int,
    h: int,
    s: int,
    i: int,
    d: nat,
) -> bool
    decreases d,
{
    if i == s {
        true
    } else if d == 0 {
        false
    } else {
        exists|u: int|
            step(t, w, h, u, i) && reachable_within(t, w, h, s, u, (d - 1) as nat)
    }
}

/// Tile `i` can be reached from `s` in some number of moves.
pub open spec fn reachable(t: Seq<TileType>, w: int, h: int, s: int, i: int) -> bool {
    exists|d: nat| reachable_within(t, w, h, s, i, d)
}

/// The least number of moves needed to reach `i` from `s` is exactly `d`.
pub open spec fn has_dist(t: Seq<TileType>, w: int, h: int, s: int, i: int, d: nat) -> bool {
    &&& reachable_within(t, w, h, s, i, d)
    &&& (d == 0 || !reachable_within(t, w, h, s, i, (d - 1) as nat))
}

/// The least number of moves needed to reach `i` from `s`.
pub open spec fn dist_of(t: Seq<TileType>, w: int, h: int, s: int, i: int) -> nat {
    choose|d: nat| has_dist(t, w, h, s, i, d)
}

/// The tiles after culling: every floor tile the traversal cannot reach
/// from `s` becomes a wall; all other tiles keep their classification.
pub open spec fn cull_tiles(t: Seq<TileType>, w: int, h: int, s: int) -> Seq<TileType> {
    Seq::new(
        t.len(),
        |i: int|
            if t[i] == TileType::Floor && !reachable(t, w, h, s, i) {
                TileType::Wall
            } else {
                t[i]
            },
    )
}

/// On culled tiles `t`, tile `e` is the canonical exit: a reachable floor
/// tile whose distance from `s` is maximal, and the first such tile in
/// raster order.
pub open spec fn is_farthest_exit(t: Seq<TileType>, w: int, h: int, s: int, e: int) -> bool {
    &&& 0 <= e < t.len()
    &&& t[e] == TileType::Floor
    &&& reachable(t, w, h, s, e)
    &&& forall|j: int|
        0 <= j < t.len() && t[j] == TileType::Floor && reachable(t, w, h, s, j) ==> (dist_of(
            t,
            w,
            h,
            s,
            j,
        ) < dist_of(t, w, h, s, e) || (dist_of(t, w, h, s, j) == dist_of(t, w, h, s, e) && e
            <= j))
}

/// The canonical exit tile of the culled grid.
pub open spec fn exit_spec(t: Seq<TileType>, w: int, h: int, s: int) -> int {
    choose|e: int| is_farthest_exit(cull_tiles(t, w, h, s), w, h, s, e)
}

/// Reaching a tile within `d` moves also reaches it within any larger
/// budget.
pub proof fn lemma_rw_monotone(t: Seq<TileType>, w: int, h: int, s: int, i: int, d1: nat, d2: nat)
    requires
        reachable_within(t, w, h, s, i, d1),
        d1 <= d2,
    ensures
        reachable_within(t, w, h, s, i, d2),
    decreases d1,
{
    if i == s {
    } else {
        let u = choose|u: int|
            step(t, w, h, u, i) && reachable_within(t, w, h, s, u, (d1 - 1) as nat);
        lemma_rw_monotone(t, w, h, s, u, (d1 - 1) as nat, (d2 - 1) as nat);
        assert(step(t, w, h, u, i) && reachable_within(t, w, h, s, u, (d2 - 1) as nat));
    }
}

/// A move out of a tile reached within `d` moves reaches its target
/// within `d + 1` moves.
pub proof fn lemma_rw_step_extend(t: Seq<TileType>, w: int, h: int, s: int, u: int, i: int, d: nat)
    requires
        reachable_within(t, w, h, s, u, d),
        step(t, w, h, u, i),
    ensures
        reachable_within(t, w, h, s, i, (d + 1) as nat),
{
    if i == s {
    } else {
        assert(step(t, w, h, u, i) && reachable_within(t, w, h, s, u, d));
    }
}

/// A reached tile lies on the grid, and is a valid destination unless it
/// is the start itself.
pub proof fn lemma_rw_bounds(t: Seq<TileType>, w: int, h: int, s: int, i: int, d: nat)
    requires
        0 < w,
        0 < h,
        t.len() == w * h,
        0 <= s < t.len(),
        reachable_within(t, w, h, s, i, d),
    ensures
        0 <= i < t.len(),
        i == s || dest_ok(t, w, h, i),
{
    if i != s {
        let u = choose|u: int|
            step(t, w, h, u, i) && reachable_within(t, w, h, s, u, (d - 1) as nat);
        assert(dest_ok(t, w, h, i));
        assert(i == (i / w) * w + i % w) by (nonlinear_arith)
            requires 0 < w
        ;
        assert(i < t.len()) by (nonlinear_arith)
            requires
                t.len() == w * h,
                i == (i / w) * w + i % w,
                i / w <= h - 1,
                i % w <= w - 1,
                0 < w,
        ;
        assert(0 <= i) by (nonlinear_arith)
            requires
                i == (i / w) * w + i % w,
                1 <= i / w,
                1 <= i % w,
                0 < w,
        ;
    }
}

/// Two tile sequences with the same walls have the same reachability.
pub proof fn lemma_rw_same_walls(
    t1: Seq<TileType>,
    t2: Seq<TileType>,
    w: int,
    h: int,
    s: int,
    i: int,
    d: nat,
)
    requires
        t1.len() == t2.len(),
        forall|j: int| 0 <= j < t1.len() ==> ((t1[j] == TileType::Wall) <==> (t2[j]
            == TileType::Wall)),
        0 < w,
        0 < h,
        t1.len() == w * h,
        0 <= s < t1.len(),
        reachable_within(t1, w, h, s, i, d),
    ensures
        reachable_within(t2, w, h, s, i, d),
    decreases d,
{
    if i == s {
    } else {
        let u = choose|u: int|
            step(t1, w, h, u, i) && reachable_within(t1, w, h, s, u, (d - 1) as nat);
        lemma_rw_same_walls(t1, t2, w, h, s, u, (d - 1) as nat);
        lemma_rw_bounds(t1, w, h, s, i, d);
        assert(step(t2, w, h, u, i) && reachable_within(t2, w, h, s, u, (d - 1) as nat));
    }
}

/// Every reached tile has an exact least distance, no larger than any
/// budget that reaches it.
pub proof fn lemma_exists_exact(t: Seq<TileType>, w: int, h: int, s: int, i: int, d0: nat)
    requires
        reachable_within(t, w, h, s, i, d0),
    ensures
        exists|d: nat| has_dist(t, w, h, s, i, d) && d <= d0,
    decreases d0,
{
    if d0 == 0 {
        assert(has_dist(t, w, h, s, i, 0));
    } else if !reachable_within(t, w, h, s, i, (d0 - 1) as nat) {
        assert(has_dist(t, w, h, s, i, d0));
    } else {
        lemma_exists_exact(t, w, h, s, i, (d0 - 1) as nat);
    }
}

/// The exact least distance is unique.
pub proof fn lemma_has_dist_unique(
    t: Seq<TileType>,
    w: int,
    h: int,
    s: int,
    i: int,
    d1: nat,
    d2: nat,
)
    requires
        has_dist(t, w, h, s, i, d1),
        has_dist(t, w, h, s, i, d2),
    ensures
        d1 == d2,
{
    if d1 < d2 {
        lemma_rw_monotone(t, w, h, s, i, d1, (d2 - 1) as nat);
    } else if d2 < d1 {
        lemma_rw_monotone(t, w, h, s, i, d2, (d1 - 1) as nat);
    }
}

/// An exact least distance determines `dist_of`.
pub proof fn lemma_dist_of(t: Seq<TileType>, w: int, h: int, s: int, i: int, d: nat)
    requires
        has_dist(t, w, h, s, i, d),
    ensures
        dist_of(t, w, h, s, i) == d,
{
    let dc = choose|dd: nat| has_dist(t, w, h, s, i, dd);
    lemma_has_dist_unique(t, w, h, s, i, dc, d);
}

/// Culling keeps every path from the start intact: reachability within a
/// budget carries over to the culled tiles.
pub proof fn lemma_rw_cull_forward(t: Seq<TileType>, w: int, h: int, s: int, i: int, d: nat)
    requires
        0 < w,
        0 < h,
        t.len() == w * h,
        0 <= s < t.len(),
        reachable_within(t, w, h, s, i, d),
    ensures
        reachable_within(cull_tiles(t, w, h, s), w, h, s, i, d),
    decreases d,
{
    let tc = cull_tiles(t, w, h, s);
    if i == s {
    } else {
        let u = choose|u: int|
            step(t, w, h, u, i) && reachable_within(t, w, h, s, u, (d - 1) as nat);
        lemma_rw_cull_forward(t, w, h, s, u, (d - 1) as nat);
        lemma_rw_bounds(t, w, h, s, i, d);
        assert(reachable(t, w, h, s, i)) by {
            assert(reachable_within(t, w, h, s, i, d));
        };
        assert(tc[i] == t[i]);
        assert(step(tc, w, h, u, i) && reachable_within(tc, w, h, s, u, (d - 1) as nat));
    }
}

/// Culling adds no paths: reachability over the culled tiles reflects
/// back to the unculled tiles.
pub proof fn lemma_rw_cull_back(t: Seq<TileType>, w: int, h: int, s: int, i: int, d: nat)
    requires
        0 < w,
        0 < h,
        t.len() == w * h,
        0 <= s < t.len(),
        reachable_within(cull_tiles(t, w, h, s), w, h, s, i, d),
    ensures
        reachable_within(t, w, h, s, i, d),
    decreases d,
{
    let tc = cull_tiles(t, w, h, s);
    if i == s {
    } else {
        let u = choose|u: int|
            step(tc, w, h, u, i) && reachable_within(tc, w, h, s, u, (d - 1) as nat);
        lemma_rw_cull_back(t, w, h, s, u, (d - 1) as nat);
        lemma_rw_bounds(tc, w, h, s, i, d);
        assert(t[i] != TileType::Wall);
        assert(step(t, w, h, u, i) && reachable_within(t, w, h, s, u, (d - 1) as nat));
    }
}

/// A sequence of distinct indices below `n` has at most `n` elements.
proof fn lemma_distinct_bounded_len(q: Seq<usize>, n: int)
    requires
        q.no_duplicates(),
        forall|k: int| 0 <= k < q.len() ==> (#[trigger] q[k]) < n,
        0 <= n,
    ensures
        q.len() <= n,
{
    let qi = q.map_values(|v: usize| v as int);
    assert(qi.no_duplicates()) by {
        assert forall|i: int, j: int|
            0 <= i < qi.len() && 0 <= j < qi.len() && i != j implies qi[i] != qi[j] by {
            assert(q[i] != q[j]);
        };
    };
    qi.unique_seq_to_set();
    assert(qi.to_set().subset_of(set_int_range(0, n))) by {
        assert forall|e: int| qi.to_set().contains(e) implies set_int_range(0, n).contains(e) by {
            let k = choose|k: int| 0 <= k < qi.len() && qi[k] == e;
            assert(q[k] < n);
        };
    };
    lemma_int_range(0, n);
    lemma_len_subset(qi.to_set(), set_int_range(0, n));
}

/// The invariant of the breadth-first traversal: `dist` records a sound
/// and queue-ordered distance for every visited tile, every visited tile
/// sits in `queue` exactly once, and every neighbor of an already
/// processed tile (one before `head`) has been visited.
pub open spec fn bfs_state_ok(
    t: Seq<TileType>,
    w: int,
    h: int,
    s: int,
    dist: Seq<usize>,
    queue: Seq<usize>,
    head: int,
) -> bool {
    &&& dist.len() == t.len()
    &&& t.len() == w * h
    &&& 0 < w
    &&& 0 < h
    &&& t.len() <= 16777216
    &&& 0 <= s < t.len()
    &&& t[s] == TileType::Floor
    &&& dist[s] == 0
    &&& 0 <= head <= queue.len()
    &&& queue.len() <= t.len()
    &&& queue.no_duplicates()
    &&& forall|k: int| 0 <= k < queue.len() ==> (#[trigger] queue[k]) < t.len()
    &&& forall|k: int| 0 <= k < queue.len() ==> dist[#[trigger] queue[k] as int] as int <= k
    &&& forall|i: int|
        0 <= i < t.len() && #[trigger] dist[i] != UNREACHABLE ==> queue.contains(i as usize)
    &&& forall|i: int|
        0 <= i < t.len() && #[trigger] dist[i] != UNREACHABLE ==> reachable_within(
            t,
            w,
            h,
            s,
            i,
            dist[i] as nat,
        )
    &&& forall|i: int|
        0 <= i < t.len() && #[trigger] dist[i] != UNREACHABLE ==> (i == s || dest_ok(t, w, h, i))
    &&& forall|k1: int, k2: int|
        0 <= k1 <= k2 < queue.len() ==> dist[#[trigger] queue[k1] as int] <= dist[
            #[trigger] queue[k2] as int
        ]
    &&& (head < queue.len() ==> dist[queue[queue.len() - 1] as int] as int <= dist[queue[head] as int]
        + 1)
    &&& forall|k: int, v: int|
        0 <= k < head && 0 <= v < t.len() && #[trigger] step(t, w, h, queue[k] as int, v) ==> dist[v]
            != UNREACHABLE && dist[v] as int <= dist[queue[k] as int] + 1
}

/// Visits one neighbor candidate `(nx, ny)` of the tile at queue position
/// `head`: if the candidate is a valid destination not yet visited, it
/// receives distance one beyond its parent and joins the queue.
fn try_push(
    map: &Grid,
    dist: &mut Vec<usize>,
    queue: &mut Vec<usize>,
    head: usize,
    nx: i64,
    ny: i64,
    Ghost(s): Ghost<int>,
)
    requires
        map@.wf(),
        bfs_state_ok(
            map@.tiles,
            map@.width,
            map@.height,
            s,
            old(dist)@,
            old(queue)@,
            head as int,
        ),
        head < old(queue)@.len(),
        ({
            let u = old(queue)@[head as int] as int;
            &&& -1 <= nx - u % map@.width <= 1
            &&& -1 <= ny - u / map@.width <= 1
            &&& !(nx == u % map@.width && ny == u / map@.width)
        }),
    ensures
        bfs_state_ok(
            map@.tiles,
            map@.width,
            map@.height,
            s,
            final(dist)@,
            final(queue)@,
            head as int,
        ),
        final(queue)@.len() >= old(queue)@.len(),
        old(queue)@ == final(queue)@.subrange(0, old(queue)@.len() as int),
        head < final(queue)@.len(),
        forall|i: int|
            0 <= i < old(dist)@.len() && old(dist)@[i] != UNREACHABLE ==> final(dist)@[i] == old(
                dist,
            )@[i],
        forall|v: int|
            0 <= v < map@.tiles.len() && v % map@.width == nx && v / map@.width == ny && dest_ok(
                map@.tiles,
                map@.width,
                map@.height,
                v,
            ) ==> final(dist)@[v] != UNREACHABLE && final(dist)@[v] as int <= old(dist)@[old(
                queue,
            )@[head as int] as int] as int + 1,
{
    let ghost t = map@.tiles;
    let ghost w = map@.width;
    let ghost h = map@.height;
    let ghost dist0 = dist@;
    let ghost queue0 = queue@;
    if nx >= 1 && nx <= (map.width as i64) - 1 && ny >= 1 && ny <= (map.height as i64) - 1 {
        proof {
            lemma_xy_idx_bounds(w, h, nx as int, ny as int);
            lemma_area_bounds(w, h);
        }
        let nidx: usize = (ny as usize) * (map.width as usize) + (nx as usize);
        proof {
            lemma_idx_coords(w, h, nidx as int);
            lemma_idx_injective(w, nidx as int % w, nidx as int / w, nx as int, ny as int);
        }
        let u = queue[head];
        let du = dist[u];
        proof {
            assert forall|v: int|
                0 <= v < t.len() && v % w == nx && v / w == ny && #[trigger] dest_ok(
                    t,
                    w,
                    h,
                    v,
                ) implies v == nidx as int by {
                lemma_idx_coords(w, h, v);
            };
        }
        if map.tiles[nidx] != TileType::Wall {
            assert(dest_ok(t, w, h, nidx as int));
            assert(step(t, w, h, u as int, nidx as int)) by {
                assert(dist0[u as int] != UNREACHABLE);
                assert(dist0[nidx as int] == UNREACHABLE ==> u as int != nidx as int);
                if u as int == nidx as int {
                } else {
                }
            };
            if dist[nidx] == UNREACHABLE {
                assert(u as int != nidx as int);
                let nd = du + 1;
                dist.set(nidx, nd);
                queue.push(nidx);
                proof {
                    let dist1 = dist@;
                    let queue1 = queue@;
                    let n = t.len();
                    assert(queue1 == queue0.push(nidx));
                    assert(dist1 == dist0.update(nidx as int, nd));
                    // the new tile was not yet in the queue
                    assert(!queue0.contains(nidx)) by {
                        if queue0.contains(nidx) {
                            let k = choose|k: int|
                                0 <= k < queue0.len() && queue0[k] == nidx;
                            assert(dist0[queue0[k] as int] as int <= k);
                        }
                    };
                    assert(queue1.no_duplicates()) by {
                        assert forall|i: int, j: int|
                            0 <= i < queue1.len() && 0 <= j < queue1.len() && i != j
                            implies queue1[i] != queue1[j] by {
                            if i < queue0.len() && j < queue0.len() {
                            } else if i == queue0.len() {
                                assert(queue0.contains(queue0[j]));
                            } else {
                                assert(queue0.contains(queue0[i]));
                            }
                        };
                    };
                    lemma_distinct_bounded_len(queue1, n as int);
                    // soundness of the new distance
                    assert(reachable_within(t, w, h, s, nidx as int, nd as nat)) by {
                        assert(reachable_within(t, w, h, s, u as int, du as nat));
                        lemma_rw_step_extend(t, w, h, s, u as int, nidx as int, du as nat);
                    };
                    // per-position distance bound for the new element
                    assert(du as int <= head as int);
                    // order of the enlarged queue
                    assert forall|k1: int, k2: int|
                        0 <= k1 <= k2 < queue1.len() implies dist1[queue1[k1] as int] <= dist1[
                        queue1[k2] as int
                    ] by {
                        if k2 < queue0.len() {
                            assert(dist0[queue0[k1] as int] <= dist0[queue0[k2] as int]);
                        } else if k1 < queue0.len() {
                            assert(dist0[queue0[k1] as int] <= dist0[queue0[queue0.len() - 1] as int]);
                            assert(dist0[queue0[queue0.len() - 1] as int] as int <= du + 1);
                        }
                    };
                    assert forall|i: int|
                        0 <= i < n && #[trigger] dist1[i] != UNREACHABLE
                        implies queue1.contains(i as usize) by {
                        if i != nidx as int {
                            assert(dist0[i] != UNREACHABLE);
                            let k = choose|k: int|
                                0 <= k < queue0.len() && queue0[k] == i as usize;
                            assert(queue1[k] == i as usize);
                        } else {
                            assert(queue1[queue0.len() as int] == nidx);
                        }
                    };
                    assert(dist1[s] == 0);
                    assert(queue1.len() <= n);
                    assert forall|k: int| 0 <= k < queue1.len() implies (#[trigger] queue1[k])
                        < n by {
                        if k < queue0.len() {
                            assert(queue1[k] == queue0[k]);
                        }
                    };
                    assert forall|k: int| 0 <= k < queue1.len() implies dist1[
                        #[trigger] queue1[k] as int
                    ] as int <= k by {
                        if k < queue0.len() {
                            assert(queue1[k] == queue0[k]);
                            assert(queue0[k] != nidx);
                            assert(dist0[queue0[k] as int] as int <= k);
                        } else {
                            assert(queue1[k] == nidx);
                            assert(du as int <= head as int);
                        }
                    };
                    assert forall|i: int|
                        0 <= i < n && #[trigger] dist1[i] != UNREACHABLE
                        implies reachable_within(t, w, h, s, i, dist1[i] as nat) by {
                        if i != nidx as int {
                            assert(dist1[i] == dist0[i]);
                        }
                    };
                    assert forall|i: int|
                        0 <= i < n && #[trigger] dist1[i] != UNREACHABLE
                        implies (i == s || dest_ok(t, w, h, i)) by {
                        if i != nidx as int {
                            assert(dist1[i] == dist0[i]);
                        }
                    };
                    assert(head < queue1.len() ==> dist1[queue1[queue1.len() - 1] as int] as int
                        <= dist1[queue1[head as int] as int] + 1) by {
                        assert(queue1[head as int] == queue0[head as int]);
                        assert(queue0[head as int] != nidx);
                        assert(queue1[queue1.len() - 1] == nidx);
                    };
                    assert forall|k: int, v: int|
                        0 <= k < head && 0 <= v < n && #[trigger] step(t, w, h, queue1[k] as int, v)
                        implies dist1[v] != UNREACHABLE && dist1[v] as int <= dist1[queue1[k] as int]
                        + 1 by {
                        assert(queue1[k] == queue0[k]);
                        assert(step(t, w, h, queue0[k] as int, v));
                        assert(dist0[v] != UNREACHABLE);
                        assert(v != nidx as int);
                        assert(queue0[k] != nidx);
                    };
                    assert(bfs_state_ok(t, w, h, s, dist1, queue1, head as int));
                }
            } else {
                proof {
                    let k = choose|k: int| 0 <= k < queue0.len() && queue0[k] == nidx;
                    assert(dist0[queue0[k] as int] <= dist0[queue0[queue0.len() - 1] as int]);
                    assert(dist0[queue0[queue0.len() - 1] as int] as int <= dist0[queue0[head as int] as int] + 1);
                }
            }
        }
    }
}

pub proof fn lemma_farthest_exit_unique(
    t: Seq<TileType>,
    w: int,
    h: int,
    s: int,
    e1: int,
    e2: int,
)
    requires
        is_farthest_exit(t, w, h, s, e1),
        is_farthest_exit(t, w, h, s, e2),
    ensures
        e1 == e2,
{
    assert(dist_of(t, w, h, s, e2) < dist_of(t, w, h, s, e1) || (dist_of(t, w, h, s, e2)
        == dist_of(t, w, h, s, e1) && e1 <= e2));
    assert(dist_of(t, w, h, s, e1) < dist_of(t, w, h, s, e2) || (dist_of(t, w, h, s, e1)
        == dist_of(t, w, h, s, e2) && e2 <= e1));
}


/// After the traversal has drained its queue, every tile reachable within
/// any budget has been visited with a distance no larger than that budget.
proof fn lemma_bfs_complete(
    t: Seq<TileType>,
    w: int,
    h: int,
    s: int,
    dist: Seq<usize>,
    queue: Seq<usize>,
    i: int,
    d: nat,
)
    requires
        bfs_state_ok(t, w, h, s, dist, queue, queue.len() as int),
        reachable_within(t, w, h, s, i, d),
        0 <= i < t.len(),
    ensures
        dist[i] != UNREACHABLE,
        dist[i] as nat <= d,
    decreases d,
{
    if i == s {
    } else {
        let u = choose|u: int|
            step(t, w, h, u, i) && reachable_within(t, w, h, s, u, (d - 1) as nat);
        lemma_rw_bounds(t, w, h, s, u, (d - 1) as nat);
        lemma_bfs_complete(t, w, h, s, dist, queue, u, (d - 1) as nat);
        assert(queue.contains(u as usize));
        let k = choose|k: int| 0 <= k < queue.len() && queue[k] == u as usize;
        assert(step(t, w, h, queue[k] as int, i));
        assert(dist[i] != UNREACHABLE && dist[i] as int <= dist[u] + 1);
    }
}

/// Processes the tile at queue position `head`: visits all eight of its
/// neighbor candidates, after which every neighbor it can step to has
/// been reached.
#[verifier::rlimit(100)]
#[verifier::spinoff_prover]
fn expand_node(
    map: &Grid,
    dist: &mut Vec<usize>,
    queue: &mut Vec<usize>,
    head: usize,
    Ghost(s): Ghost<int>,
)
    requires
        map@.wf(),
        bfs_state_ok(
            map@.tiles,
            map@.width,
            map@.height,
            s,
            old(dist)@,
            old(queue)@,
            head as int,
        ),
        head < old(queue)@.len(),
    ensures
        bfs_state_ok(
            map@.tiles,
            map@.width,
            map@.height,
            s,
            final(dist)@,
            final(queue)@,
            head as int + 1,
        ),
        head < final(queue)@.len(),
{
    let ghost t = map@.tiles;
    let ghost w = map@.width;
    let ghost h = map@.height;
    let ghost n = t.len();
    let u = queue[head];
    let du = dist[u];
    let x = (u % (map.width as usize)) as i64;
    let y = (u / (map.width as usize)) as i64;
    proof {
        assert(x == u as int % w);
        assert(y == u as int / w);
    }
    try_push(map, dist, queue, head, x - 1, y, Ghost(s));
    try_push(map, dist, queue, head, x + 1, y, Ghost(s));
    try_push(map, dist, queue, head, x, y - 1, Ghost(s));
    try_push(map, dist, queue, head, x, y + 1, Ghost(s));
    try_push(map, dist, queue, head, x - 1, y - 1, Ghost(s));
    try_push(map, dist, queue, head, x + 1, y - 1, Ghost(s));
    try_push(map, dist, queue, head, x - 1, y + 1, Ghost(s));
    try_push(map, dist, queue, head, x + 1, y + 1, Ghost(s));
    proof {
        let dist1 = dist@;
        let queue1 = queue@;
        assert(queue1[head as int] == u);
        assert(dist1[u as int] == du);
        assert forall|v: int|
            0 <= v < n && #[trigger] step(t, w, h, u as int, v) implies dist1[v] != UNREACHABLE
            && dist1[v] as int <= du + 1 by {
            let vx = v % w;
            let vy = v / w;
            assert(dest_ok(t, w, h, v));
            assert(-1 <= vx - x <= 1);
            assert(-1 <= vy - y <= 1);
            assert(!(vx == x && vy == y)) by {
                lemma_idx_coords(w, h, v);
                lemma_idx_coords(w, h, u as int);
            };
        };
        // the new head also satisfies the processed-closure clause
        assert forall|k: int, v: int|
            0 <= k < head as int + 1 && 0 <= v < n && #[trigger] step(
                t,
                w,
                h,
                queue1[k] as int,
                v,
            ) implies dist1[v] != UNREACHABLE && dist1[v] as int <= dist1[queue1[k] as int]
            + 1 by {
            if k == head as int {
                assert(queue1[k] == u);
            }
        };
        assert(head as int + 1 < queue1.len() ==> dist1[queue1[queue1.len() - 1] as int] as int
            <= dist1[queue1[head as int + 1] as int] + 1);
        assert(bfs_state_ok(t, w, h, s, dist1, queue1, head as int + 1));
    }
}

/// The least move count from `start` to every tile the traversal reaches;
/// tiles it cannot reach hold [`UNREACHABLE`].
#[verifier::rlimit(100)]
#[verifier::spinoff_prover]
fn bfs_distances(map: &Grid, start: usize) -> (dist: Vec<usize>)
    requires
        map@.wf(),
        start < map@.tiles.len(),
        map@.tiles[start as int] == TileType::Floor,
    ensures
        dist@.len() == map@.tiles.len(),
        dist@[start as int] == 0,
        forall|i: int|
            0 <= i < dist@.len() && #[trigger] dist@[i] != UNREACHABLE ==> reachable_within(
                map@.tiles,
                map@.width,
                map@.height,
                start as int,
                i,
                dist@[i] as nat,
            ),
        forall|i: int, d: nat|
            0 <= i < dist@.len() && #[trigger] reachable_within(
                map@.tiles,
                map@.width,
                map@.height,
                start as int,
                i,
                d,
            ) ==> dist@[i] != UNREACHABLE && dist@[i] as nat <= d,
        forall|i: int|
            0 <= i < dist@.len() && #[trigger] dist@[i] != UNREACHABLE ==> (i == start as int
                || dest_ok(map@.tiles, map@.width, map@.height, i)),
{
    let ghost t = map@.tiles;
    let ghost w = map@.width;
    let ghost h = map@.height;
    let n = map.tiles.len();
    proof {
        lemma_area_bounds(w, h);
    }
    let mut dist = crate::grid::filled_vec(n, UNREACHABLE);
    let mut queue: Vec<usize> = Vec::new();
    dist.set(start, 0);
    queue.push(start);
    let mut head: usize = 0;
    proof {
        assert(reachable_within(t, w, h, start as int, start as int, 0));
        assert(queue@.len() == 1 && queue@[0] == start);
        assert(queue@.no_duplicates());
        assert forall|i: int|
            0 <= i < n && #[trigger] dist@[i] != UNREACHABLE implies queue@.contains(
            i as usize,
        ) by {
            assert(i == start as int);
            assert(queue@[0] == start);
        };
        assert(bfs_state_ok(t, w, h, start as int, dist@, queue@, 0));
    }
    while head < queue.len()
        invariant
            map@.wf(),
            n == map@.tiles.len(),
            t == map@.tiles,
            w == map@.width,
            h == map@.height,
            start < n,
            head <= queue@.len(),
            bfs_state_ok(t, w, h, start as int, dist@, queue@, head as int),
        decreases n - head,
    {
        expand_node(map, &mut dist, &mut queue, head, Ghost(start as int));
        head = head + 1;
    }
    proof {
        assert forall|i: int, d: nat|
            0 <= i < dist@.len() && #[trigger] reachable_within(t, w, h, start as int, i, d)
            implies dist@[i] != UNREACHABLE && dist@[i] as nat <= d by {
            lemma_bfs_complete(t, w, h, start as int, dist@, queue@, i, d);
        };
    }
    dist
}


/// Flood-fills from `start_idx`, converts every floor tile the fill cannot
/// reach into a wall, and returns the reached floor tile with the greatest
/// distance from the start (ties broken by raster order): the canonical
/// exit placement.  The blocked flags are rebuilt from the tile
/// classifications as they stood on entry.
#[verifier::loop_isolation(false)]
#[verifier::rlimit(100)]
pub fn remove_unreachable_areas_returning_most_distant(map: &mut Grid, start_idx: usize) -> (exit_idx: usize)
    requires
        old(map)@.wf(),
        start_idx < old(map)@.tiles.len(),
        old(map)@.tiles[start_idx as int] == TileType::Floor,
    ensures
        final(map)@.wf(),
        final(map)@ == (GridView {
            tiles: cull_tiles(old(map)@.tiles, old(map)@.width, old(map)@.height, start_idx as int),
            blocked: Seq::new(
                old(map)@.tiles.len(),
                |i: int| old(map)@.tiles[i] == TileType::Wall,
            ),
            ..old(map)@
        }),
        exit_idx < final(map)@.tiles.len(),
        final(map)@.tiles[exit_idx as int] == TileType::Floor,
        final(map)@.tiles[start_idx as int] == TileType::Floor,
        is_farthest_exit(
            final(map)@.tiles,
            final(map)@.width,
            final(map)@.height,
            start_idx as int,
            exit_idx as int,
        ),
        exit_idx as int == exit_spec(
            old(map)@.tiles,
            old(map)@.width,
            old(map)@.height,
            start_idx as int,
        ),
        forall|i: int|
            0 <= i < final(map)@.tiles.len() && final(map)@.tiles[i] == TileType::Floor
                ==> reachable(
                final(map)@.tiles,
                final(map)@.width,
                final(map)@.height,
                start_idx as int,
                i,
            ),
{
    let ghost t = old(map)@.tiles;
    let ghost w = old(map)@.width;
    let ghost h = old(map)@.height;
    let ghost s = start_idx as int;
    let ghost tc = cull_tiles(t, w, h, s);
    proof {
        lemma_area_bounds(w, h);
    }
    map.populate_blocked();
    let dist = bfs_distances(map, start_idx);
    proof {
        // a tile is visited exactly when it is reachable
        assert forall|i: int| 0 <= i < t.len() implies (#[trigger] dist@[i] != UNREACHABLE
            <==> reachable(t, w, h, s, i)) by {
            if dist@[i] != UNREACHABLE {
                assert(reachable_within(t, w, h, s, i, dist@[i] as nat));
            }
            if reachable(t, w, h, s, i) {
                let d = choose|d: nat| reachable_within(t, w, h, s, i, d);
                assert(reachable_within(t, w, h, s, i, d));
                assert(dist@[i] != UNREACHABLE);
            }
        };
        // on the culled tiles, each visited tile keeps its exact distance
        assert forall|i: int|
            0 <= i < t.len() && #[trigger] dist@[i] != UNREACHABLE implies has_dist(
            tc,
            w,
            h,
            s,
            i,
            dist@[i] as nat,
        ) by {
            lemma_rw_cull_forward(t, w, h, s, i, dist@[i] as nat);
            if dist@[i] as nat > 0 && reachable_within(tc, w, h, s, i, (dist@[i] - 1) as nat) {
                lemma_rw_cull_back(t, w, h, s, i, (dist@[i] - 1) as nat);
                assert(dist@[i] as int <= dist@[i] - 1);
            }
        };
        // culling adds no reachable tiles
        assert forall|i: int|
            0 <= i < t.len() && #[trigger] reachable(tc, w, h, s, i) implies dist@[i]
            != UNREACHABLE by {
            let d = choose|d: nat| reachable_within(tc, w, h, s, i, d);
            lemma_rw_cull_back(t, w, h, s, i, d);
        };
        // only the start sits at distance zero
        assert forall|j: int|
            0 <= j < t.len() && #[trigger] dist@[j] != UNREACHABLE && j != s implies 1
            <= dist@[j] by {
            if dist@[j] == 0 {
                assert(reachable_within(t, w, h, s, j, 0));
            }
        };
    }
    let n = map.tiles.len();
    let mut new_tiles: Vec<TileType> = Vec::new();
    let mut exit_idx: usize = start_idx;
    let mut exit_dist: usize = 0;
    let mut i: usize = 0;
    while i < n
        invariant
            i <= n,
            new_tiles@.len() == i,
            forall|j: int| 0 <= j < i ==> new_tiles@[j] == tc[j],
            exit_idx < n,
            dist@[exit_idx as int] != UNREACHABLE,
            t[exit_idx as int] == TileType::Floor,
            exit_dist == dist@[exit_idx as int],
            forall|j: int|
                0 <= j < i && t[j] == TileType::Floor && #[trigger] dist@[j] != UNREACHABLE
                    ==> dist@[j] <= exit_dist,
            forall|j: int|
                0 <= j < i && j < exit_idx && t[j] == TileType::Floor && #[trigger] dist@[j]
                    != UNREACHABLE ==> dist@[j] < exit_dist,
            exit_idx as int <= i as int || (exit_idx == start_idx && exit_dist == 0),
        decreases n - i,
    {
        let tl = map.tiles[i];
        if tl == TileType::Floor {
            if dist[i] == UNREACHABLE {
                new_tiles.push(TileType::Wall);
            } else {
                new_tiles.push(TileType::Floor);
                if dist[i] > exit_dist {
                    exit_idx = i;
                    exit_dist = dist[i];
                }
            }
        } else {
            new_tiles.push(tl);
        }
        i = i + 1;
    }
    map.tiles = new_tiles;
    proof {
        assert(map@.tiles =~= tc);
        assert(tc[exit_idx as int] == TileType::Floor);
        assert(has_dist(tc, w, h, s, exit_idx as int, exit_dist as nat));
        assert(reachable(tc, w, h, s, exit_idx as int)) by {
            assert(reachable_within(tc, w, h, s, exit_idx as int, exit_dist as nat));
        };
        lemma_dist_of(tc, w, h, s, exit_idx as int, exit_dist as nat);
        assert forall|j: int|
            0 <= j < tc.len() && tc[j] == TileType::Floor && reachable(tc, w, h, s, j)
            implies (dist_of(tc, w, h, s, j) < dist_of(tc, w, h, s, exit_idx as int) || (dist_of(
            tc,
            w,
            h,
            s,
            j,
        ) == dist_of(tc, w, h, s, exit_idx as int) && exit_idx as int <= j)) by {
            assert(dist@[j] != UNREACHABLE);
            assert(t[j] == TileType::Floor);
            lemma_dist_of(tc, w, h, s, j, dist@[j] as nat);
            if j < exit_idx as int {
                assert(dist@[j] < exit_dist);
            } else {
                assert(dist@[j] <= exit_dist);
            }
        };
        assert(is_farthest_exit(tc, w, h, s, exit_idx as int));
        assert(exit_idx as int == exit_spec(t, w, h, s)) by {
            assert(is_farthest_exit(cull_tiles(t, w, h, s), w, h, s, exit_idx as int));
            let e2 = exit_spec(t, w, h, s);
            assert(is_farthest_exit(cull_tiles(t, w, h, s), w, h, s, e2));
            lemma_farthest_exit_unique(tc, w, h, s, e2, exit_idx as int);
        };
        assert forall|i2: int| 0 <= i2 < tc.len() && tc[i2] == TileType::Floor implies reachable(
            tc,
            w,
            h,
            s,
            i2,
        ) by {
            assert(dist@[i2] != UNREACHABLE);
            assert(has_dist(tc, w, h, s, i2, dist@[i2] as nat));
            assert(reachable_within(tc, w, h, s, i2, dist@[i2] as nat));
        };
        assert(tc[s] == TileType::Floor) by {
            assert(reachable_within(t, w, h, s, s, 0));
            assert(reachable(t, w, h, s, s));
        };
    }
    exit_idx
}


/// Every reachable tile has its exact least distance at `dist_of`.
pub proof fn lemma_reachable_has_dist(t: Seq<TileType>, w: int, h: int, s: int, i: int)
    requires
        reachable(t, w, h, s, i),
    ensures
        has_dist(t, w, h, s, i, dist_of(t, w, h, s, i)),
{
    let d0 = choose|d: nat| reachable_within(t, w, h, s, i, d);
    lemma_exists_exact(t, w, h, s, i, d0);
}

/// Two tile sequences with the same walls agree on reachability and on
/// every least distance.
pub proof fn lemma_dist_of_same_walls(
    t1: Seq<TileType>,
    t2: Seq<TileType>,
    w: int,
    h: int,
    s: int,
    i: int,
)
    requires
        t1.len() == t2.len(),
        forall|j: int| 0 <= j < t1.len() ==> ((t1[j] == TileType::Wall) <==> (t2[j]
            == TileType::Wall)),
        0 < w,
        0 < h,
        t1.len() == w * h,
        0 <= s < t1.len(),
        reachable(t1, w, h, s, i),
    ensures
        reachable(t2, w, h, s, i),
        dist_of(t2, w, h, s, i) == dist_of(t1, w, h, s, i),
{
    lemma_reachable_has_dist(t1, w, h, s, i);
    let d = dist_of(t1, w, h, s, i);
    lemma_rw_same_walls(t1, t2, w, h, s, i, d);
    assert(reachable(t2, w, h, s, i)) by {
        assert(reachable_within(t2, w, h, s, i, d));
    };
    if d > 0 && reachable_within(t2, w, h, s, i, (d - 1) as nat) {
        lemma_rw_same_walls(t2, t1, w, h, s, i, (d - 1) as nat);
    }
    assert(has_dist(t2, w, h, s, i, d));
    lemma_dist_of(t2, w, h, s, i, d);
}

/// Law: exit uniqueness and correctness.  On a culled grid with no prior
/// exit, drawing the canonical exit tile as the downward exit yields
/// exactly one exit tile; that tile is reachable from the start, no
/// reachable floor tile lies strictly farther from the start, and every
/// floor tile reachable before the exit was drawn stays reachable.
pub proof fn lemma_exit_unique_and_farthest(t: Seq<TileType>, w: int, h: int, s: int, e: int)
    requires
        0 < w,
        0 < h,
        t.len() == w * h,
        0 <= s < t.len(),
        forall|i: int| 0 <= i < t.len() ==> t[i] != TileType::DownStairs,
        is_farthest_exit(t, w, h, s, e),
    ensures
        ({
            let m = t.update(e, TileType::DownStairs);
            &&& m[e] == TileType::DownStairs
            &&& forall|j: int| 0 <= j < m.len() && m[j] == TileType::DownStairs ==> j == e
            &&& reachable(m, w, h, s, e)
            &&& forall|j: int|
                0 <= j < m.len() && m[j] == TileType::Floor && reachable(m, w, h, s, j)
                    ==> dist_of(m, w, h, s, j) <= dist_of(m, w, h, s, e)
            &&& (forall|j: int| 0 <= j < t.len() && t[j] == TileType::Floor ==> reachable(
                t,
                w,
                h,
                s,
                j,
            )) ==> (forall|j: int|
                0 <= j < t.len() && t.update(e, TileType::DownStairs)[j] == TileType::Floor
                    ==> reachable(t.update(e, TileType::DownStairs), w, h, s, j))
        }),
{
    let m = t.update(e, TileType::DownStairs);
    assert(forall|j: int| 0 <= j < t.len() ==> ((t[j] == TileType::Wall) <==> (m[j]
        == TileType::Wall)));
    lemma_dist_of_same_walls(t, m, w, h, s, e);
    assert forall|j: int|
        0 <= j < m.len() && m[j] == TileType::Floor && reachable(m, w, h, s, j)
        implies dist_of(m, w, h, s, j) <= dist_of(m, w, h, s, e) by {
        lemma_dist_of_same_walls(m, t, w, h, s, j);
        assert(t[j] == TileType::Floor);
        assert(reachable(t, w, h, s, j));
    };
    if forall|j: int| 0 <= j < t.len() && #[trigger] t[j] == TileType::Floor ==> reachable(
        t,
        w,
        h,
        s,
        j,
    ) {
        assert forall|j: int| 0 <= j < t.len() && m[j] == TileType::Floor implies reachable(
            m,
            w,
            h,
            s,
            j,
        ) by {
            assert(t[j] == TileType::Floor);
            assert(reachable(t, w, h, s, j));
            lemma_dist_of_same_walls(t, m, w, h, s, j);
        };
    }
}

} // verus!
