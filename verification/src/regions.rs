//! Voronoi-style partitioning of the floor area into spawn regions.
//!
//! A small number of seed points is drawn uniformly among the floor tiles;
//! every floor tile joins the seed nearest to it in Manhattan distance
//! (ties broken by seed insertion order).  Regions below a minimum tile
//! count are dropped as single-tile noise.

use crate::grid::{lemma_area_bounds, Grid, TileType};
use crate::rng::{spec_roll, spec_roll_state, spec_rolls_state, Rng};
use vstd::prelude::*;

verus! {

/// Regions with fewer tiles than this are dropped.
pub const MIN_REGION_SIZE: usize = 2;

/// One seed point is drawn per this many floor tiles (plus one).
pub const TILES_PER_SEED: usize = 200;

/// The indices of the floor tiles among the first `k` tiles, ascending.
pub open spec fn floors_upto(t: Seq<TileType>, k: nat) -> Seq<usize>
    decreases k,
{
    if k == 0 {
        Seq::empty()
    } else {
        let rest = floors_upto(t, (k - 1) as nat);
        if t[k - 1] == TileType::Floor {
            rest.push(((k - 1) as int) as usize)
        } else {
            rest
        }
    }
}

/// Every collected floor index lies below `k` and names a floor tile, and
/// at most `k` indices are collected.
pub proof fn lemma_floors_props(t: Seq<TileType>, k: nat)
    requires
        k <= t.len(),
        k <= usize::MAX,
    ensures
        floors_upto(t, k).len() <= k,
        forall|j: int|
            0 <= j < floors_upto(t, k).len() ==> ((#[trigger] floors_upto(t, k)[j]) as int) < k,
        forall|j: int|
            0 <= j < floors_upto(t, k).len() ==> t[(#[trigger] floors_upto(t, k)[j]) as int]
                == TileType::Floor,
    decreases k,
{
    if k > 0 {
        lemma_floors_props(t, (k - 1) as nat);
        let rest = floors_upto(t, (k - 1) as nat);
        let cur = floors_upto(t, k);
        assert forall|j: int| 0 <= j < cur.len() implies ((#[trigger] cur[j]) as int) < k && t[(
        cur[j]) as int] == TileType::Floor by {
            if t[k - 1] == TileType::Floor {
                if j < rest.len() {
                    assert(cur[j] == rest[j]);
                } else {
                    assert(cur[j] == ((k - 1) as int) as usize);
                }
            } else {
                assert(cur[j] == rest[j]);
            }
        };
    }
}

/// The first `k` seed points, each drawn uniformly among the floor tiles
/// by one roll of a die with one side per floor tile.
pub open spec fn seeds_upto(floors: Seq<usize>, r0: Rng, k: nat) -> Seq<usize>
    decreases k,
{
    if k == 0 {
        Seq::empty()
    } else {
        seeds_upto(floors, r0, (k - 1) as nat).push(
            floors[spec_roll(spec_rolls_state(r0, (k - 1) as nat), floors.len() as i32) - 1],
        )
    }
}

/// Every seed is one of the floor tiles.
pub proof fn lemma_seeds_props(floors: Seq<usize>, r0: Rng, k: nat)
    requires
        0 < floors.len() <= 0x7fffffff,
    ensures
        seeds_upto(floors, r0, k).len() == k,
        forall|j: int|
            0 <= j < k ==> floors.contains(#[trigger] seeds_upto(floors, r0, k)[j]),
    decreases k,
{
    if k > 0 {
        lemma_seeds_props(floors, r0, (k - 1) as nat);
        let prev = seeds_upto(floors, r0, (k - 1) as nat);
        let roll = spec_roll(spec_rolls_state(r0, (k - 1) as nat), floors.len() as i32);
        assert(1 <= roll <= floors.len());
        assert(floors.contains(floors[roll - 1]));
        assert forall|j: int| 0 <= j < k implies floors.contains(
            #[trigger] seeds_upto(floors, r0, k)[j],
        ) by {
            if j < k - 1 {
                assert(seeds_upto(floors, r0, k)[j] == prev[j]);
            }
        };
    }
}

/// The Manhattan distance between two tile indices on a grid `w` wide.
pub open spec fn manhattan(w: int, a: int, b: int) -> int {
    let ax = a % w;
    let ay = a / w;
    let bx = b % w;
    let by = b / w;
    (if ax >= bx {
        ax - bx
    } else {
        bx - ax
    }) + (if ay >= by {
        ay - by
    } else {
        by - ay
    })
}

/// The position, among the first `k` seeds, of the seed nearest to tile
/// `i`; ties go to the earliest seed.
pub open spec fn nearest_seed(seeds: Seq<usize>, w: int, i: int, k: nat) -> int
    decreases k,
{
    if k <= 1 {
        0
    } else {
        let prev = nearest_seed(seeds, w, i, (k - 1) as nat);
        if manhattan(w, seeds[k - 1] as int, i) < manhattan(w, seeds[prev] as int, i) {
            k - 1
        } else {
            prev
        }
    }
}

/// The nearest seed is one of the first `k` seeds.
pub proof fn lemma_nearest_in_range(seeds: Seq<usize>, w: int, i: int, k: nat)
    requires
        k >= 1,
    ensures
        0 <= nearest_seed(seeds, w, i, k) < k,
    decreases k,
{
    if k > 1 {
        lemma_nearest_in_range(seeds, w, i, (k - 1) as nat);
    }
}

/// The members of region `k`: the floor tiles among the first `upto`
/// floors whose nearest seed is seed `k`, in ascending tile order.
pub open spec fn region_members(
    floors: Seq<usize>,
    seeds: Seq<usize>,
    w: int,
    k: int,
    upto: nat,
) -> Seq<usize>
    decreases upto,
{
    if upto == 0 {
        Seq::empty()
    } else {
        let rest = region_members(floors, seeds, w, k, (upto - 1) as nat);
        if nearest_seed(seeds, w, floors[upto - 1] as int, seeds.len()) == k {
            rest.push(floors[upto - 1])
        } else {
            rest
        }
    }
}

/// The regions of at least [`MIN_REGION_SIZE`] tiles among the first
/// `upto` regions, in region order.
pub open spec fn surviving_regions(all: Seq<Seq<usize>>, upto: nat) -> Seq<Seq<usize>>
    decreases upto,
{
    if upto == 0 {
        Seq::empty()
    } else {
        let rest = surviving_regions(all, (upto - 1) as nat);
        if all[upto - 1].len() >= MIN_REGION_SIZE {
            rest.push(all[upto - 1])
        } else {
            rest
        }
    }
}

/// The number of seeds drawn for a floor area of `count` tiles.
pub open spec fn spec_n_seeds(count: int) -> int {
    1 + count / TILES_PER_SEED as int
}

/// The spawn regions and final random state the partitioner yields on
/// tiles `t` of a grid `w` wide, starting from random state `r0`.
pub open spec fn voronoi_spec(t: Seq<TileType>, w: int, r0: Rng) -> (Seq<Seq<usize>>, Rng) {
    let floors = floors_upto(t, t.len());
    if floors.len() == 0 {
        (Seq::empty(), r0)
    } else {
        let ns = spec_n_seeds(floors.len() as int);
        let seeds = seeds_upto(floors, r0, ns as nat);
        let all = Seq::new(ns as nat, |k: int| region_members(floors, seeds, w, k, floors.len()));
        (surviving_regions(all, ns as nat), spec_rolls_state(r0, ns as nat))
    }
}

/// Partitions the floor tiles of `map` into spawn regions seeded by
/// `rng`: every floor tile joins its nearest seed (Manhattan distance,
/// ties to the earliest seed), and regions below [`MIN_REGION_SIZE`]
/// tiles are dropped.
#[verifier::loop_isolation(false)]
pub fn generate_voronoi_spawn_regions(map: &Grid, rng: &mut Rng) -> (regions: Vec<Vec<usize>>)
    requires
        map@.wf(),
    ensures
        ({
            let (spec_regions, spec_rng) = voronoi_spec(map@.tiles, map@.width, *old(rng));
            &&& *final(rng) == spec_rng
            &&& regions@.len() == spec_regions.len()
            &&& forall|k: int| 0 <= k < regions@.len() ==> (#[trigger] regions@[k])@
                == spec_regions[k]
        }),
{
    let ghost t = map@.tiles;
    let ghost w = map@.width;
    let ghost r0 = *rng;
    proof {
        lemma_area_bounds(map@.width, map@.height);
    }
    let n = map.tiles.len();
    // collect the floor tiles in ascending order
    let mut floors: Vec<usize> = Vec::new();
    let mut i: usize = 0;
    while i < n
        invariant
            i <= n,
            floors@ == floors_upto(t, i as nat),
        decreases n - i,
    {
        if map.tiles[i] == TileType::Floor {
            floors.push(i);
        }
        i = i + 1;
    }
    proof {
        lemma_floors_props(t, n as nat);
    }
    if floors.len() == 0 {
        return Vec::new();
    }
    // draw the seed points
    let n_seeds: usize = 1 + floors.len() / TILES_PER_SEED;
    let mut seeds: Vec<usize> = Vec::new();
    let mut j: usize = 0;
    while j < n_seeds
        invariant
            j <= n_seeds,
            seeds@ == seeds_upto(floors@, r0, j as nat),
            *rng == spec_rolls_state(r0, j as nat),
        decreases n_seeds - j,
    {
        let roll = rng.roll_dice(floors.len() as i32);
        seeds.push(floors[(roll - 1) as usize]);
        j = j + 1;
    }
    proof {
        lemma_seeds_props(floors@, r0, n_seeds as nat);
    }
    // assign every floor tile to its nearest seed
    let mut all: Vec<Vec<usize>> = Vec::new();
    let mut k: usize = 0;
    while k < n_seeds
        invariant
            k <= n_seeds,
            all@.len() == k,
            forall|k2: int| 0 <= k2 < k ==> (#[trigger] all@[k2])@ == region_members(
                floors@,
                seeds@,
                w,
                k2,
                0,
            ),
        decreases n_seeds - k,
    {
        all.push(Vec::new());
        k = k + 1;
    }
    proof {
        assert forall|j2: int| 0 <= j2 < seeds@.len() implies (#[trigger] seeds@[j2]) < n by {
            assert(floors@.contains(seeds@[j2]));
            let idx = choose|idx: int| 0 <= idx < floors@.len() && floors@[idx] == seeds@[j2];
            assert((floors@[idx] as int) < n);
        };
    }
    let mut fi: usize = 0;
    while fi < floors.len()
        invariant
            fi <= floors@.len(),
            all@.len() == n_seeds,
            forall|k2: int| 0 <= k2 < n_seeds ==> (#[trigger] all@[k2])@ == region_members(
                floors@,
                seeds@,
                w,
                k2,
                fi as nat,
            ),
        decreases floors@.len() - fi,
    {
        let tile = floors[fi];
        let best = nearest_seed_exec(map, &seeds, tile);
        proof {
            lemma_nearest_in_range(seeds@, w, tile as int, seeds@.len());
        }
        let mut member_list = crate::grid::copy_vec(&all[best]);
        member_list.push(tile);
        all.set(best, member_list);
        fi = fi + 1;
        proof {
            assert forall|k2: int| 0 <= k2 < n_seeds implies (#[trigger] all@[k2])@
                == region_members(floors@, seeds@, w, k2, fi as nat) by {
                if k2 != best as int {
                    assert(all@[k2]@ == region_members(floors@, seeds@, w, k2, (fi - 1) as nat));
                }
            };
        }
    }
    // drop the regions below the minimum size
    let ghost all_spec = Seq::new(
        n_seeds as nat,
        |k: int| region_members(floors@, seeds@, w, k, floors@.len()),
    );
    proof {
        assert forall|k2: int| 0 <= k2 < n_seeds implies (#[trigger] all@[k2])@
            == all_spec[k2] by {};
    }
    let mut result: Vec<Vec<usize>> = Vec::new();
    let mut k: usize = 0;
    while k < n_seeds
        invariant
            k <= n_seeds,
            all@.len() == n_seeds,
            forall|k2: int| 0 <= k2 < n_seeds ==> (#[trigger] all@[k2])@ == all_spec[k2],
            result@.len() == surviving_regions(all_spec, k as nat).len(),
            forall|k2: int| 0 <= k2 < result@.len() ==> (#[trigger] result@[k2])@
                == surviving_regions(all_spec, k as nat)[k2],
        decreases n_seeds - k,
    {
        if all[k].len() >= MIN_REGION_SIZE {
            result.push(crate::grid::copy_vec(&all[k]));
        }
        k = k + 1;
    }
    result
}

/// The position of the seed nearest to `tile`, ties to the earliest seed.
#[verifier::loop_isolation(false)]
fn nearest_seed_exec(map: &Grid, seeds: &Vec<usize>, tile: usize) -> (best: usize)
    requires
        map@.wf(),
        seeds@.len() >= 1,
        tile < map@.tiles.len(),
        forall|j: int| 0 <= j < seeds@.len() ==> (#[trigger] seeds@[j]) < map@.tiles.len(),
    ensures
        best as int == nearest_seed(seeds@, map@.width, tile as int, seeds@.len()),
        best < seeds@.len(),
{
    let ghost w = map@.width;
    let mut best: usize = 0;
    let mut best_dist = manhattan_exec(map, seeds[0], tile);
    let mut j: usize = 1;
    while j < seeds.len()
        invariant
            1 <= j <= seeds@.len(),
            best < j,
            best as int == nearest_seed(seeds@, w, tile as int, j as nat),
            best_dist as int == manhattan(w, seeds@[best as int] as int, tile as int),
        decreases seeds@.len() - j,
    {
        let d = manhattan_exec(map, seeds[j], tile);
        if d < best_dist {
            best = j;
            best_dist = d;
        }
        j = j + 1;
    }
    best
}

/// The Manhattan distance between two tile indices.
pub(crate) fn manhattan_exec(map: &Grid, a: usize, b: usize) -> (d: usize)
    requires
        map@.wf(),
        a < map@.tiles.len(),
        b < map@.tiles.len(),
    ensures
        d as int == manhattan(map@.width, a as int, b as int),
{
    proof {
        lemma_area_bounds(map@.width, map@.height);
    }
    let w = map.width as usize;
    let ax = a % w;
    let ay = a / w;
    let bx = b % w;
    let by = b / w;
    let dx = if ax >= bx {
        ax - bx
    } else {
        bx - ax
    };
    let dy = if ay >= by {
        ay - by
    } else {
        by - ay
    };
    dx + dy
}

} // verus!
