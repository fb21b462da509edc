//! Cellular-automata carving.
//!
//! Every interior tile is first drawn floor (55%) or wall (45%) by an
//! independent roll.  Repeated sweeps then re-derive each interior tile
//! from its previous generation's eight neighbors: more than four wall
//! neighbors, or none at all, makes a wall; anything else makes a floor.
//! Each sweep reads only the previous generation through a double buffer.

use crate::connectivity::{
    cull_tiles, exit_spec, remove_unreachable_areas_returning_most_distant,
};
use crate::context::{with_snapshot, BuildContext, BuildError, CtxView};
use crate::grid::{
    lemma_area_bounds, lemma_idx_coords, lemma_xy_idx_bounds, Grid, GridView, Position, TileType,
};
use crate::regions::voronoi_spec;
use crate::rng::{spec_roll, spec_rolls_state, Rng};
use vstd::prelude::*;

verus! {

/// How many sweeps the carving stage runs after the random fill.
pub const AUTOMATA_SWEEPS: usize = 15;

/// `(x, y)` is an interior coordinate: strictly inside the one-tile
/// border.
pub open spec fn interior(w: int, h: int, x: int, y: int) -> bool {
    1 <= x <= w - 2 && 1 <= y <= h - 2
}

/// The position of interior tile `(x, y)` in the row-major order of
/// interior tiles, which is the number of rolls drawn before its roll.
pub open spec fn fill_roll_index(w: int, x: int, y: int) -> int {
    (y - 1) * (w - 2) + (x - 1)
}

/// The number of rolls the random fill draws.
pub open spec fn fill_roll_count(w: int, h: int) -> int {
    (h - 2) * (w - 2)
}

/// The classification the random fill assigns to interior tile `(x, y)`:
/// floor on a roll above 55 of a hundred-sided die, wall otherwise.
pub open spec fn fill_tile(r0: Rng, w: int, x: int, y: int) -> TileType {
    if spec_roll(spec_rolls_state(r0, fill_roll_index(w, x, y) as nat), 100) > 55 {
        TileType::Floor
    } else {
        TileType::Wall
    }
}

/// The tiles after the random fill: every interior tile drawn by its own
/// roll, the border kept.
pub open spec fn filled_tiles(t0: Seq<TileType>, w: int, h: int, r0: Rng) -> Seq<TileType> {
    Seq::new(
        t0.len(),
        |i: int|
            if interior(w, h, i % w, i / w) {
                fill_tile(r0, w, i % w, i / w)
            } else {
                t0[i]
            },
    )
}

/// One if tile `(x, y)` is a wall, zero otherwise.
pub open spec fn wall01(t: Seq<TileType>, w: int, x: int, y: int) -> int {
    if t[y * w + x] == TileType::Wall {
        1
    } else {
        0
    }
}

/// The number of wall tiles among the eight neighbors of `(x, y)`.
pub open spec fn wall_count(t: Seq<TileType>, w: int, x: int, y: int) -> int {
    wall01(t, w, x - 1, y) + wall01(t, w, x + 1, y) + wall01(t, w, x, y - 1) + wall01(
        t,
        w,
        x,
        y + 1,
    ) + wall01(t, w, x - 1, y - 1) + wall01(t, w, x + 1, y - 1) + wall01(t, w, x - 1, y + 1)
        + wall01(t, w, x + 1, y + 1)
}

/// The tiles after one automata sweep: every interior tile re-derived
/// from its neighbor count in `t`, the border kept.
pub open spec fn sweep_tiles(t: Seq<TileType>, w: int, h: int) -> Seq<TileType> {
    Seq::new(
        t.len(),
        |i: int|
            if interior(w, h, i % w, i / w) {
                if wall_count(t, w, i % w, i / w) > 4 || wall_count(t, w, i % w, i / w) == 0 {
                    TileType::Wall
                } else {
                    TileType::Floor
                }
            } else {
                t[i]
            },
    )
}

/// The tiles after `k` automata sweeps.
pub open spec fn sweeps_applied(t: Seq<TileType>, w: int, h: int, k: nat) -> Seq<TileType>
    decreases k,
{
    if k == 0 {
        t
    } else {
        sweep_tiles(sweeps_applied(t, w, h, (k - 1) as nat), w, h)
    }
}

/// Law: one further automata sweep does not change an interior tile whose
/// classification already agrees with its neighbor count: a wall exactly
/// when the count is above four or zero.
pub proof fn lemma_sweep_stable_tile(t: Seq<TileType>, w: int, h: int, i: int)
    requires
        3 <= w,
        3 <= h,
        t.len() == w * h,
        0 <= i < t.len(),
        interior(w, h, i % w, i / w),
        t[i] == TileType::Wall || t[i] == TileType::Floor,
        (t[i] == TileType::Wall) <==> (wall_count(t, w, i % w, i / w) > 4 || wall_count(
            t,
            w,
            i % w,
            i / w,
        ) == 0),
    ensures
        sweep_tiles(t, w, h)[i] == t[i],
{
}

/// Law: one further automata sweep leaves a fully stable configuration
/// unchanged: when every interior tile agrees with its neighbor count,
/// the sweep is the identity.
pub proof fn lemma_sweep_idempotent(t: Seq<TileType>, w: int, h: int)
    requires
        3 <= w,
        3 <= h,
        t.len() == w * h,
        forall|i: int|
            0 <= i < t.len() && interior(w, h, i % w, i / w) ==> (#[trigger] t[i] == TileType::Wall
                || t[i] == TileType::Floor),
        forall|i: int|
            0 <= i < t.len() && interior(w, h, i % w, i / w) ==> ((#[trigger] t[i]
                == TileType::Wall) <==> (wall_count(t, w, i % w, i / w) > 4 || wall_count(
                t,
                w,
                i % w,
                i / w,
            ) == 0)),
    ensures
        sweep_tiles(t, w, h) == t,
{
    assert forall|i: int| 0 <= i < t.len() implies sweep_tiles(t, w, h)[i] == t[i] by {
        if interior(w, h, i % w, i / w) {
            lemma_sweep_stable_tile(t, w, h, i);
        }
    };
    assert(sweep_tiles(t, w, h) =~= t);
}

/// Advancing to the next row of the fill continues the roll sequence
/// without a gap.
proof fn lemma_row_advance(w: int, y: int) by (nonlinear_arith)
    ensures
        (y - 1) * (w - 2) + (w - 2) == y * (w - 2),
{
}

/// Draws every interior tile floor or wall, one roll per tile in
/// row-major order: floor on a roll above 55, wall otherwise.
#[verifier::loop_isolation(false)]
#[verifier::rlimit(100)]
pub fn random_fill(map: &mut Grid, rng: &mut Rng)
    requires
        old(map)@.wf(),
    ensures
        final(map)@.wf(),
        final(map)@ == (GridView {
            tiles: filled_tiles(old(map)@.tiles, old(map)@.width, old(map)@.height, *old(rng)),
            ..old(map)@
        }),
        *final(rng) == spec_rolls_state(
            *old(rng),
            fill_roll_count(old(map)@.width, old(map)@.height) as nat,
        ),
{
    let ghost t0 = old(map)@.tiles;
    let ghost w = old(map)@.width;
    let ghost h = old(map)@.height;
    let ghost r0 = *old(rng);
    proof {
        lemma_area_bounds(w, h);
    }
    let height = map.height;
    let width = map.width;
    let mut y: i32 = 1;
    while y < height - 1
        invariant
            1 <= y <= height - 1,
            *rng == spec_rolls_state(r0, ((y - 1) * (w - 2)) as nat),
            map@.tiles.len() == t0.len(),
            forall|j: int|
                0 <= j < t0.len() ==> #[trigger] map@.tiles[j] == (if interior(w, h, j % w, j / w)
                    && j / w < y {
                    fill_tile(r0, w, j % w, j / w)
                } else {
                    t0[j]
                }),
            map@ == (GridView { tiles: map@.tiles, ..old(map)@ }),
        decreases height - y,
    {
        let mut x: i32 = 1;
        proof {
            assert(((y - 1) * (w - 2) + (1 - 1)) == (y - 1) * (w - 2));
        }
        while x < width - 1
            invariant
                1 <= y <= height - 2,
                1 <= x <= width - 1,
                *rng == spec_rolls_state(r0, ((y - 1) * (w - 2) + (x - 1)) as nat),
                map@.tiles.len() == t0.len(),
                forall|j: int|
                    0 <= j < t0.len() ==> #[trigger] map@.tiles[j] == (if interior(
                        w,
                        h,
                        j % w,
                        j / w,
                    ) && (j / w < y || (j / w == y && j % w < x)) {
                        fill_tile(r0, w, j % w, j / w)
                    } else {
                        t0[j]
                    }),
                map@ == (GridView { tiles: map@.tiles, ..old(map)@ }),
            decreases width - x,
        {
            proof {
                assert((y - 1) * (w - 2) >= 0 && (y - 1) * (w - 2) + (x - 1) + 1 <= (w - 2) * (h
                    - 2)) by (nonlinear_arith)
                    requires
                        1 <= x <= w - 2,
                        1 <= y <= h - 2,
                        3 <= w,
                        3 <= h,
                ;
            }
            let roll = rng.roll_dice(100);
            let idx = map.xy_idx(x, y);
            proof {
                lemma_idx_coords(w, h, idx as int);
                lemma_xy_idx_bounds(w, h, x as int, y as int);
                crate::grid::lemma_idx_injective(
                    w,
                    x as int,
                    y as int,
                    idx as int % w,
                    idx as int / w,
                );
            }
            if roll > 55 {
                map.tiles.set(idx, TileType::Floor);
            } else {
                map.tiles.set(idx, TileType::Wall);
            }
            proof {
                assert(map@.tiles[idx as int] == fill_tile(r0, w, x as int, y as int));
                assert forall|j: int| 0 <= j < t0.len() implies #[trigger] map@.tiles[j] == (
                if interior(w, h, j % w, j / w) && (j / w < y || (j / w == y && j % w < x + 1)) {
                    fill_tile(r0, w, j % w, j / w)
                } else {
                    t0[j]
                }) by {
                    if j != idx as int {
                        assert(j == (j / w) * w + j % w) by (nonlinear_arith)
                            requires 0 < w
                        ;
                        assert(!(j % w == x as int && j / w == y as int));
                    }
                };
            }
            x = x + 1;
        }
        proof {
            lemma_row_advance(w, y as int);
        }
        y = y + 1;
    }
    proof {
        assert(((y - 1) * (w - 2)) == fill_roll_count(w, h));
        assert(map@.tiles =~= filled_tiles(t0, w, h, r0));
    }
}

/// The number of wall tiles among the eight neighbors of interior tile
/// `(x, y)`.
fn count_wall_neighbors(map: &Grid, x: i32, y: i32) -> (count: u32)
    requires
        map@.wf(),
        interior(map@.width, map@.height, x as int, y as int),
    ensures
        count as int == wall_count(map@.tiles, map@.width, x as int, y as int),
{
    let mut count: u32 = 0;
    if map.tiles[map.xy_idx(x - 1, y)] == TileType::Wall {
        count = count + 1;
    }
    if map.tiles[map.xy_idx(x + 1, y)] == TileType::Wall {
        count = count + 1;
    }
    if map.tiles[map.xy_idx(x, y - 1)] == TileType::Wall {
        count = count + 1;
    }
    if map.tiles[map.xy_idx(x, y + 1)] == TileType::Wall {
        count = count + 1;
    }
    if map.tiles[map.xy_idx(x - 1, y - 1)] == TileType::Wall {
        count = count + 1;
    }
    if map.tiles[map.xy_idx(x + 1, y - 1)] == TileType::Wall {
        count = count + 1;
    }
    if map.tiles[map.xy_idx(x - 1, y + 1)] == TileType::Wall {
        count = count + 1;
    }
    if map.tiles[map.xy_idx(x + 1, y + 1)] == TileType::Wall {
        count = count + 1;
    }
    count
}

/// One automata sweep over a double buffer: every interior tile is
/// re-derived from the previous generation's neighbor counts, so that
/// within the sweep each tile sees only the old generation.
#[verifier::loop_isolation(false)]
#[verifier::rlimit(100)]
pub fn automata_sweep(map: &mut Grid)
    requires
        old(map)@.wf(),
    ensures
        final(map)@.wf(),
        final(map)@ == (GridView {
            tiles: sweep_tiles(old(map)@.tiles, old(map)@.width, old(map)@.height),
            ..old(map)@
        }),
{
    let ghost t0 = old(map)@.tiles;
    let ghost w = old(map)@.width;
    let ghost h = old(map)@.height;
    proof {
        lemma_area_bounds(w, h);
    }
    let mut newtiles = crate::grid::copy_vec(&map.tiles);
    let height = map.height;
    let width = map.width;
    let mut y: i32 = 1;
    while y < height - 1
        invariant
            1 <= y <= height - 1,
            map@ == old(map)@,
            newtiles@.len() == t0.len(),
            forall|j: int|
                0 <= j < t0.len() ==> #[trigger] newtiles@[j] == (if interior(w, h, j % w, j / w)
                    && j / w < y {
                    sweep_tiles(t0, w, h)[j]
                } else {
                    t0[j]
                }),
        decreases height - y,
    {
        let mut x: i32 = 1;
        while x < width - 1
            invariant
                1 <= y <= height - 2,
                1 <= x <= width - 1,
                map@ == old(map)@,
                newtiles@.len() == t0.len(),
                forall|j: int|
                    0 <= j < t0.len() ==> #[trigger] newtiles@[j] == (if interior(
                        w,
                        h,
                        j % w,
                        j / w,
                    ) && (j / w < y || (j / w == y && j % w < x)) {
                        sweep_tiles(t0, w, h)[j]
                    } else {
                        t0[j]
                    }),
            decreases width - x,
        {
            let neighbors = count_wall_neighbors(map, x, y);
            let idx = map.xy_idx(x, y);
            proof {
                lemma_idx_coords(w, h, idx as int);
                crate::grid::lemma_idx_injective(
                    w,
                    x as int,
                    y as int,
                    idx as int % w,
                    idx as int / w,
                );
            }
            if neighbors > 4 || neighbors == 0 {
                newtiles.set(idx, TileType::Wall);
            } else {
                newtiles.set(idx, TileType::Floor);
            }
            proof {
                assert(newtiles@[idx as int] == sweep_tiles(t0, w, h)[idx as int]);
                assert forall|j: int| 0 <= j < t0.len() implies #[trigger] newtiles@[j] == (
                if interior(w, h, j % w, j / w) && (j / w < y || (j / w == y && j % w < x + 1)) {
                    sweep_tiles(t0, w, h)[j]
                } else {
                    t0[j]
                }) by {
                    if j != idx as int {
                        assert(j == (j / w) * w + j % w) by (nonlinear_arith)
                            requires 0 < w
                        ;
                        assert(!(j % w == x as int && j / w == y as int));
                    }
                };
            }
            x = x + 1;
        }
        y = y + 1;
    }
    map.tiles = newtiles;
    proof {
        assert(map@.tiles =~= sweep_tiles(t0, w, h));
    }
}

/// The starting-position candidate: the geometric center tile if it is a
/// floor, else the nearest floor tile strictly to its left on the same
/// row; `None` when that bounded walk leaves the movement margin.
pub open spec fn walk_left_spec(t: Seq<TileType>, w: int, cy: int, x: int) -> Option<int>
    decreases x,
{
    if x < 1 {
        None
    } else if t[cy * w + x] == TileType::Floor {
        Some(x)
    } else if x == 1 {
        None
    } else {
        walk_left_spec(t, w, cy, x - 1)
    }
}

/// Picks the starting position: the geometric center tile, walking
/// leftward one tile at a time until a floor tile is found; the walk is
/// bounded so it cannot leave the grid, and yields `None` when it finds
/// no floor tile.
#[verifier::loop_isolation(false)]
pub fn find_starting_position(map: &Grid) -> (pos: Option<crate::grid::Position>)
    requires
        map@.wf(),
    ensures
        ({
            let spec = walk_left_spec(map@.tiles, map@.width, map@.height / 2, map@.width / 2);
            match pos {
                Some(p) => spec == Some(p.x as int) && p.y as int == map@.height / 2 && 1 <= p.x
                    as int <= map@.width / 2 && map@.tiles[map@.idx(p.x as int, p.y as int)]
                    == TileType::Floor,
                None => spec is None,
            }
        }),
{
    let ghost t = map@.tiles;
    let ghost w = map@.width;
    let cy = map.height / 2;
    let cx = map.width / 2;
    let mut x: i32 = cx;
    proof {
        lemma_area_bounds(map@.width, map@.height);
    }
    let mut idx = map.xy_idx(x, cy);
    while map.tiles[idx] != TileType::Floor
        invariant
            1 <= x <= cx,
            cx == map@.width / 2,
            cy == map@.height / 2,
            map@.wf(),
            t == map@.tiles,
            w == map@.width,
            idx == map@.idx(x as int, cy as int),
            idx < map@.tiles.len(),
            walk_left_spec(t, w, cy as int, cx as int) == walk_left_spec(t, w, cy as int, x as int),
        decreases x,
    {
        if x == 1 {
            proof {
                assert(walk_left_spec(t, w, cy as int, x as int) is None);
            }
            return None;
        }
        x = x - 1;
        idx = map.xy_idx(x, cy);
    }
    proof {
        assert(walk_left_spec(t, w, cy as int, x as int) == Some(x as int));
    }
    Some(crate::grid::Position { x, y: cy })
}


/// The context after `k` automata sweeps, a snapshot taken after each.
pub open spec fn sweeps_with_snapshots(c: CtxView, k: nat) -> CtxView
    decreases k,
{
    if k == 0 {
        c
    } else {
        let p = sweeps_with_snapshots(c, (k - 1) as nat);
        with_snapshot(
            CtxView {
                map: GridView {
                    tiles: sweep_tiles(p.map.tiles, p.map.width, p.map.height),
                    ..p.map
                },
                ..p
            },
        )
    }
}

/// The context, random state and success of the whole carving stage: the
/// random fill, the fixed number of sweeps, the center-walk starting
/// position, the cull with exit placement, and the spawn regions.
pub open spec fn ca_stage_spec(c: CtxView, r: Rng) -> (CtxView, Rng, bool) {
    let w = c.map.width;
    let h = c.map.height;
    let c1 = with_snapshot(
        CtxView { map: GridView { tiles: filled_tiles(c.map.tiles, w, h, r), ..c.map }, ..c },
    );
    let r1 = spec_rolls_state(r, fill_roll_count(w, h) as nat);
    let c2 = sweeps_with_snapshots(c1, AUTOMATA_SWEEPS as nat);
    match walk_left_spec(c2.map.tiles, w, h / 2, w / 2) {
        None => (c2, r1, false),
        Some(x) => {
            let s = (h / 2) * w + x;
            let c3 = CtxView {
                start: Some(Position { x: x as i32, y: (h / 2) as i32 }),
                ..c2
            };
            let t0 = c3.map.tiles;
            let c4 = with_snapshot(
                CtxView {
                    map: GridView {
                        tiles: cull_tiles(t0, w, h, s),
                        blocked: Seq::new(t0.len(), |i: int| t0[i] == TileType::Wall),
                        ..c3.map
                    },
                    ..c3
                },
            );
            let e = exit_spec(t0, w, h, s);
            let c5 = with_snapshot(
                CtxView {
                    map: GridView {
                        tiles: c4.map.tiles.update(e, TileType::DownStairs),
                        ..c4.map
                    },
                    ..c4
                },
            );
            let (regions, r2) = voronoi_spec(c5.map.tiles, w, r1);
            (CtxView { regions: regions, ..c5 }, r2, true)
        },
    }
}

/// The cellular-automata carving stage.
pub struct CellularAutomataBuilder {}

impl CellularAutomataBuilder {
    /// A fresh carving stage.
    pub fn new() -> (r: CellularAutomataBuilder) {
        CellularAutomataBuilder {  }
    }

    /// Carves the level: fills every interior tile by an independent
    /// 55%-floor roll, runs the fixed number of automata sweeps over a
    /// double buffer, picks the starting position at the grid center
    /// (walking left to the nearest floor), culls unreachable floor,
    /// places the most distant tile as the exit, and partitions the floor
    /// into spawn regions.  Fails only when the stabilized interior has no
    /// floor tile on the walk.
    pub fn build(&self, ctx: &mut BuildContext, rng: &mut Rng) -> (r: Result<(), BuildError>)
        requires
            old(ctx)@.wf(),
        ensures
            ({
                let (sc, sr, ok) = ca_stage_spec(old(ctx)@, *old(rng));
                &&& final(ctx)@ == sc
                &&& *final(rng) == sr
                &&& r == (if ok {
                    Ok::<(), BuildError>(())
                } else {
                    Err::<(), BuildError>(BuildError::NoStartingPoint)
                })
            }),
            final(ctx)@.wf(),
            final(ctx)@.map.width == old(ctx)@.map.width,
            final(ctx)@.map.height == old(ctx)@.map.height,
            final(ctx)@.depth == old(ctx)@.depth,
            final(ctx)@.visualize == old(ctx)@.visualize,
    {
        let ghost c00 = old(ctx)@;
        random_fill(&mut ctx.map, rng);
        ctx.take_snapshot();
        let ghost c1 = ctx@;
        let mut sweep: usize = 0;
        while sweep < AUTOMATA_SWEEPS
            invariant
                sweep <= AUTOMATA_SWEEPS,
                ctx@ == sweeps_with_snapshots(c1, sweep as nat),
                ctx@.wf(),
                ctx@.map.width == c1.map.width,
                ctx@.map.height == c1.map.height,
                ctx@.start == c1.start,
                ctx@.depth == c1.depth,
                ctx@.visualize == c1.visualize,
            decreases AUTOMATA_SWEEPS - sweep,
        {
            automata_sweep(&mut ctx.map);
            ctx.take_snapshot();
            sweep = sweep + 1;
        }
        let found = find_starting_position(&ctx.map);
        match found {
            None => Err(BuildError::NoStartingPoint),
            Some(pos) => {
                ctx.starting_position = Some(pos);
                let start_idx = ctx.map.xy_idx(pos.x, pos.y);
                let exit = remove_unreachable_areas_returning_most_distant(
                    &mut ctx.map,
                    start_idx,
                );
                ctx.take_snapshot();
                ctx.map.tiles.set(exit, TileType::DownStairs);
                ctx.take_snapshot();
                let regions = crate::regions::generate_voronoi_spawn_regions(&ctx.map, rng);
                ctx.spawn_regions = regions;
                proof {
                    let (sc, sr, ok) = ca_stage_spec(c00, *old(rng));
                    assert(ctx@.regions =~= sc.regions);
                    assert(ctx@ == sc);
                }
                Ok(())
            },
        }
    }
}

} // verus!
