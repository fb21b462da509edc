//! The builder pipeline: an ordered chain of one initial stage followed by
//! meta stages, threading a shared build context and an explicit random
//! source, so that a fixed seed and a fixed stage sequence reproduce an
//! identical level.

use crate::cellular_automata::{ca_stage_spec, CellularAutomataBuilder};
use crate::connectivity::{
    cull_tiles, exit_spec, remove_unreachable_areas_returning_most_distant,
};
use crate::context::{with_snapshot, BuildContext, BuildError, CtxView};
use crate::grid::{lemma_area_bounds, Grid, GridView, Position, TileType};
use crate::prefab_builder::{prefab_stage_spec, PrefabBuilder};
use crate::regions::voronoi_spec;
use crate::rng::{spec_roll, spec_roll_state, Rng};
use vstd::prelude::*;

verus! {

/// The horizontal anchor a starting-position stage aims at.
#[derive(Clone, Copy, PartialEq, Eq, Structural, Debug)]
pub enum XStart {
    Left,
    Center,
    Right,
}

/// The vertical anchor a starting-position stage aims at.
#[derive(Clone, Copy, PartialEq, Eq, Structural, Debug)]
pub enum YStart {
    Top,
    Center,
    Bottom,
}

/// One stage of a generation chain.
pub enum BuilderStage {
    /// The cellular-automata carving stage (initial).
    CellularAutomata,
    /// A template overlay (initial for full levels, meta for sections and
    /// vaults).
    Prefab(PrefabBuilder),
    /// Re-runs the connectivity analyzer from the starting position and
    /// discards unreachable floor (meta).
    CullUnreachable,
    /// Re-runs the connectivity analyzer and places the most distant
    /// reachable tile as the exit (meta).
    DistantExit,
    /// Claims the floor tile nearest to a configured anchor as the
    /// starting position (meta).
    AreaStartingPosition { x: XStart, y: YStart },
    /// Partitions the floor into spawn regions (meta).
    VoronoiSpawning,
}

impl BuilderStage {
    /// Whether the stage can open a chain, producing a layout from
    /// nothing.
    pub open spec fn is_initial(self) -> bool {
        match self {
            BuilderStage::CellularAutomata => true,
            BuilderStage::Prefab(pb) => pb.mode is RexLevel || pb.mode is Constant,
            _ => false,
        }
    }

    /// Whether the stage transforms an existing layout.
    pub open spec fn is_meta(self) -> bool {
        match self {
            BuilderStage::CellularAutomata => false,
            BuilderStage::Prefab(pb) => pb.mode is Sectional || pb.mode is RoomVaults,
            _ => true,
        }
    }

    /// The stage's own configuration fits a grid of the given dimensions.
    pub open spec fn wf(self, w: int, h: int) -> bool {
        match self {
            BuilderStage::Prefab(pb) => pb.mode.wf(w, h),
            _ => true,
        }
    }

    /// The error a failing run of this stage reports.
    pub open spec fn err_of(self) -> BuildError {
        match self {
            BuilderStage::CullUnreachable => BuildError::MissingStartingPosition,
            BuilderStage::DistantExit => BuildError::MissingStartingPosition,
            _ => BuildError::NoStartingPoint,
        }
    }
}

/// The target coordinates of a starting-position anchor.
pub open spec fn spec_target_x(x: XStart, w: int) -> int {
    match x {
        XStart::Left => 0,
        XStart::Center => w / 2,
        XStart::Right => w - 1,
    }
}

/// The target coordinates of a starting-position anchor.
pub open spec fn spec_target_y(y: YStart, h: int) -> int {
    match y {
        YStart::Top => 0,
        YStart::Center => h / 2,
        YStart::Bottom => h - 1,
    }
}

/// The floor tile among the first `k` nearest to `(tx, ty)` in Manhattan
/// distance, ties broken by raster order.
pub open spec fn best_floor(t: Seq<TileType>, w: int, tx: int, ty: int, k: nat) -> Option<int>
    decreases k,
{
    if k == 0 {
        None
    } else {
        let prev = best_floor(t, w, tx, ty, (k - 1) as nat);
        if t[k - 1] != TileType::Floor {
            prev
        } else {
            match prev {
                None => Some(k - 1),
                Some(b) => if crate::regions::manhattan(w, k - 1, ty * w + tx) < crate::regions::manhattan(
                    w,
                    b,
                    ty * w + tx,
                ) {
                    Some(k - 1)
                } else {
                    Some(b)
                },
            }
        }
    }
}

/// The context and success of the cull-unreachable stage: from the
/// starting position, every unreachable floor tile becomes a wall.
pub open spec fn cull_stage_spec(c: CtxView) -> (CtxView, bool) {
    match c.start {
        None => (c, false),
        Some(p) => {
            let w = c.map.width;
            let h = c.map.height;
            let s = p.y as int * w + p.x as int;
            if c.map.tiles[s] != TileType::Floor {
                (c, false)
            } else {
                let t0 = c.map.tiles;
                let c1 = with_snapshot(
                    CtxView {
                        map: GridView {
                            tiles: cull_tiles(t0, w, h, s),
                            blocked: Seq::new(t0.len(), |i: int| t0[i] == TileType::Wall),
                            ..c.map
                        },
                        ..c
                    },
                );
                (c1, true)
            }
        },
    }
}

/// The context and success of the distant-exit stage: the cull plus the
/// most distant reachable tile re-drawn as the exit.
pub open spec fn distant_exit_spec(c: CtxView) -> (CtxView, bool) {
    match c.start {
        None => (c, false),
        Some(p) => {
            let w = c.map.width;
            let h = c.map.height;
            let s = p.y as int * w + p.x as int;
            if c.map.tiles[s] != TileType::Floor {
                (c, false)
            } else {
                let t0 = c.map.tiles;
                let c1 = with_snapshot(
                    CtxView {
                        map: GridView {
                            tiles: cull_tiles(t0, w, h, s),
                            blocked: Seq::new(t0.len(), |i: int| t0[i] == TileType::Wall),
                            ..c.map
                        },
                        ..c
                    },
                );
                let e = exit_spec(t0, w, h, s);
                let c2 = with_snapshot(
                    CtxView {
                        map: GridView {
                            tiles: c1.map.tiles.update(e, TileType::DownStairs),
                            ..c1.map
                        },
                        ..c1
                    },
                );
                (c2, true)
            }
        },
    }
}

/// The context and success of the area-starting-position stage: the floor
/// tile nearest the anchor claims the starting position.
pub open spec fn area_start_spec(c: CtxView, x: XStart, y: YStart) -> (CtxView, bool) {
    let w = c.map.width;
    let h = c.map.height;
    let tx = spec_target_x(x, w);
    let ty = spec_target_y(y, h);
    match best_floor(c.map.tiles, w, tx, ty, c.map.tiles.len()) {
        None => (c, false),
        Some(i) => (
            CtxView {
                start: Some(Position { x: (i % w) as i32, y: (i / w) as i32 }),
                ..c
            },
            true,
        ),
    }
}

/// The context, random state and success one stage yields.
pub open spec fn stage_spec(s: BuilderStage, c: CtxView, r: Rng) -> (CtxView, Rng, bool) {
    match s {
        BuilderStage::CellularAutomata => ca_stage_spec(c, r),
        BuilderStage::Prefab(pb) => prefab_stage_spec(pb.mode, c, r),
        BuilderStage::CullUnreachable => {
            let (c1, ok) = cull_stage_spec(c);
            (c1, r, ok)
        },
        BuilderStage::DistantExit => {
            let (c1, ok) = distant_exit_spec(c);
            (c1, r, ok)
        },
        BuilderStage::AreaStartingPosition { x, y } => {
            let (c1, ok) = area_start_spec(c, x, y);
            (c1, r, ok)
        },
        BuilderStage::VoronoiSpawning => {
            let (regions, r1) = voronoi_spec(c.map.tiles, c.map.width, r);
            (CtxView { regions: regions, ..c }, r1, true)
        },
    }
}

/// The context, random state and first failure after the first `k` meta
/// stages have run in order.
pub open spec fn run_stages_spec(
    stages: Seq<BuilderStage>,
    c: CtxView,
    r: Rng,
    k: nat,
) -> (CtxView, Rng, Option<BuildError>)
    decreases k,
{
    if k == 0 {
        (c, r, None)
    } else {
        let (c1, r1, status) = run_stages_spec(stages, c, r, (k - 1) as nat);
        match status {
            Some(e) => (c1, r1, Some(e)),
            None => {
                let (c2, r2, ok) = stage_spec(stages[k - 1], c1, r1);
                (c2, r2, if ok {
                    None
                } else {
                    Some(stages[k - 1].err_of())
                })
            },
        }
    }
}


/// Re-runs the connectivity analyzer from the current starting position
/// and discards unreachable floor.
fn cull_unreachable_stage(ctx: &mut BuildContext) -> (r: Result<(), BuildError>)
    requires
        old(ctx)@.wf(),
    ensures
        ({
            let (sc, ok) = cull_stage_spec(old(ctx)@);
            &&& final(ctx)@ == sc
            &&& r == (if ok {
                Ok::<(), BuildError>(())
            } else {
                Err::<(), BuildError>(BuildError::MissingStartingPosition)
            })
        }),
        final(ctx)@.wf(),
        final(ctx)@.map.width == old(ctx)@.map.width,
        final(ctx)@.map.height == old(ctx)@.map.height,
        final(ctx)@.depth == old(ctx)@.depth,
        final(ctx)@.visualize == old(ctx)@.visualize,
{
    let start = ctx.starting_position;
    match start {
        None => Err(BuildError::MissingStartingPosition),
        Some(p) => {
            let s = ctx.map.xy_idx(p.x, p.y);
            if ctx.map.tiles[s] != TileType::Floor {
                Err(BuildError::MissingStartingPosition)
            } else {
                let _exit = remove_unreachable_areas_returning_most_distant(&mut ctx.map, s);
                ctx.take_snapshot();
                Ok(())
            }
        },
    }
}

/// Re-runs the connectivity analyzer and sets the most distant reachable
/// tile as the exit.
fn distant_exit_stage(ctx: &mut BuildContext) -> (r: Result<(), BuildError>)
    requires
        old(ctx)@.wf(),
    ensures
        ({
            let (sc, ok) = distant_exit_spec(old(ctx)@);
            &&& final(ctx)@ == sc
            &&& r == (if ok {
                Ok::<(), BuildError>(())
            } else {
                Err::<(), BuildError>(BuildError::MissingStartingPosition)
            })
        }),
        final(ctx)@.wf(),
        final(ctx)@.map.width == old(ctx)@.map.width,
        final(ctx)@.map.height == old(ctx)@.map.height,
        final(ctx)@.depth == old(ctx)@.depth,
        final(ctx)@.visualize == old(ctx)@.visualize,
{
    let start = ctx.starting_position;
    match start {
        None => Err(BuildError::MissingStartingPosition),
        Some(p) => {
            let s = ctx.map.xy_idx(p.x, p.y);
            if ctx.map.tiles[s] != TileType::Floor {
                Err(BuildError::MissingStartingPosition)
            } else {
                let exit = remove_unreachable_areas_returning_most_distant(&mut ctx.map, s);
                ctx.take_snapshot();
                ctx.map.tiles.set(exit, TileType::DownStairs);
                ctx.take_snapshot();
                Ok(())
            }
        },
    }
}

/// Claims the floor tile nearest the configured anchor as the starting
/// position.
#[verifier::loop_isolation(false)]
fn area_start_stage(ctx: &mut BuildContext, x: XStart, y: YStart) -> (r: Result<(), BuildError>)
    requires
        old(ctx)@.wf(),
    ensures
        ({
            let (sc, ok) = area_start_spec(old(ctx)@, x, y);
            &&& final(ctx)@ == sc
            &&& r == (if ok {
                Ok::<(), BuildError>(())
            } else {
                Err::<(), BuildError>(BuildError::NoStartingPoint)
            })
        }),
        final(ctx)@.wf(),
        final(ctx)@.map.width == old(ctx)@.map.width,
        final(ctx)@.map.height == old(ctx)@.map.height,
        final(ctx)@.depth == old(ctx)@.depth,
        final(ctx)@.visualize == old(ctx)@.visualize,
{
    let ghost t = ctx@.map.tiles;
    let ghost w = ctx@.map.width;
    let ghost h = ctx@.map.height;
    proof {
        lemma_area_bounds(w, h);
    }
    let width = ctx.map.width;
    let height = ctx.map.height;
    let tx: i32 = match x {
        XStart::Left => 0,
        XStart::Center => width / 2,
        XStart::Right => width - 1,
    };
    let ty: i32 = match y {
        YStart::Top => 0,
        YStart::Center => height / 2,
        YStart::Bottom => height - 1,
    };
    let target = ctx.map.xy_idx(tx, ty);
    let n = ctx.map.tiles.len();
    let mut best: Option<usize> = None;
    let mut best_dist: usize = 0;
    let mut i: usize = 0;
    while i < n
        invariant
            i <= n,
            ({
                let spec = best_floor(t, w, tx as int, ty as int, i as nat);
                match best {
                    None => spec is None,
                    Some(b) => spec == Some(b as int) && b < n && best_dist as int
                        == crate::regions::manhattan(w, b as int, ty as int * w + tx as int),
                }
            }),
        decreases n - i,
    {
        if ctx.map.tiles[i] == TileType::Floor {
            let d = crate::regions::manhattan_exec(&ctx.map, i, target);
            match best {
                None => {
                    best = Some(i);
                    best_dist = d;
                },
                Some(_b) => {
                    if d < best_dist {
                        best = Some(i);
                        best_dist = d;
                    }
                },
            }
        }
        i = i + 1;
    }
    match best {
        None => Err(BuildError::NoStartingPoint),
        Some(b) => {
            let pos = ctx.map.index_to_point2d(b);
            ctx.starting_position = Some(pos);
            Ok(())
        },
    }
}

/// Runs one stage against the shared context.
fn run_stage(stage: &BuilderStage, ctx: &mut BuildContext, rng: &mut Rng) -> (r: Result<
    (),
    BuildError,
>)
    requires
        old(ctx)@.wf(),
        stage.wf(old(ctx)@.map.width, old(ctx)@.map.height),
        -1000000 <= old(ctx)@.depth <= 1000000,
    ensures
        ({
            let (sc, sr, ok) = stage_spec(*stage, old(ctx)@, *old(rng));
            &&& final(ctx)@ == sc
            &&& *final(rng) == sr
            &&& r == (if ok {
                Ok::<(), BuildError>(())
            } else {
                Err::<(), BuildError>(stage.err_of())
            })
        }),
        final(ctx)@.wf(),
        final(ctx)@.map.width == old(ctx)@.map.width,
        final(ctx)@.map.height == old(ctx)@.map.height,
        final(ctx)@.depth == old(ctx)@.depth,
        final(ctx)@.visualize == old(ctx)@.visualize,
{
    match stage {
        BuilderStage::CellularAutomata => {
            let builder = CellularAutomataBuilder::new();
            builder.build(ctx, rng)
        },
        BuilderStage::Prefab(pb) => pb.build(ctx, rng),
        BuilderStage::CullUnreachable => cull_unreachable_stage(ctx),
        BuilderStage::DistantExit => distant_exit_stage(ctx),
        BuilderStage::AreaStartingPosition { x, y } => area_start_stage(ctx, *x, *y),
        BuilderStage::VoronoiSpawning => {
            let regions = crate::regions::generate_voronoi_spawn_regions(&ctx.map, rng);
            ctx.spawn_regions = regions;
            proof {
                let (sc, sr, ok) = stage_spec(*stage, old(ctx)@, *old(rng));
                assert(ctx@.regions =~= sc.regions);
                assert(ctx@ == sc);
            }
            Ok(())
        },
    }
}

/// A generation chain: one initial stage followed by meta stages, bound to
/// a dungeon depth and grid dimensions, with a run-time visualization
/// toggle for the snapshot history.
pub struct BuilderChain {
    pub width: i32,
    pub height: i32,
    pub depth: i32,
    pub visualize: bool,
    pub initial: Option<BuilderStage>,
    pub stages: Vec<BuilderStage>,
}

impl BuilderChain {
    /// The chain's dimensions and depth lie in the supported ranges.
    pub open spec fn dims_ok(self) -> bool {
        &&& 3 <= self.width <= crate::grid::MAX_SPAN
        &&& 3 <= self.height <= crate::grid::MAX_SPAN
        &&& -1000000 <= self.depth <= 1000000
    }

    /// The chain is well configured: the installed initial stage is an
    /// initial stage, every appended stage is a meta stage, and every
    /// fragment fits the grid.
    pub open spec fn wf(self) -> bool {
        &&& self.dims_ok()
        &&& match self.initial {
            Some(s) => s.is_initial() && s.wf(self.width as int, self.height as int),
            None => true,
        }
        &&& forall|i: int|
            0 <= i < self.stages@.len() ==> (#[trigger] self.stages@[i]).is_meta()
                && self.stages@[i].wf(self.width as int, self.height as int)
    }

    /// An empty chain for a full-size level, bound to a dungeon depth.
    pub fn new(new_depth: i32) -> (chain: BuilderChain)
        requires
            -1000000 <= new_depth <= 1000000,
        ensures
            chain.wf(),
            chain.width == 80,
            chain.height == 43,
            chain.depth == new_depth,
            chain.visualize == false,
            chain.initial is None,
            chain.stages@.len() == 0,
    {
        BuilderChain {
            width: 80,
            height: 43,
            depth: new_depth,
            visualize: false,
            initial: None,
            stages: Vec::new(),
        }
    }

    /// An empty chain for a level of the given dimensions.
    pub fn with_dimensions(width: i32, height: i32, new_depth: i32) -> (chain: BuilderChain)
        requires
            3 <= width <= crate::grid::MAX_SPAN,
            3 <= height <= crate::grid::MAX_SPAN,
            -1000000 <= new_depth <= 1000000,
        ensures
            chain.wf(),
            chain.width == width,
            chain.height == height,
            chain.depth == new_depth,
            chain.visualize == false,
            chain.initial is None,
            chain.stages@.len() == 0,
    {
        BuilderChain {
            width,
            height,
            depth: new_depth,
            visualize: false,
            initial: None,
            stages: Vec::new(),
        }
    }

    /// Turns the snapshot history on or off for this run.
    pub fn set_visualization(&mut self, enabled: bool)
        ensures
            *final(self) == (BuilderChain { visualize: enabled, ..*old(self) }),
    {
        self.visualize = enabled;
    }

    /// Installs the single initial stage.  Installing a second initial
    /// stage is a configuration error, excluded by contract.
    pub fn set_initial(&mut self, stage: BuilderStage)
        requires
            old(self).wf(),
            old(self).initial is None,
            stage.is_initial(),
            stage.wf(old(self).width as int, old(self).height as int),
        ensures
            final(self).wf(),
            final(self).initial == Some(stage),
            final(self).width == old(self).width,
            final(self).height == old(self).height,
            final(self).depth == old(self).depth,
            final(self).visualize == old(self).visualize,
            final(self).stages@ == old(self).stages@,
    {
        self.initial = Some(stage);
    }

    /// Appends one meta stage; order is significant and preserved.
    pub fn add_stage(&mut self, stage: BuilderStage)
        requires
            old(self).wf(),
            stage.is_meta(),
            stage.wf(old(self).width as int, old(self).height as int),
        ensures
            final(self).wf(),
            final(self).initial == old(self).initial,
            final(self).width == old(self).width,
            final(self).height == old(self).height,
            final(self).depth == old(self).depth,
            final(self).visualize == old(self).visualize,
            final(self).stages@ == old(self).stages@.push(stage),
    {
        self.stages.push(stage);
    }
}

/// The fresh context a run starts from.
pub open spec fn initial_ctx(chain: BuilderChain) -> CtxView {
    CtxView {
        map: Grid::with_dimensions_view(
            chain.width as int,
            chain.height as int,
            chain.depth as int,
        ),
        start: None,
        spawns: Seq::empty(),
        regions: Seq::empty(),
        history: Seq::empty(),
        visualize: chain.visualize,
        depth: chain.depth as int,
    }
}

/// The context, random state and outcome of a whole run: the initial
/// stage from nothing, then each meta stage in insertion order.
pub open spec fn run_spec(chain: BuilderChain, r: Rng) -> (CtxView, Rng, Option<BuildError>) {
    let c0 = initial_ctx(chain);
    match chain.initial {
        None => (c0, r, Some(BuildError::MissingStartingPosition)),
        Some(init) => {
            let (c1, r1, ok) = stage_spec(init, c0, r);
            if !ok {
                (c1, r1, Some(init.err_of()))
            } else {
                run_stages_spec(chain.stages@, c1, r1, chain.stages@.len())
            }
        },
    }
}

/// A failure, once reached, is the outcome of every longer prefix.
proof fn lemma_run_stages_stuck(
    stages: Seq<BuilderStage>,
    c: CtxView,
    r: Rng,
    k1: nat,
    k2: nat,
)
    requires
        k1 <= k2 <= stages.len(),
        run_stages_spec(stages, c, r, k1).2 is Some,
    ensures
        run_stages_spec(stages, c, r, k2) == run_stages_spec(stages, c, r, k1),
    decreases k2,
{
    if k2 > k1 {
        lemma_run_stages_stuck(stages, c, r, k1, (k2 - 1) as nat);
    }
}

impl BuilderChain {
    /// Executes the chain: the initial stage populates the fresh context,
    /// then each meta stage, in insertion order, reads and rewrites the
    /// same context.  A fixed source and a fixed chain yield exactly the
    /// context `run_spec` describes, so identical seeds and identical
    /// stage sequences reproduce identical levels.  Running a chain with
    /// no initial stage installed is a configuration error, excluded by
    /// contract.
    #[verifier::loop_isolation(false)]
    pub fn run(&self, rng: &mut Rng) -> (r: Result<BuildContext, BuildError>)
        requires
            self.wf(),
            self.initial is Some,
        ensures
            ({
                let (sc, sr, status) = run_spec(*self, *old(rng));
                &&& *final(rng) == sr
                &&& match r {
                    Ok(ctx) => status is None && ctx@ == sc && ctx@.wf(),
                    Err(e) => status == Some(e),
                }
            }),
    {
        let mut ctx = BuildContext::empty(self.width, self.height, self.depth, self.visualize);
        proof {
            assert(ctx@ =~= initial_ctx(*self));
        }
        let outcome = match &self.initial {
            Some(init) => run_stage(init, &mut ctx, rng),
            None => {
                proof {
                    assert(false);
                }
                Err(BuildError::MissingStartingPosition)
            },
        };
        if let Err(e) = outcome {
            return Err(e);
        }
        let ghost c1 = ctx@;
        let ghost r1 = *rng;
        let mut k: usize = 0;
        while k < self.stages.len()
            invariant
                k <= self.stages@.len(),
                self.wf(),
                ctx@.wf(),
                ctx@.map.width == self.width as int,
                ctx@.map.height == self.height as int,
                -1000000 <= ctx@.depth <= 1000000,
                run_stages_spec(self.stages@, c1, r1, k as nat) == (
                    ctx@,
                    *rng,
                    None::<BuildError>,
                ),
            decreases self.stages@.len() - k,
        {
            let ghost pre = (ctx@, *rng);
            let stage = &self.stages[k];
            let step = run_stage(stage, &mut ctx, rng);
            k = k + 1;
            match step {
                Ok(()) => {},
                Err(e) => {
                    proof {
                        assert(run_stages_spec(self.stages@, c1, r1, k as nat).2 == Some(e));
                        lemma_run_stages_stuck(
                            self.stages@,
                            c1,
                            r1,
                            k as nat,
                            self.stages@.len(),
                        );
                        assert(run_stages_spec(self.stages@, c1, r1, self.stages@.len()) == run_stages_spec(
                            self.stages@,
                            c1,
                            r1,
                            k as nat,
                        ));
                        assert(run_spec(*self, *old(rng)) == run_stages_spec(
                            self.stages@,
                            c1,
                            r1,
                            self.stages@.len(),
                        ));
                    }
                    return Err(e);
                },
            }
        }
        Ok(ctx)
    }
}

/// A randomized chain for one level: the carving initial stage this
/// library provides, wrapped one time in three in a vault overlay.
pub fn random_builder(new_depth: i32, rng: &mut Rng) -> (chain: BuilderChain)
    requires
        -1000000 <= new_depth <= 1000000,
    ensures
        chain.wf(),
        chain.initial == Some(BuilderStage::CellularAutomata),
        chain.width == 80,
        chain.height == 43,
        chain.depth == new_depth,
        chain.visualize == false,
        *final(rng) == spec_roll_state(*old(rng)),
        chain.stages@.len() == (if spec_roll(*old(rng), 3) == 1 {
            1int
        } else {
            0int
        }),
        spec_roll(*old(rng), 3) == 1 ==> (chain.stages@[0] matches BuilderStage::Prefab(pb)
            && pb.mode is RoomVaults),
{
    let mut chain = BuilderChain::new(new_depth);
    chain.set_initial(BuilderStage::CellularAutomata);
    if rng.roll_dice(3) == 1 {
        chain.add_stage(BuilderStage::Prefab(PrefabBuilder::vaults()));
    }
    chain
}

/// Law: determinism.  The outcome of a run is a function of the chain and
/// the random source alone, so two runs from an identical seed and an
/// identical stage sequence produce identical grids, starting positions
/// and spawn lists.
pub proof fn lemma_run_deterministic(chain1: BuilderChain, chain2: BuilderChain, r1: Rng, r2: Rng)
    requires
        chain1 == chain2,
        r1 == r2,
    ensures
        run_spec(chain1, r1) == run_spec(chain2, r2),
{
}

} // verus!
