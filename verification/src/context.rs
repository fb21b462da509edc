//! The shared build context threaded through a generation chain.
//!
//! Created empty at the start of a run, mutated in place by each stage,
//! and consumed once by the caller after the chain completes.  Every stage
//! may take a snapshot: when visualization is enabled, a read-only copy of
//! the grid with all tiles revealed joins the history.

use crate::grid::{Grid, GridView, Position, TileType};
use vstd::prelude::*;

verus! {

/// Why a generation run could not complete.
#[derive(Clone, Copy, PartialEq, Eq, Structural, Debug)]
pub enum BuildError {
    /// The bounded leftward walk from the grid center found no floor
    /// tile: the layout degenerated to an unusable interior.
    NoStartingPoint,
    /// A stage that needs the starting position ran before any stage
    /// claimed one, or the claimed tile is no longer a floor.
    MissingStartingPosition,
}

/// The mathematical model of a [`BuildContext`].
#[verifier::ext_equal]
pub ghost struct CtxView {
    pub map: GridView,
    pub start: Option<Position>,
    pub spawns: Seq<(int, Seq<char>)>,
    pub regions: Seq<Seq<usize>>,
    pub history: Seq<GridView>,
    pub visualize: bool,
    pub depth: int,
}

impl CtxView {
    /// The grid is well formed and every spawn request names a tile on it.
    pub open spec fn wf(self) -> bool {
        &&& self.map.wf()
        &&& forall|i: int| 0 <= i < self.spawns.len() ==> 0 <= (#[trigger] self.spawns[i]).0
            < self.map.tiles.len()
        &&& match self.start {
            Some(p) => self.map.in_bounds(p.x as int, p.y as int),
            None => true,
        }
    }
}

/// A grid as a snapshot records it: every tile revealed.
pub open spec fn snap_of(m: GridView) -> GridView {
    GridView { revealed: Seq::new(m.tiles.len(), |i: int| true), ..m }
}

/// The context after one snapshot request: unchanged unless visualization
/// is enabled, in which case a revealed copy of the grid joins the
/// history.
pub open spec fn with_snapshot(c: CtxView) -> CtxView {
    if c.visualize {
        CtxView { history: c.history.push(snap_of(c.map)), ..c }
    } else {
        c
    }
}

/// The in-progress level a generation chain builds: the grid, the claimed
/// starting position, the spawn requests, the spawn regions, and the
/// snapshot history.
pub struct BuildContext {
    pub map: Grid,
    pub starting_position: Option<Position>,
    pub spawn_list: Vec<(usize, String)>,
    pub spawn_regions: Vec<Vec<usize>>,
    pub history: Vec<Grid>,
    pub visualize: bool,
    pub depth: i32,
}

impl View for BuildContext {
    type V = CtxView;

    open spec fn view(&self) -> CtxView {
        CtxView {
            map: self.map@,
            start: self.starting_position,
            spawns: Seq::new(
                self.spawn_list@.len(),
                |i: int| (self.spawn_list@[i].0 as int, self.spawn_list@[i].1@),
            ),
            regions: Seq::new(self.spawn_regions@.len(), |i: int| self.spawn_regions@[i]@),
            history: Seq::new(self.history@.len(), |i: int| self.history@[i]@),
            visualize: self.visualize,
            depth: self.depth as int,
        }
    }
}

impl BuildContext {
    /// An empty context bound to a depth: an all-wall grid of the given
    /// dimensions, no starting position, no spawns, no history.
    pub fn empty(width: i32, height: i32, depth: i32, visualize: bool) -> (c: BuildContext)
        requires
            3 <= width <= crate::grid::MAX_SPAN,
            3 <= height <= crate::grid::MAX_SPAN,
        ensures
            c@.wf(),
            c@.map == Grid::with_dimensions_view(width as int, height as int, depth as int),
            c@.start is None,
            c@.spawns =~= Seq::<(int, Seq<char>)>::empty(),
            c@.regions =~= Seq::<Seq<usize>>::empty(),
            c@.history =~= Seq::<GridView>::empty(),
            c@.visualize == visualize,
            c@.depth == depth,
    {
        let c = BuildContext {
            map: Grid::with_dimensions(width, height, depth),
            starting_position: None,
            spawn_list: Vec::new(),
            spawn_regions: Vec::new(),
            history: Vec::new(),
            visualize,
            depth,
        };
        proof {
            let target = Grid::with_dimensions_view(width as int, height as int, depth as int);
            assert(c@.map.tiles =~= target.tiles);
            assert(c@.map.revealed =~= target.revealed);
            assert(c@.map.visible =~= target.visible);
            assert(c@.map.blocked =~= target.blocked);
            assert(c@.map.bloodstains =~= target.bloodstains);
            assert(c@.map.view_blocked =~= target.view_blocked);
            assert forall|i: int| 0 <= i < c@.map.content.len() implies c@.map.content[i]
                == target.content[i] by {
                assert(c@.map.content[i] =~= target.content[i]);
            };
            assert(c@.map.content =~= target.content);
            assert(c@.map =~= target);
        }
        c
    }

    /// Appends a read-only, fully revealed copy of the grid to the
    /// snapshot history, when visualization is enabled.
    pub fn take_snapshot(&mut self)
        requires
            old(self)@.wf(),
        ensures
            final(self)@ == with_snapshot(old(self)@),
            final(self)@.wf(),
    {
        if self.visualize {
            let mut snapshot = self.map.clone_map();
            let n = snapshot.tiles.len();
            snapshot.revealed_tiles = crate::grid::filled_vec(n, true);
            self.history.push(snapshot);
            proof {
                assert(self@.history =~= old(self)@.history.push(snap_of(old(self)@.map)));
                assert(self@ == with_snapshot(old(self)@));
            }
        }
    }

    /// A copy of the finished grid.
    pub fn get_map(&self) -> (m: Grid)
        ensures
            m@ == self@.map,
    {
        self.map.clone_map()
    }

    /// The claimed starting position, if any stage has claimed one.
    pub fn get_starting_position(&self) -> (p: Option<Position>)
        ensures
            p == self@.start,
    {
        self.starting_position
    }

    /// The ordered spawn requests.
    pub fn get_spawn_list(&self) -> (s: &Vec<(usize, String)>)
        ensures
            s@.len() == self@.spawns.len(),
            forall|i: int|
                0 <= i < s@.len() ==> (#[trigger] s@[i]).0 as int == self@.spawns[i].0 && s@[i].1@
                    == self@.spawns[i].1,
    {
        &self.spawn_list
    }

    /// The spawn regions, one ordered tile list per region.
    pub fn get_spawn_regions(&self) -> (r: &Vec<Vec<usize>>)
        ensures
            r@.len() == self@.regions.len(),
            forall|i: int| 0 <= i < r@.len() ==> (#[trigger] r@[i])@ == self@.regions[i],
    {
        &self.spawn_regions
    }

    /// A copy of the snapshot history.
    pub fn get_snapshot_history(&self) -> (h: Vec<Grid>)
        ensures
            h@.len() == self@.history.len(),
            forall|i: int| 0 <= i < h@.len() ==> (#[trigger] h@[i])@ == self@.history[i],
    {
        let mut h: Vec<Grid> = Vec::new();
        let mut i: usize = 0;
        while i < self.history.len()
            invariant
                i <= self.history@.len(),
                h@.len() == i,
                forall|j: int| 0 <= j < i ==> (#[trigger] h@[j])@ == self@.history[j],
            decreases self.history@.len() - i,
        {
            h.push(self.history[i].clone_map());
            i = i + 1;
        }
        h
    }
}

} // verus!
