//! The tile grid and its per-tile derived state.
//!
//! A level is a row-major matrix of tile classifications with parallel
//! per-tile flag sequences (revealed, visible, blocked, decoration,
//! forced opacity) and a transient per-tile occupant list that an external
//! system rebuilds every turn.

use vstd::prelude::*;

verus! {

/// The classification of one tile.
#[derive(Clone, Copy, PartialEq, Eq, Structural, Debug, Hash)]
pub enum TileType {
    /// Solid, blocking, opaque.
    Wall,
    /// Open, walkable.
    Floor,
    /// The single tile that ends the level downward.
    DownStairs,
}

/// A tile coordinate.
#[derive(Clone, Copy, PartialEq, Eq, Structural, Debug)]
pub struct Position {
    pub x: i32,
    pub y: i32,
}

/// The mathematical model of a [`Grid`].
#[verifier::ext_equal]
pub ghost struct GridView {
    pub tiles: Seq<TileType>,
    pub width: int,
    pub height: int,
    pub revealed: Seq<bool>,
    pub visible: Seq<bool>,
    pub blocked: Seq<bool>,
    pub depth: int,
    pub bloodstains: Seq<bool>,
    pub view_blocked: Seq<bool>,
    pub content: Seq<Seq<u64>>,
}

/// The widest grid a map may have along either axis.
pub const MAX_SPAN: i32 = 4096;

impl GridView {
    /// All parallel sequences have exactly `width * height` elements and
    /// both spans are small enough that index arithmetic cannot overflow.
    pub open spec fn wf(self) -> bool {
        &&& 3 <= self.width <= MAX_SPAN
        &&& 3 <= self.height <= MAX_SPAN
        &&& self.tiles.len() == self.width * self.height
        &&& self.revealed.len() == self.tiles.len()
        &&& self.visible.len() == self.tiles.len()
        &&& self.blocked.len() == self.tiles.len()
        &&& self.bloodstains.len() == self.tiles.len()
        &&& self.view_blocked.len() == self.tiles.len()
        &&& self.content.len() == self.tiles.len()
    }

    /// The row-major index of coordinate `(x, y)`.
    pub open spec fn idx(self, x: int, y: int) -> int {
        y * self.width + x
    }

    /// `(x, y)` lies on the grid.
    pub open spec fn in_bounds(self, x: int, y: int) -> bool {
        0 <= x < self.width && 0 <= y < self.height
    }
}

/// With `0 <= x < w` and `0 <= y < h`, the row-major index lies in
/// `[0, w * h)`.
pub proof fn lemma_xy_idx_bounds(w: int, h: int, x: int, y: int) by (nonlinear_arith)
    requires
        0 <= x < w,
        0 <= y < h,
    ensures
        0 <= y * w + x < w * h,
{
}

/// Every index below `w * h` decomposes into coordinates `(i % w, i / w)`
/// on the grid, and the decomposition is inverse to `idx`.
pub proof fn lemma_idx_coords(w: int, h: int, i: int) by (nonlinear_arith)
    requires
        0 < w,
        0 < h,
        0 <= i < w * h,
    ensures
        0 <= i % w < w,
        0 <= i / w < h,
        (i / w) * w + i % w == i,
{
}

/// A grid within the span limits has at most `4096 * 4096` tiles.
pub proof fn lemma_area_bounds(w: int, h: int) by (nonlinear_arith)
    requires
        0 < w <= MAX_SPAN,
        0 < h <= MAX_SPAN,
    ensures
        0 < w * h <= 16777216,
{
}

/// Two coordinate pairs with equal row-major indices are equal.
pub proof fn lemma_idx_injective(w: int, x1: int, y1: int, x2: int, y2: int) by (nonlinear_arith)
    requires
        0 < w,
        0 <= x1 < w,
        0 <= x2 < w,
        y1 * w + x1 == y2 * w + x2,
    ensures
        x1 == x2,
        y1 == y2,
{
}

/// The tile matrix and its per-tile derived state.
pub struct Grid {
    pub tiles: Vec<TileType>,
    pub width: i32,
    pub height: i32,
    pub revealed_tiles: Vec<bool>,
    pub visible_tiles: Vec<bool>,
    pub blocked: Vec<bool>,
    pub depth: i32,
    /// Decoration markers, one flag per tile.
    pub bloodstains: Vec<bool>,
    /// Tiles that force opacity independent of their classification.
    pub view_blocked: Vec<bool>,
    /// Transient per-tile occupant list of entity identifiers; rebuilt
    /// every turn by an external system, never persisted.
    pub tile_content: Vec<Vec<u64>>,
}

impl View for Grid {
    type V = GridView;

    open spec fn view(&self) -> GridView {
        GridView {
            tiles: self.tiles@,
            width: self.width as int,
            height: self.height as int,
            revealed: self.revealed_tiles@,
            visible: self.visible_tiles@,
            blocked: self.blocked@,
            depth: self.depth as int,
            bloodstains: self.bloodstains@,
            view_blocked: self.view_blocked@,
            content: Seq::new(self.tile_content@.len(), |i: int| self.tile_content@[i]@),
        }
    }
}

/// A vector of `n` copies of `value`.
pub(crate) fn filled_vec<T: Copy>(n: usize, value: T) -> (r: Vec<T>)
    ensures
        r@ =~= Seq::new(n as nat, |i: int| value),
{
    let mut r: Vec<T> = Vec::new();
    while r.len() < n
        invariant
            r@.len() <= n,
            forall|i: int| 0 <= i < r@.len() ==> r@[i] == value,
        decreases n - r@.len(),
    {
        r.push(value);
    }
    r
}

/// An element-wise copy of a vector of copyable elements.
pub fn copy_vec<T: Copy>(v: &Vec<T>) -> (r: Vec<T>)
    ensures
        r@ =~= v@,
{
    let mut r: Vec<T> = Vec::new();
    let mut i: usize = 0;
    while i < v.len()
        invariant
            i <= v@.len(),
            r@ =~= v@.subrange(0, i as int),
        decreases v@.len() - i,
    {
        r.push(v[i]);
        i = i + 1;
    }
    r
}

/// An element-wise copy of the per-tile occupant lists.
fn copy_content(v: &Vec<Vec<u64>>) -> (r: Vec<Vec<u64>>)
    ensures
        r@.len() == v@.len(),
        forall|j: int| 0 <= j < v@.len() ==> r@[j]@ =~= v@[j]@,
{
    let mut r: Vec<Vec<u64>> = Vec::new();
    let mut i: usize = 0;
    while i < v.len()
        invariant
            i <= v@.len(),
            r@.len() == i,
            forall|j: int| 0 <= j < i ==> r@[j]@ =~= v@[j]@,
        decreases v@.len() - i,
    {
        r.push(copy_vec(&v[i]));
        i = i + 1;
    }
    r
}

impl Grid {
    /// The model of a fresh grid: all walls, nothing revealed, visible,
    /// blocked or decorated, and empty occupant lists.
    pub open spec fn with_dimensions_view(width: int, height: int, depth: int) -> GridView {
        GridView {
            tiles: Seq::new((width * height) as nat, |i: int| TileType::Wall),
            width,
            height,
            revealed: Seq::new((width * height) as nat, |i: int| false),
            visible: Seq::new((width * height) as nat, |i: int| false),
            blocked: Seq::new((width * height) as nat, |i: int| false),
            depth,
            bloodstains: Seq::new((width * height) as nat, |i: int| false),
            view_blocked: Seq::new((width * height) as nat, |i: int| false),
            content: Seq::new((width * height) as nat, |i: int| Seq::<u64>::empty()),
        }
    }

    /// An empty map of the given dimensions, consisting entirely of solid
    /// walls, bound to a dungeon depth.
    pub fn with_dimensions(width: i32, height: i32, new_depth: i32) -> (m: Grid)
        requires
            3 <= width <= MAX_SPAN,
            3 <= height <= MAX_SPAN,
        ensures
            m@.wf(),
            m@.width == width,
            m@.height == height,
            m@.depth == new_depth,
            forall|i: int| 0 <= i < m@.tiles.len() ==> m@.tiles[i] == TileType::Wall,
            forall|i: int| 0 <= i < m@.tiles.len() ==> !m@.revealed[i],
            forall|i: int| 0 <= i < m@.tiles.len() ==> !m@.visible[i],
            forall|i: int| 0 <= i < m@.tiles.len() ==> !m@.blocked[i],
            forall|i: int| 0 <= i < m@.tiles.len() ==> !m@.bloodstains[i],
            forall|i: int| 0 <= i < m@.tiles.len() ==> !m@.view_blocked[i],
            forall|i: int| 0 <= i < m@.tiles.len() ==> m@.content[i].len() == 0,
    {
        proof {
            lemma_area_bounds(width as int, height as int);
        }
        let count: usize = (width as usize) * (height as usize);
        let m = Grid {
            tiles: filled_vec(count, TileType::Wall),
            width,
            height,
            revealed_tiles: filled_vec(count, false),
            visible_tiles: filled_vec(count, false),
            blocked: filled_vec(count, false),
            depth: new_depth,
            bloodstains: filled_vec(count, false),
            view_blocked: filled_vec(count, false),
            tile_content: filled_empty_content(count),
        };
        m
    }

    /// An empty full-size map, consisting entirely of solid walls.
    pub fn new(new_depth: i32) -> (m: Grid)
        ensures
            m@.wf(),
            m@.width == crate::MAPWIDTH as int,
            m@.height == crate::MAPHEIGHT as int,
            m@.depth == new_depth,
            forall|i: int| 0 <= i < m@.tiles.len() ==> m@.tiles[i] == TileType::Wall,
            forall|i: int| 0 <= i < m@.tiles.len() ==> !m@.revealed[i],
            forall|i: int| 0 <= i < m@.tiles.len() ==> !m@.visible[i],
            forall|i: int| 0 <= i < m@.tiles.len() ==> !m@.blocked[i],
            forall|i: int| 0 <= i < m@.tiles.len() ==> !m@.bloodstains[i],
            forall|i: int| 0 <= i < m@.tiles.len() ==> !m@.view_blocked[i],
            forall|i: int| 0 <= i < m@.tiles.len() ==> m@.content[i].len() == 0,
    {
        Grid::with_dimensions(80, 43, new_depth)
    }

    /// The row-major index of `(x, y)`.
    pub fn xy_idx(&self, x: i32, y: i32) -> (idx: usize)
        requires
            self@.wf(),
            self@.in_bounds(x as int, y as int),
        ensures
            idx == self@.idx(x as int, y as int),
            idx < self@.tiles.len(),
    {
        proof {
            lemma_xy_idx_bounds(self@.width, self@.height, x as int, y as int);
            lemma_area_bounds(self@.width, self@.height);
        }
        (y as usize) * (self.width as usize) + (x as usize)
    }

    /// The coordinates of a row-major index.
    pub fn index_to_point2d(&self, idx: usize) -> (pt: Position)
        requires
            self@.wf(),
            idx < self@.tiles.len(),
        ensures
            pt.x as int == idx as int % self@.width,
            pt.y as int == idx as int / self@.width,
            self@.in_bounds(pt.x as int, pt.y as int),
            self@.idx(pt.x as int, pt.y as int) == idx,
    {
        proof {
            lemma_idx_coords(self@.width, self@.height, idx as int);
        }
        Position { x: (idx % (self.width as usize)) as i32, y: (idx / (self.width as usize)) as i32 }
    }

    /// The row-major index of a coordinate.
    pub fn point2d_to_index(&self, pt: Position) -> (idx: usize)
        requires
            self@.wf(),
            self@.in_bounds(pt.x as int, pt.y as int),
        ensures
            idx == self@.idx(pt.x as int, pt.y as int),
            idx < self@.tiles.len(),
    {
        self.xy_idx(pt.x, pt.y)
    }

    /// A tile is a valid movement destination when it lies inside the
    /// movement margin and is not blocked.
    pub fn is_exit_valid(&self, x: i32, y: i32) -> (r: bool)
        requires
            self@.wf(),
        ensures
            r == crate::connectivity::dest_ok_blocked(self@, x as int, y as int),
    {
        if x < 1 || x > self.width - 1 || y < 1 || y > self.height - 1 {
            return false;
        }
        proof {
            lemma_xy_idx_bounds(self@.width, self@.height, x as int, y as int);
        }
        let idx = self.xy_idx(x, y);
        !self.blocked[idx]
    }

    /// Rebuilds the blocked flags from the tile classifications: exactly
    /// the wall tiles block movement.
    pub fn populate_blocked(&mut self)
        requires
            old(self)@.wf(),
        ensures
            final(self)@ == (GridView {
                blocked: Seq::new(old(self)@.tiles.len(), |i: int| old(self)@.tiles[i] == TileType::Wall),
                ..old(self)@
            }),
            final(self)@.wf(),
    {
        let ghost orig = self@;
        let n = self.tiles.len();
        let mut blocked: Vec<bool> = Vec::new();
        let mut i: usize = 0;
        while i < n
            invariant
                n == orig.tiles.len(),
                self@ == orig,
                i <= n,
                blocked@.len() == i,
                forall|j: int| 0 <= j < i ==> blocked@[j] == (orig.tiles[j] == TileType::Wall),
            decreases n - i,
        {
            blocked.push(self.tiles[i] == TileType::Wall);
            i = i + 1;
        }
        self.blocked = blocked;
        proof {
            assert(self@.blocked =~= Seq::new(
                orig.tiles.len(),
                |i: int| orig.tiles[i] == TileType::Wall,
            ));
        }
    }

    /// Empties every per-tile occupant list; the external turn system
    /// repopulates them.
    pub fn clear_content_index(&mut self)
        requires
            old(self)@.wf(),
        ensures
            final(self)@ == (GridView {
                content: Seq::new(old(self)@.tiles.len(), |i: int| Seq::<u64>::empty()),
                ..old(self)@
            }),
            final(self)@.wf(),
    {
        let ghost orig = self@;
        let n = self.tiles.len();
        let mut content: Vec<Vec<u64>> = Vec::new();
        let mut i: usize = 0;
        while i < n
            invariant
                n == orig.tiles.len(),
                self@ == orig,
                i <= n,
                content@.len() == i,
                forall|j: int| 0 <= j < i ==> content@[j]@.len() == 0,
            decreases n - i,
        {
            content.push(Vec::new());
            i = i + 1;
        }
        self.tile_content = content;
        proof {
            assert(self@.content =~~= Seq::new(orig.tiles.len(), |i: int| Seq::<u64>::empty()));
        }
    }

    /// A tile hides what lies behind it when it is a wall or carries the
    /// forced-opacity marker.
    pub fn is_opaque(&self, idx: usize) -> (r: bool)
        requires
            self@.wf(),
            idx < self@.tiles.len(),
        ensures
            r == (self@.tiles[idx as int] == TileType::Wall || self@.view_blocked[idx as int]),
    {
        self.tiles[idx] == TileType::Wall || self.view_blocked[idx]
    }

    /// Marks one tile with the decoration flag.
    pub fn set_bloodstain(&mut self, idx: usize)
        requires
            old(self)@.wf(),
            idx < old(self)@.tiles.len(),
        ensures
            final(self)@ == (GridView {
                bloodstains: old(self)@.bloodstains.update(idx as int, true),
                ..old(self)@
            }),
            final(self)@.wf(),
    {
        self.bloodstains.set(idx, true);
    }

    /// Marks one tile as forcing opacity.
    pub fn set_view_blocked(&mut self, idx: usize)
        requires
            old(self)@.wf(),
            idx < old(self)@.tiles.len(),
        ensures
            final(self)@ == (GridView {
                view_blocked: old(self)@.view_blocked.update(idx as int, true),
                ..old(self)@
            }),
            final(self)@.wf(),
    {
        self.view_blocked.set(idx, true);
    }

    /// The valid movement destinations one step from `idx`, in the fixed
    /// order the movement queries enumerate them: the four cardinal
    /// neighbors, then the four diagonals.
    pub fn get_available_exits(&self, idx: usize) -> (r: Vec<usize>)
        requires
            self@.wf(),
            idx < self@.tiles.len(),
        ensures
            r@ == crate::connectivity::exits_spec(self@, idx as int),
    {
        let mut exits = self.cardinal_exits(idx);
        let diagonals = self.diagonal_exits(idx);
        let ghost c = exits@;
        let mut i: usize = 0;
        while i < diagonals.len()
            invariant
                i <= diagonals@.len(),
                exits@ =~= c + diagonals@.subrange(0, i as int),
            decreases diagonals@.len() - i,
        {
            exits.push(diagonals[i]);
            i = i + 1;
        }
        proof {
            assert(exits@ =~= c + diagonals@);
            assert(exits@ =~= crate::connectivity::exits_spec(self@, idx as int));
        }
        exits
    }

    /// The valid cardinal movement destinations one step from `idx`.
    #[verifier::rlimit(100)]
    fn cardinal_exits(&self, idx: usize) -> (r: Vec<usize>)
        requires
            self@.wf(),
            idx < self@.tiles.len(),
        ensures
            r@ == crate::connectivity::cardinal_exits_spec(self@, idx as int),
    {
        proof {
            lemma_area_bounds(self@.width, self@.height);
            lemma_idx_coords(self@.width, self@.height, idx as int);
        }
        let mut exits: Vec<usize> = Vec::new();
        let w = self.width;
        let x = (idx % (self.width as usize)) as i32;
        let y = (idx / (self.width as usize)) as i32;
        let ghost m = self@;
        let ghost gx = idx as int % m.width;
        let ghost gy = idx as int / m.width;

        if self.is_exit_valid(x - 1, y) {
            exits.push(idx - 1);
        }
        proof {
            assert(exits@ =~= crate::connectivity::exit_entry(m, gx - 1, gy, idx as int - 1));
        }
        let ghost e1 = exits@;
        if self.is_exit_valid(x + 1, y) {
            exits.push(idx + 1);
        }
        proof {
            assert(exits@ =~= e1 + crate::connectivity::exit_entry(m, gx + 1, gy, idx as int + 1));
        }
        let ghost e2 = exits@;
        if self.is_exit_valid(x, y - 1) {
            proof {
                assert(idx as int - m.width == (gy - 1) * m.width + gx) by (nonlinear_arith)
                    requires idx as int == gy * m.width + gx
                ;
                lemma_xy_idx_bounds(m.width, m.height, gx, gy - 1);
            }
            exits.push(idx - (w as usize));
        }
        proof {
            assert(exits@ =~= e2 + crate::connectivity::exit_entry(
                m,
                gx,
                gy - 1,
                idx as int - m.width,
            ));
        }
        let ghost e3 = exits@;
        if self.is_exit_valid(x, y + 1) {
            proof {
                assert(idx as int + m.width == (gy + 1) * m.width + gx) by (nonlinear_arith)
                    requires idx as int == gy * m.width + gx
                ;
                lemma_xy_idx_bounds(m.width, m.height, gx, gy + 1);
            }
            exits.push(idx + (w as usize));
        }
        proof {
            assert(exits@ =~= e3 + crate::connectivity::exit_entry(
                m,
                gx,
                gy + 1,
                idx as int + m.width,
            ));
        }
        exits
    }

    /// The valid diagonal movement destinations one step from `idx`.
    #[verifier::rlimit(100)]
    fn diagonal_exits(&self, idx: usize) -> (r: Vec<usize>)
        requires
            self@.wf(),
            idx < self@.tiles.len(),
        ensures
            r@ == crate::connectivity::diagonal_exits_spec(self@, idx as int),
    {
        proof {
            lemma_area_bounds(self@.width, self@.height);
            lemma_idx_coords(self@.width, self@.height, idx as int);
        }
        let mut exits: Vec<usize> = Vec::new();
        let w = self.width;
        let x = (idx % (self.width as usize)) as i32;
        let y = (idx / (self.width as usize)) as i32;
        let ghost m = self@;
        let ghost gx = idx as int % m.width;
        let ghost gy = idx as int / m.width;

        if self.is_exit_valid(x - 1, y - 1) {
            proof {
                assert(idx as int - m.width - 1 == (gy - 1) * m.width + (gx - 1))
                    by (nonlinear_arith)
                    requires idx as int == gy * m.width + gx
                ;
                lemma_xy_idx_bounds(m.width, m.height, gx - 1, gy - 1);
            }
            exits.push(idx - (w as usize) - 1);
        }
        proof {
            assert(exits@ =~= crate::connectivity::exit_entry(
                m,
                gx - 1,
                gy - 1,
                idx as int - m.width - 1,
            ));
        }
        let ghost e5 = exits@;
        if self.is_exit_valid(x + 1, y - 1) {
            proof {
                assert(idx as int - m.width + 1 == (gy - 1) * m.width + (gx + 1))
                    by (nonlinear_arith)
                    requires idx as int == gy * m.width + gx
                ;
                lemma_xy_idx_bounds(m.width, m.height, gx + 1, gy - 1);
            }
            exits.push(idx - (w as usize) + 1);
        }
        proof {
            assert(exits@ =~= e5 + crate::connectivity::exit_entry(
                m,
                gx + 1,
                gy - 1,
                idx as int - m.width + 1,
            ));
        }
        let ghost e6 = exits@;
        if self.is_exit_valid(x - 1, y + 1) {
            proof {
                assert(idx as int + m.width - 1 == (gy + 1) * m.width + (gx - 1))
                    by (nonlinear_arith)
                    requires idx as int == gy * m.width + gx
                ;
                lemma_xy_idx_bounds(m.width, m.height, gx - 1, gy + 1);
            }
            exits.push(idx + (w as usize) - 1);
        }
        proof {
            assert(exits@ =~= e6 + crate::connectivity::exit_entry(
                m,
                gx - 1,
                gy + 1,
                idx as int + m.width - 1,
            ));
        }
        let ghost e7 = exits@;
        if self.is_exit_valid(x + 1, y + 1) {
            proof {
                assert(idx as int + m.width + 1 == (gy + 1) * m.width + (gx + 1))
                    by (nonlinear_arith)
                    requires idx as int == gy * m.width + gx
                ;
                lemma_xy_idx_bounds(m.width, m.height, gx + 1, gy + 1);
            }
            exits.push(idx + (w as usize) + 1);
        }
        proof {
            assert(exits@ =~= e7 + crate::connectivity::exit_entry(
                m,
                gx + 1,
                gy + 1,
                idx as int + m.width + 1,
            ));
        }
        exits
    }

    /// A full copy of the map.
    pub fn clone_map(&self) -> (r: Grid)
        ensures
            r@ == self@,
    {
        let r = Grid {
            tiles: copy_vec(&self.tiles),
            width: self.width,
            height: self.height,
            revealed_tiles: copy_vec(&self.revealed_tiles),
            visible_tiles: copy_vec(&self.visible_tiles),
            blocked: copy_vec(&self.blocked),
            depth: self.depth,
            bloodstains: copy_vec(&self.bloodstains),
            view_blocked: copy_vec(&self.view_blocked),
            tile_content: copy_content(&self.tile_content),
        };
        r
    }
}

impl Clone for Grid {
    /// A full copy of the map.
    fn clone(&self) -> (r: Grid)
        ensures
            r@ == self@,
    {
        self.clone_map()
    }
}

/// A vector of `n` empty occupant lists.
fn filled_empty_content(n: usize) -> (r: Vec<Vec<u64>>)
    ensures
        r@.len() == n,
        forall|i: int| 0 <= i < n ==> r@[i]@.len() == 0,
{
    let mut r: Vec<Vec<u64>> = Vec::new();
    while r.len() < n
        invariant
            r@.len() <= n,
            forall|i: int| 0 <= i < r@.len() ==> r@[i]@.len() == 0,
        decreases n - r@.len(),
    {
        r.push(Vec::new());
    }
    r
}

} // verus!
