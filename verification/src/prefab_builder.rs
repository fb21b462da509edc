//! Template overlays: fixed character fragments stamped into the grid.
//!
//! A fragment is a rectangle of characters with a fixed mapping: space is
//! floor, `#` is wall, `@` is floor claiming the starting position, `>` is
//! the exit, and a small set of letters and symbols are floor plus a spawn
//! request for a named template.  An unrecognized character leaves the
//! tile as previously set — a recoverable skip, never a failure.

use crate::connectivity::{cull_tiles, exit_spec, remove_unreachable_areas_returning_most_distant};
use crate::context::{with_snapshot, BuildContext, BuildError, CtxView};
use crate::grid::{
    lemma_area_bounds, lemma_idx_coords, lemma_idx_injective, lemma_xy_idx_bounds, Grid, GridView,
    Position, TileType,
};
use crate::prefab_levels::PrefabLevel;
use crate::prefab_rooms::PrefabRoom;
use crate::prefab_sections::{HorizontalPlacement, PrefabSection, VerticalPlacement};
use crate::rng::{spec_roll, spec_roll_state, Rng};
use vstd::prelude::*;

verus! {

/// The template characters of a fragment after reading: row separators
/// removed and non-breaking spaces replaced by plain spaces, over the
/// first `k` characters of the source.
pub open spec fn ascii_filtered(s: Seq<char>, k: nat) -> Seq<char>
    decreases k,
{
    if k == 0 {
        Seq::empty()
    } else {
        let rest = ascii_filtered(s, (k - 1) as nat);
        let c = s[k - 1];
        if c == '\r' || c == '\n' {
            rest
        } else if c == '\u{a0}' {
            rest.push(' ')
        } else {
            rest.push(c)
        }
    }
}

/// The cell characters brought to exactly `n` entries: truncated when too
/// long, padded with walls when too short.
pub open spec fn normalized(cs: Seq<char>, n: nat) -> Seq<char> {
    if cs.len() >= n {
        cs.subrange(0, n as int)
    } else {
        cs + Seq::new((n - cs.len()) as nat, |i: int| '#')
    }
}

/// Reads a character template into a flat cell vector: newlines and
/// carriage returns are dropped, and non-breaking spaces become plain
/// spaces.
pub fn read_ascii_to_vec(template: &str) -> (r: Vec<char>)
    ensures
        r@ == ascii_filtered(template@, template@.len()),
{
    let n = template.unicode_len();
    let mut r: Vec<char> = Vec::new();
    let mut i: usize = 0;
    while i < n
        invariant
            i <= n,
            n == template@.len(),
            r@ == ascii_filtered(template@, i as nat),
        decreases n - i,
    {
        let c = template.get_char(i);
        if c == '\r' || c == '\n' {
        } else if c == '\u{a0}' {
            r.push(' ');
        } else {
            r.push(c);
        }
        i = i + 1;
    }
    r
}

/// Brings a cell vector to exactly `n` entries, truncating or padding
/// with walls.
pub fn normalize_cells(cells: Vec<char>, n: usize) -> (r: Vec<char>)
    ensures
        r@ == normalized(cells@, n as nat),
        r@.len() == n,
{
    if cells.len() >= n {
        let mut r: Vec<char> = Vec::new();
        let mut i: usize = 0;
        while i < n
            invariant
                i <= n,
                n <= cells@.len(),
                r@ =~= cells@.subrange(0, i as int),
            decreases n - i,
        {
            r.push(cells[i]);
            i = i + 1;
        }
        proof {
            assert(r@ =~= normalized(cells@, n as nat));
        }
        r
    } else {
        let mut r = cells;
        let ghost cs = r@;
        while r.len() < n
            invariant
                cs.len() <= r@.len() <= n,
                r@ =~= cs + Seq::new((r@.len() - cs.len()) as nat, |i: int| '#'),
            decreases n - r@.len(),
        {
            r.push('#');
            proof {
                assert(r@ =~= cs + Seq::new((r@.len() - cs.len()) as nat, |i: int| '#'));
            }
        }
        proof {
            assert(r@ =~= normalized(cs, n as nat));
        }
        r
    }
}

/// The context with one tile redrawn.
pub open spec fn with_tile(c: CtxView, idx: int, t: TileType) -> CtxView {
    CtxView { map: GridView { tiles: c.map.tiles.update(idx, t), ..c.map }, ..c }
}

/// The context with one spawn request appended.
pub open spec fn with_spawn(c: CtxView, idx: int, name: Seq<char>) -> CtxView {
    CtxView { spawns: c.spawns.push((idx, name)), ..c }
}

/// The fixed character-to-tile mapping applied to one tile: space is
/// floor, `#` wall, `@` floor claiming the starting position, `>` the
/// exit, and the spawn letters floor plus a named spawn request; any other
/// character leaves the context unchanged.
pub open spec fn glyph_applied(c: CtxView, ch: char, idx: int) -> CtxView {
    if ch == ' ' {
        with_tile(c, idx, TileType::Floor)
    } else if ch == '#' {
        with_tile(c, idx, TileType::Wall)
    } else if ch == '@' {
        CtxView {
            start: Some(
                Position { x: (idx % c.map.width) as i32, y: (idx / c.map.width) as i32 },
            ),
            ..with_tile(c, idx, TileType::Floor)
        }
    } else if ch == '>' {
        with_tile(c, idx, TileType::DownStairs)
    } else if ch == 'g' {
        with_spawn(with_tile(c, idx, TileType::Floor), idx, "Goblin"@)
    } else if ch == 'o' {
        with_spawn(with_tile(c, idx, TileType::Floor), idx, "Orc"@)
    } else if ch == '^' {
        with_spawn(with_tile(c, idx, TileType::Floor), idx, "Bear Trap"@)
    } else if ch == '%' {
        with_spawn(with_tile(c, idx, TileType::Floor), idx, "Rations"@)
    } else if ch == '!' {
        with_spawn(with_tile(c, idx, TileType::Floor), idx, "Health Potion"@)
    } else {
        c
    }
}

impl BuildContext {
    /// Applies the fixed character-to-tile mapping to one tile; an
    /// unrecognized character is skipped and the tile left as it was.
    pub fn char_to_map(&mut self, ch: char, idx: usize)
        requires
            old(self)@.wf(),
            idx < old(self)@.map.tiles.len(),
        ensures
            final(self)@ == glyph_applied(old(self)@, ch, idx as int),
            final(self)@.wf(),
            final(self)@.map.width == old(self)@.map.width,
            final(self)@.map.height == old(self)@.map.height,
            final(self)@.map.tiles.len() == old(self)@.map.tiles.len(),
            final(self)@.visualize == old(self)@.visualize,
            final(self)@.depth == old(self)@.depth,
    {
        proof {
            lemma_area_bounds(self@.map.width, self@.map.height);
            lemma_idx_coords(self@.map.width, self@.map.height, idx as int);
        }
        match ch {
            ' ' => {
                self.map.tiles.set(idx, TileType::Floor);
            },
            '#' => {
                self.map.tiles.set(idx, TileType::Wall);
            },
            '@' => {
                let x = (idx as i32) % self.map.width;
                let y = (idx as i32) / self.map.width;
                self.map.tiles.set(idx, TileType::Floor);
                self.starting_position = Some(Position { x, y });
            },
            '>' => {
                self.map.tiles.set(idx, TileType::DownStairs);
            },
            'g' => {
                self.map.tiles.set(idx, TileType::Floor);
                self.push_spawn(idx, "Goblin");
            },
            'o' => {
                self.map.tiles.set(idx, TileType::Floor);
                self.push_spawn(idx, "Orc");
            },
            '^' => {
                self.map.tiles.set(idx, TileType::Floor);
                self.push_spawn(idx, "Bear Trap");
            },
            '%' => {
                self.map.tiles.set(idx, TileType::Floor);
                self.push_spawn(idx, "Rations");
            },
            '!' => {
                self.map.tiles.set(idx, TileType::Floor);
                self.push_spawn(idx, "Health Potion");
            },
            _ => {},
        }
    }

    /// Appends one named spawn request.
    fn push_spawn(&mut self, idx: usize, name: &str)
        requires
            old(self)@.wf(),
            idx < old(self)@.map.tiles.len(),
        ensures
            final(self)@ == with_spawn(old(self)@, idx as int, name@),
            final(self)@.wf(),
    {
        self.spawn_list.push((idx, String::from_str(name)));
        proof {
            assert(self@.spawns =~= old(self)@.spawns.push((idx as int, name@)));
        }
    }
}

/// The context after the first `k` cells of a fragment of width `fw` have
/// been stamped with their character mapping, the fragment's top-left
/// corner sitting at `(cx, cy)`.
pub open spec fn paste_spec(
    c: CtxView,
    cells: Seq<char>,
    fw: int,
    cx: int,
    cy: int,
    k: nat,
) -> CtxView
    decreases k,
{
    if k == 0 {
        c
    } else {
        let prev = paste_spec(c, cells, fw, cx, cy, (k - 1) as nat);
        glyph_applied(
            prev,
            cells[k - 1],
            (cy + (k - 1) as int / fw) * c.map.width + (cx + (k - 1) as int % fw),
        )
    }
}

/// Stamps a whole fragment into the grid, top-left corner at `(cx, cy)`,
/// cell by cell in raster order.
#[verifier::loop_isolation(false)]
pub fn paste_fragment(
    ctx: &mut BuildContext,
    cells: &Vec<char>,
    fw: usize,
    fh: usize,
    cx: usize,
    cy: usize,
)
    requires
        old(ctx)@.wf(),
        cells@.len() == fw * fh,
        1 <= fw,
        1 <= fh,
        cx + fw <= old(ctx)@.map.width,
        cy + fh <= old(ctx)@.map.height,
    ensures
        final(ctx)@ == paste_spec(
            old(ctx)@,
            cells@,
            fw as int,
            cx as int,
            cy as int,
            cells@.len(),
        ),
        final(ctx)@.wf(),
        final(ctx)@.map.width == old(ctx)@.map.width,
        final(ctx)@.map.height == old(ctx)@.map.height,
        final(ctx)@.map.tiles.len() == old(ctx)@.map.tiles.len(),
        final(ctx)@.visualize == old(ctx)@.visualize,
        final(ctx)@.depth == old(ctx)@.depth,
{
    let ghost c0 = old(ctx)@;
    let mut i: usize = 0;
    proof {
        crate::grid::lemma_area_bounds(fw as int, fh as int);
    }
    while i < cells.len()
        invariant
            i <= cells@.len(),
            ctx@ == paste_spec(c0, cells@, fw as int, cx as int, cy as int, i as nat),
            ctx@.wf(),
            ctx@.map.width == c0.map.width,
            ctx@.map.height == c0.map.height,
            ctx@.map.tiles.len() == c0.map.tiles.len(),
            ctx@.visualize == c0.visualize,
            ctx@.depth == c0.depth,
        decreases cells@.len() - i,
    {
        let tx = i % fw;
        let ty = i / fw;
        proof {
            lemma_idx_coords(fw as int, fh as int, i as int);
        }
        let idx = ctx.map.xy_idx((cx + tx) as i32, (cy + ty) as i32);
        ctx.char_to_map(cells[i], idx);
        i = i + 1;
    }
}


/// The horizontal anchor: the leftmost column of the pasted rectangle.
pub open spec fn spec_anchor_x(p: HorizontalPlacement, w: int, fw: int) -> int {
    match p {
        HorizontalPlacement::Left => 0,
        HorizontalPlacement::Center => w / 2 - fw / 2,
        HorizontalPlacement::Right => w - 1 - fw,
    }
}

/// The vertical anchor: the topmost row of the pasted rectangle.
pub open spec fn spec_anchor_y(p: VerticalPlacement, h: int, fh: int) -> int {
    match p {
        VerticalPlacement::Top => 0,
        VerticalPlacement::Center => h / 2 - fh / 2,
        VerticalPlacement::Bottom => h - 1 - fh,
    }
}

/// A fragment no wider than the grid anchors inside it.
pub proof fn lemma_anchor_x_bounds(p: HorizontalPlacement, w: int, fw: int) by (nonlinear_arith)
    requires
        1 <= fw <= w - 1,
        3 <= w,
    ensures
        0 <= spec_anchor_x(p, w, fw),
        spec_anchor_x(p, w, fw) + fw <= w,
{
}

/// A fragment no taller than the grid anchors inside it.
pub proof fn lemma_anchor_y_bounds(p: VerticalPlacement, h: int, fh: int) by (nonlinear_arith)
    requires
        1 <= fh <= h - 1,
        3 <= h,
    ensures
        0 <= spec_anchor_y(p, h, fh),
        spec_anchor_y(p, h, fh) + fh <= h,
{
}

/// Tile `idx` lies inside the rectangle with top-left corner `(x0, y0)`,
/// width `fw` and height `fh`, on a grid `w` wide.
pub open spec fn inside_rect(w: int, idx: int, x0: int, y0: int, fw: int, fh: int) -> bool {
    x0 <= idx % w < x0 + fw && y0 <= idx / w < y0 + fh
}

/// The first `k` spawn requests with those inside the rectangle removed.
pub open spec fn spawns_outside(
    sp: Seq<(int, Seq<char>)>,
    w: int,
    x0: int,
    y0: int,
    fw: int,
    fh: int,
    k: nat,
) -> Seq<(int, Seq<char>)>
    decreases k,
{
    if k == 0 {
        Seq::empty()
    } else {
        let rest = spawns_outside(sp, w, x0, y0, fw, fh, (k - 1) as nat);
        if inside_rect(w, sp[k - 1].0, x0, y0, fw, fh) {
            rest
        } else {
            rest.push(sp[k - 1])
        }
    }
}

/// Filtering spawn requests keeps every surviving tile index within its
/// earlier bound.
proof fn lemma_spawns_outside_bound(
    sp: Seq<(int, Seq<char>)>,
    w: int,
    x0: int,
    y0: int,
    fw: int,
    fh: int,
    k: nat,
    n: int,
)
    requires
        k <= sp.len(),
        forall|i: int| 0 <= i < sp.len() ==> 0 <= (#[trigger] sp[i]).0 < n,
    ensures
        forall|j: int|
            0 <= j < spawns_outside(sp, w, x0, y0, fw, fh, k).len() ==> 0 <= (#[trigger] spawns_outside(
                sp,
                w,
                x0,
                y0,
                fw,
                fh,
                k,
            )[j]).0 < n,
    decreases k,
{
    if k > 0 {
        lemma_spawns_outside_bound(sp, w, x0, y0, fw, fh, (k - 1) as nat, n);
        let rest = spawns_outside(sp, w, x0, y0, fw, fh, (k - 1) as nat);
        let cur = spawns_outside(sp, w, x0, y0, fw, fh, k);
        assert forall|j: int| 0 <= j < cur.len() implies 0 <= (#[trigger] cur[j]).0 < n by {
            if !inside_rect(w, sp[k - 1].0, x0, y0, fw, fh) {
                if j < rest.len() {
                    assert(cur[j] == rest[j]);
                } else {
                    assert(cur[j] == sp[k - 1]);
                }
            } else {
                assert(cur[j] == rest[j]);
            }
        };
    }
}

/// Removes every spawn request whose tile lies inside the rectangle,
/// keeping the rest in order.
#[verifier::loop_isolation(false)]
pub fn retain_spawns_outside(ctx: &mut BuildContext, x0: i32, y0: i32, fw: usize, fh: usize)
    requires
        old(ctx)@.wf(),
        fw <= 4096,
        fh <= 4096,
    ensures
        final(ctx)@ == (CtxView {
            spawns: spawns_outside(
                old(ctx)@.spawns,
                old(ctx)@.map.width,
                x0 as int,
                y0 as int,
                fw as int,
                fh as int,
                old(ctx)@.spawns.len(),
            ),
            ..old(ctx)@
        }),
        final(ctx)@.wf(),
{
    let ghost c0 = old(ctx)@;
    let ghost w = c0.map.width;
    proof {
        lemma_area_bounds(c0.map.width, c0.map.height);
    }
    let width = ctx.map.width;
    let mut kept: Vec<(usize, String)> = Vec::new();
    let mut i: usize = 0;
    while i < ctx.spawn_list.len()
        invariant
            i <= ctx.spawn_list@.len(),
            ctx@ == c0,
            ({
                let spec = spawns_outside(
                    c0.spawns,
                    w,
                    x0 as int,
                    y0 as int,
                    fw as int,
                    fh as int,
                    i as nat,
                );
                &&& kept@.len() == spec.len()
                &&& forall|j: int|
                    0 <= j < kept@.len() ==> (#[trigger] kept@[j]).0 as int == spec[j].0
                        && kept@[j].1@ == spec[j].1
            }),
        decreases ctx.spawn_list@.len() - i,
    {
        let sidx = ctx.spawn_list[i].0;
        proof {
            assert(sidx as int == c0.spawns[i as int].0);
            assert(0 <= c0.spawns[i as int].0 < c0.map.tiles.len());
        }
        let sx = (sidx as i32) % width;
        let sy = (sidx as i32) / width;
        let inside = x0 <= sx && (sx as i64) < x0 as i64 + fw as i64 && y0 <= sy && (sy as i64) < y0
            as i64 + fh as i64;
        proof {
            assert(sidx as int == c0.spawns[i as int].0);
            assert(inside == inside_rect(
                w,
                c0.spawns[i as int].0,
                x0 as int,
                y0 as int,
                fw as int,
                fh as int,
            ));
        }
        if !inside {
            let name = ctx.spawn_list[i].1.clone();
            kept.push((sidx, name));
        }
        i = i + 1;
    }
    self_set_spawns(ctx, kept);
    proof {
        lemma_spawns_outside_bound(
            c0.spawns,
            w,
            x0 as int,
            y0 as int,
            fw as int,
            fh as int,
            c0.spawns.len(),
            c0.map.tiles.len() as int,
        );
        assert(ctx@.spawns =~= spawns_outside(
            c0.spawns,
            w,
            x0 as int,
            y0 as int,
            fw as int,
            fh as int,
            c0.spawns.len(),
        ));
        assert(ctx@ == (CtxView {
            spawns: spawns_outside(
                c0.spawns,
                w,
                x0 as int,
                y0 as int,
                fw as int,
                fh as int,
                c0.spawns.len(),
            ),
            ..c0
        }));
    }
}

/// Replaces the spawn list wholesale.
fn self_set_spawns(ctx: &mut BuildContext, spawns: Vec<(usize, String)>)
    ensures
        *final(ctx) == (BuildContext { spawn_list: spawns, ..*old(ctx) }),
{
    ctx.spawn_list = spawns;
}

/// The context a sectional overlay yields: spawn requests inside the
/// pasted rectangle dropped, a snapshot, the section stamped at its
/// anchors, and a second snapshot.
pub open spec fn sectional_spec(c: CtxView, section: PrefabSection) -> CtxView {
    let w = c.map.width;
    let h = c.map.height;
    let x0 = spec_anchor_x(section.placement.0, w, section.width as int);
    let y0 = spec_anchor_y(section.placement.1, h, section.height as int);
    let c1 = CtxView {
        spawns: spawns_outside(
            c.spawns,
            w,
            x0,
            y0,
            section.width as int,
            section.height as int,
            c.spawns.len(),
        ),
        ..c
    };
    let c2 = with_snapshot(c1);
    let c3 = paste_spec(c2, section.cells@, section.width as int, x0, y0, section.cells@.len());
    with_snapshot(c3)
}

/// Composites a section into the grid at its placement anchors: every
/// tile strictly outside the pasted rectangle is carried over unchanged,
/// and the prior spawn requests are filtered to those outside it.
#[verifier::loop_isolation(false)]
pub fn apply_sectional(ctx: &mut BuildContext, section: &PrefabSection)
    requires
        old(ctx)@.wf(),
        section.wf(),
        section.width < old(ctx)@.map.width,
        section.height < old(ctx)@.map.height,
    ensures
        final(ctx)@ == sectional_spec(old(ctx)@, *section),
        final(ctx)@.wf(),
        final(ctx)@.map.width == old(ctx)@.map.width,
        final(ctx)@.map.height == old(ctx)@.map.height,
        final(ctx)@.depth == old(ctx)@.depth,
        final(ctx)@.visualize == old(ctx)@.visualize,
{
    let ghost c0 = old(ctx)@;
    let width = ctx.map.width;
    let height = ctx.map.height;
    proof {
        lemma_anchor_x_bounds(section.placement.0, width as int, section.width as int);
        lemma_anchor_y_bounds(section.placement.1, height as int, section.height as int);
    }
    let chunk_x: i32 = match section.placement.0 {
        HorizontalPlacement::Left => 0,
        HorizontalPlacement::Center => (width / 2) - (section.width as i32 / 2),
        HorizontalPlacement::Right => (width - 1) - section.width as i32,
    };
    let chunk_y: i32 = match section.placement.1 {
        VerticalPlacement::Top => 0,
        VerticalPlacement::Center => (height / 2) - (section.height as i32 / 2),
        VerticalPlacement::Bottom => (height - 1) - section.height as i32,
    };
    retain_spawns_outside(ctx, chunk_x, chunk_y, section.width, section.height);
    ctx.take_snapshot();
    paste_fragment(
        ctx,
        &section.cells,
        section.width,
        section.height,
        chunk_x as usize,
        chunk_y as usize,
    );
    ctx.take_snapshot();
}


/// The positions, among the first `k` catalog entries, of the vaults
/// whose depth window admits `depth`.
pub open spec fn eligible_idx(rooms: Seq<PrefabRoom>, depth: int, k: nat) -> Seq<usize>
    decreases k,
{
    if k == 0 {
        Seq::empty()
    } else {
        let rest = eligible_idx(rooms, depth, (k - 1) as nat);
        if rooms[k - 1].first_depth <= depth <= rooms[k - 1].last_depth {
            rest.push(((k - 1) as int) as usize)
        } else {
            rest
        }
    }
}

/// Every eligible position names a catalog entry below `k`.
pub proof fn lemma_eligible_props(rooms: Seq<PrefabRoom>, depth: int, k: nat)
    requires
        k <= rooms.len(),
        k <= usize::MAX,
    ensures
        eligible_idx(rooms, depth, k).len() <= k,
        forall|j: int|
            0 <= j < eligible_idx(rooms, depth, k).len() ==> ((#[trigger] eligible_idx(
                rooms,
                depth,
                k,
            )[j]) as int) < k,
    decreases k,
{
    if k > 0 {
        lemma_eligible_props(rooms, depth, (k - 1) as nat);
        let rest = eligible_idx(rooms, depth, (k - 1) as nat);
        let cur = eligible_idx(rooms, depth, k);
        assert forall|j: int| 0 <= j < cur.len() implies ((#[trigger] cur[j]) as int) < k by {
            if rooms[k - 1].first_depth <= depth <= rooms[k - 1].last_depth {
                if j < rest.len() {
                    assert(cur[j] == rest[j]);
                } else {
                    assert(cur[j] == ((k - 1) as int) as usize);
                }
            } else {
                assert(cur[j] == rest[j]);
            }
        };
    }
}

/// Tile `idx` anchors a vault of size `vw` by `vh`: the footprint lies
/// strictly inside the map margin, covers only floor tiles, and touches
/// no tile already claimed by an earlier vault.
pub open spec fn vault_anchor_ok(
    t: Seq<TileType>,
    w: int,
    h: int,
    used: Seq<bool>,
    vw: int,
    vh: int,
    idx: int,
) -> bool {
    let x = idx % w;
    let y = idx / w;
    &&& x > 1
    &&& x + vw < w - 2
    &&& y > 1
    &&& y + vh < h - 2
    &&& forall|j: int|
        0 <= j < t.len() && inside_rect(w, j, x, y, vw, vh) ==> t[j] == TileType::Floor && !used[j]
}

/// The first anchor, scanning the last `k` tile indices in raster order,
/// at which the vault fits.
pub open spec fn first_fit_scan(
    t: Seq<TileType>,
    w: int,
    h: int,
    used: Seq<bool>,
    vw: int,
    vh: int,
    k: nat,
) -> Option<int>
    decreases k,
{
    if k == 0 {
        None
    } else {
        let idx = t.len() - k;
        if vault_anchor_ok(t, w, h, used, vw, vh, idx) {
            Some(idx)
        } else {
            first_fit_scan(t, w, h, used, vw, vh, (k - 1) as nat)
        }
    }
}

/// The claimed tiles after one vault's footprint is added.
pub open spec fn mark_rect(
    used: Seq<bool>,
    w: int,
    x0: int,
    y0: int,
    fw: int,
    fh: int,
) -> Seq<bool> {
    Seq::new(used.len(), |i: int| used[i] || inside_rect(w, i, x0, y0, fw, fh))
}

/// The tile at `(cx, cy)` is floor and unclaimed.
pub open spec fn cell_free(t: Seq<TileType>, used: Seq<bool>, w: int, cx: int, cy: int) -> bool {
    t[cy * w + cx] == TileType::Floor && !used[cy * w + cx]
}

/// Whether the vault footprint anchored at `idx` fits: strictly inside
/// the map margin, over floor only, touching no claimed tile.
#[verifier::loop_isolation(false)]
#[verifier::rlimit(60)]
fn vault_anchor_ok_exec(map: &Grid, used: &Vec<bool>, vw: usize, vh: usize, idx: usize) -> (r:
    bool)
    requires
        map@.wf(),
        used@.len() == map@.tiles.len(),
        idx < map@.tiles.len(),
        1 <= vw <= 4096,
        1 <= vh <= 4096,
    ensures
        r == vault_anchor_ok(
            map@.tiles,
            map@.width,
            map@.height,
            used@,
            vw as int,
            vh as int,
            idx as int,
        ),
{
    let ghost t = map@.tiles;
    let ghost w = map@.width;
    let ghost h = map@.height;
    proof {
        lemma_area_bounds(w, h);
    }
    let x = (idx % (map.width as usize)) as i64;
    let y = (idx / (map.width as usize)) as i64;
    if !(x > 1 && x + (vw as i64) < (map.width as i64) - 2 && y > 1 && y + (vh as i64) < (map.height
        as i64) - 2) {
        return false;
    }
    let mut ok = true;
    let mut ty: usize = 0;
    while ty < vh
        invariant
            ty <= vh,
            ok <==> (forall|a: int, b: int|
                0 <= a < ty && 0 <= b < vw ==> #[trigger] cell_free(t, used@, w, x + b, y + a)),
        decreases vh - ty,
    {
        let mut tx: usize = 0;
        while tx < vw
            invariant
                ty < vh,
                tx <= vw,
                ok <==> ((forall|a: int, b: int|
                    0 <= a < ty && 0 <= b < vw ==> #[trigger] cell_free(t, used@, w, x + b, y + a))
                    && (forall|b: int|
                    0 <= b < tx ==> #[trigger] cell_free(t, used@, w, x + b, y + ty as int))),
            decreases vw - tx,
        {
            proof {
                lemma_xy_idx_bounds(w, h, x + tx, y + ty);
            }
            let fidx = map.xy_idx((x + tx as i64) as i32, (y + ty as i64) as i32);
            if map.tiles[fidx] != TileType::Floor || used[fidx] {
                ok = false;
                proof {
                    assert(!cell_free(t, used@, w, x + tx, y + ty));
                }
            }
            tx = tx + 1;
        }
        ty = ty + 1;
    }
    proof {
        let full = forall|a: int, b: int|
            0 <= a < vh && 0 <= b < vw ==> #[trigger] cell_free(t, used@, w, x + b, y + a);
        let rect = forall|j: int|
            0 <= j < t.len() && inside_rect(w, j, x as int, y as int, vw as int, vh as int) ==> t[j]
                == TileType::Floor && !used[j];
        if full {
            assert forall|j: int|
                0 <= j < t.len() && inside_rect(w, j, x as int, y as int, vw as int, vh as int)
                implies t[j] == TileType::Floor && !used@[j] by {
                lemma_idx_coords(w, h, j);
                let a = j / w - y;
                let b = j % w - x;
                assert((y + a) * w + (x + b) == j);
                assert(cell_free(t, used@, w, x + b, y + a));
            };
        }
        if rect {
            assert forall|a: int, b: int| 0 <= a < vh && 0 <= b < vw implies #[trigger] cell_free(
                t,
                used@,
                w,
                x + b,
                y + a,
            ) by {
                let j = (y + a) * w + (x + b);
                lemma_xy_idx_bounds(w, h, x + b, y + a);
                assert(j == (j / w) * w + j % w) by (nonlinear_arith)
                    requires 0 < w, 0 <= j
                ;
                lemma_idx_injective(w, x + b, y + a, j % w, j / w);
                assert(inside_rect(w, j, x as int, y as int, vw as int, vh as int));
            };
        }
        assert(idx as int % w == x && idx as int / w == y);
    }
    ok
}

/// The first raster-order anchor at which the vault fits, if any.
#[verifier::loop_isolation(false)]
fn find_vault_position(map: &Grid, used: &Vec<bool>, vw: usize, vh: usize) -> (r: Option<usize>)
    requires
        map@.wf(),
        used@.len() == map@.tiles.len(),
        1 <= vw <= 4096,
        1 <= vh <= 4096,
    ensures
        ({
            let spec = first_fit_scan(
                map@.tiles,
                map@.width,
                map@.height,
                used@,
                vw as int,
                vh as int,
                map@.tiles.len(),
            );
            match r {
                Some(p) => spec == Some(p as int) && p < map@.tiles.len() && vault_anchor_ok(
                    map@.tiles,
                    map@.width,
                    map@.height,
                    used@,
                    vw as int,
                    vh as int,
                    p as int,
                ),
                None => spec is None,
            }
        }),
{
    let ghost t = map@.tiles;
    let ghost w = map@.width;
    let ghost h = map@.height;
    let n = map.tiles.len();
    let mut idx: usize = 0;
    while idx < n
        invariant
            idx <= n,
            first_fit_scan(t, w, h, used@, vw as int, vh as int, t.len()) == first_fit_scan(
                t,
                w,
                h,
                used@,
                vw as int,
                vh as int,
                (n - idx) as nat,
            ),
        decreases n - idx,
    {
        if vault_anchor_ok_exec(map, used, vw, vh, idx) {
            return Some(idx);
        }
        idx = idx + 1;
    }
    None
}

/// Tile `j` lies in the rows of the footprint already claimed, or in the
/// claimed prefix of the row being claimed.
pub open spec fn inside_rect_upto(
    w: int,
    j: int,
    x0: int,
    y0: int,
    fw: int,
    ty: int,
    tx: int,
) -> bool {
    (y0 <= j / w < y0 + ty && x0 <= j % w < x0 + fw) || (j / w == y0 + ty && x0 <= j % w < x0 + tx)
}

/// Claims every tile of one vault footprint.
#[verifier::loop_isolation(false)]
#[verifier::rlimit(60)]
fn mark_vault_footprint(
    map: &Grid,
    used: &mut Vec<bool>,
    x0: usize,
    y0: usize,
    fw: usize,
    fh: usize,
)
    requires
        map@.wf(),
        old(used)@.len() == map@.tiles.len(),
        1 <= fw,
        1 <= fh,
        x0 + fw <= map@.width,
        y0 + fh <= map@.height,
    ensures
        final(used)@ == mark_rect(
            old(used)@,
            map@.width,
            x0 as int,
            y0 as int,
            fw as int,
            fh as int,
        ),
{
    let ghost u0 = old(used)@;
    let ghost w = map@.width;
    let ghost h = map@.height;
    proof {
        lemma_area_bounds(w, h);
    }
    let mut ty: usize = 0;
    while ty < fh
        invariant
            ty <= fh,
            used@.len() == u0.len(),
            forall|j: int|
                0 <= j < u0.len() ==> #[trigger] used@[j] == (u0[j] || inside_rect_upto(
                    w,
                    j,
                    x0 as int,
                    y0 as int,
                    fw as int,
                    ty as int,
                    0,
                )),
        decreases fh - ty,
    {
        let mut tx: usize = 0;
        while tx < fw
            invariant
                ty < fh,
                tx <= fw,
                used@.len() == u0.len(),
                forall|j: int|
                    0 <= j < u0.len() ==> #[trigger] used@[j] == (u0[j] || inside_rect_upto(
                        w,
                        j,
                        x0 as int,
                        y0 as int,
                        fw as int,
                        ty as int,
                        tx as int,
                    )),
            decreases fw - tx,
        {
            proof {
                lemma_xy_idx_bounds(w, h, x0 + tx, y0 + ty);
            }
            let fidx = map.xy_idx((x0 + tx) as i32, (y0 + ty) as i32);
            used.set(fidx, true);
            proof {
                lemma_idx_coords(w, h, fidx as int);
                lemma_idx_injective(
                    w,
                    x0 + tx,
                    y0 + ty,
                    fidx as int % w,
                    fidx as int / w,
                );
                assert forall|j: int| 0 <= j < u0.len() implies #[trigger] used@[j] == (u0[j]
                    || inside_rect_upto(
                    w,
                    j,
                    x0 as int,
                    y0 as int,
                    fw as int,
                    ty as int,
                    tx as int + 1,
                )) by {
                    if j != fidx as int {
                        assert(j == (j / w) * w + j % w) by (nonlinear_arith)
                            requires 0 < w
                        ;
                        assert(!(j % w == x0 + tx && j / w == y0 + ty));
                    }
                };
            }
            tx = tx + 1;
        }
        ty = ty + 1;
    }
    proof {
        assert(used@ =~= mark_rect(u0, w, x0 as int, y0 as int, fw as int, fh as int));
    }
}


/// One run of the vault-placement loop: `count` draws from the eligible
/// pool, each placed at its first fitting anchor (or skipped when none
/// fits), claiming its footprint and leaving the pool.
pub open spec fn vaults_loop_spec(
    rooms: Seq<PrefabRoom>,
    c: CtxView,
    used: Seq<bool>,
    pool: Seq<usize>,
    r: Rng,
    count: nat,
) -> (CtxView, Rng)
    decreases count,
{
    if count == 0 || pool.len() == 0 {
        (c, r)
    } else {
        let vi: int = if pool.len() == 1 {
            0
        } else {
            spec_roll(r, pool.len() as i32) - 1
        };
        let r1 = if pool.len() == 1 {
            r
        } else {
            spec_roll_state(r)
        };
        let vault = rooms[pool[vi] as int];
        let w = c.map.width;
        let h = c.map.height;
        match first_fit_scan(
            c.map.tiles,
            w,
            h,
            used,
            vault.width as int,
            vault.height as int,
            c.map.tiles.len(),
        ) {
            Some(pos) => {
                let x0 = pos % w;
                let y0 = pos / w;
                let c1 = CtxView {
                    spawns: spawns_outside(
                        c.spawns,
                        w,
                        x0,
                        y0,
                        vault.width as int,
                        vault.height as int,
                        c.spawns.len(),
                    ),
                    ..c
                };
                let c2 = paste_spec(c1, vault.cells@, vault.width as int, x0, y0, vault.cells@.len());
                let c3 = with_snapshot(c2);
                let used1 = mark_rect(used, w, x0, y0, vault.width as int, vault.height as int);
                vaults_loop_spec(rooms, c3, used1, pool.remove(vi), r1, (count - 1) as nat)
            },
            None => vaults_loop_spec(rooms, c, used, pool, r1, (count - 1) as nat),
        }
    }
}

/// The whole vault stage: a snapshot of the carried-over grid, a
/// depth-gated roll deciding whether vaults are placed at all, and then
/// one to three placements from the depth-eligible pool.
pub open spec fn vaults_stage_spec(c: CtxView, r: Rng, rooms: Seq<PrefabRoom>) -> (CtxView, Rng) {
    let c0 = with_snapshot(c);
    let roll = spec_roll(r, 6);
    let r1 = spec_roll_state(r);
    if roll + c.depth < 4 {
        (c0, r1)
    } else {
        let pool = eligible_idx(rooms, c.depth, rooms.len());
        if pool.len() == 0 {
            (c0, r1)
        } else {
            let nroll = spec_roll(r1, 3);
            let r2 = spec_roll_state(r1);
            let nv: int = if nroll <= pool.len() {
                nroll as int
            } else {
                pool.len() as int
            };
            vaults_loop_spec(
                rooms,
                c0,
                Seq::new(c.map.tiles.len(), |i: int| false),
                pool,
                r2,
                nv as nat,
            )
        }
    }
}

/// Stamps up to three non-overlapping vaults into existing floor area: a
/// depth-gated roll first decides whether any vault is placed; each
/// chosen vault takes the first anchor, in raster order, whose footprint
/// lies strictly inside the map margin, covers only floor, and touches no
/// earlier vault; a vault with no anchor is skipped, and each fragment is
/// used at most once.
#[verifier::loop_isolation(false)]
#[verifier::rlimit(100)]
pub fn apply_room_vaults(ctx: &mut BuildContext, rng: &mut Rng, catalog: &Vec<PrefabRoom>)
    requires
        old(ctx)@.wf(),
        -1000000 <= old(ctx)@.depth <= 1000000,
        catalog@.len() <= 4096,
        forall|i: int| 0 <= i < catalog@.len() ==> (#[trigger] catalog@[i]).wf(),
    ensures
        ({
            let (sc, sr) = vaults_stage_spec(old(ctx)@, *old(rng), catalog@);
            &&& final(ctx)@ == sc
            &&& *final(rng) == sr
        }),
        final(ctx)@.wf(),
        final(ctx)@.map.width == old(ctx)@.map.width,
        final(ctx)@.map.height == old(ctx)@.map.height,
        final(ctx)@.depth == old(ctx)@.depth,
        final(ctx)@.visualize == old(ctx)@.visualize,
{
    let ghost c00 = old(ctx)@;
    let ghost r00 = *rng;
    ctx.take_snapshot();
    let ghost c0 = ctx@;
    let vault_roll = rng.roll_dice(6);
    if vault_roll + ctx.depth < 4 {
        return ;
    }
    // the vaults whose depth window admits the current depth
    let mut pool: Vec<usize> = Vec::new();
    let mut i: usize = 0;
    while i < catalog.len()
        invariant
            i <= catalog@.len(),
            pool@ == eligible_idx(catalog@, c00.depth, i as nat),
        decreases catalog@.len() - i,
    {
        if catalog[i].first_depth <= ctx.depth && ctx.depth <= catalog[i].last_depth {
            pool.push(i);
        }
        i = i + 1;
    }
    proof {
        lemma_eligible_props(catalog@, c00.depth, catalog@.len());
    }
    if pool.len() == 0 {
        return ;
    }
    let n_roll = rng.roll_dice(3);
    let n_vaults: usize = if (n_roll as usize) <= pool.len() {
        n_roll as usize
    } else {
        pool.len()
    };
    let ghost r2 = *rng;
    let n = ctx.map.tiles.len();
    let mut used: Vec<bool> = crate::grid::filled_vec(n, false);
    proof {
        assert(used@ =~= Seq::new(c00.map.tiles.len(), |i: int| false));
    }
    let ghost pool0 = pool@;
    let ghost used0 = used@;
    let mut placed: usize = 0;
    while placed < n_vaults
        invariant
            placed <= n_vaults,
            ctx@.wf(),
            ctx@.map.width == c00.map.width,
            ctx@.map.height == c00.map.height,
            ctx@.map.tiles.len() == c00.map.tiles.len(),
            ctx@.depth == c00.depth,
            ctx@.visualize == c00.visualize,
            used@.len() == c00.map.tiles.len(),
            pool@.len() + placed >= n_vaults,
            pool@.len() <= 4096,
            forall|k: int| 0 <= k < pool@.len() ==> ((#[trigger] pool@[k]) as int) < catalog@.len(),
            vaults_loop_spec(catalog@, c0, used0, pool0, r2, n_vaults as nat) == vaults_loop_spec(
                catalog@,
                ctx@,
                used@,
                pool@,
                *rng,
                (n_vaults - placed) as nat,
            ),
        decreases n_vaults - placed,
    {
        let ghost c_it = ctx@;
        let ghost used_it = used@;
        let ghost pool_it = pool@;
        let ghost r_it = *rng;
        let vault_index: usize = if pool.len() == 1 {
            0
        } else {
            (rng.roll_dice(pool.len() as i32) - 1) as usize
        };
        let room_i = pool[vault_index];
        let vw = catalog[room_i].width;
        let vh = catalog[room_i].height;
        let found = find_vault_position(&ctx.map, &used, vw, vh);
        match found {
            Some(pos) => {
                let width = ctx.map.width as usize;
                let x0 = pos % width;
                let y0 = pos / width;
                proof {
                    assert(vault_anchor_ok(
                        c_it.map.tiles,
                        c_it.map.width,
                        c_it.map.height,
                        used_it,
                        vw as int,
                        vh as int,
                        pos as int,
                    ));
                }
                retain_spawns_outside(ctx, x0 as i32, y0 as i32, vw, vh);
                paste_fragment(ctx, &catalog[room_i].cells, vw, vh, x0, y0);
                ctx.take_snapshot();
                mark_vault_footprint(&ctx.map, &mut used, x0, y0, vw, vh);
                pool.remove(vault_index);
            },
            None => {},
        }
        placed = placed + 1;
        proof {
            assert(vaults_loop_spec(
                catalog@,
                c_it,
                used_it,
                pool_it,
                r_it,
                (n_vaults - placed + 1) as nat,
            ) == vaults_loop_spec(
                catalog@,
                ctx@,
                used@,
                pool@,
                *rng,
                (n_vaults - placed) as nat,
            ));
        }
    }
}


/// The built-in vault catalog.
pub fn master_vault_list() -> (r: Vec<PrefabRoom>)
    ensures
        r@.len() == 3,
        forall|i: int| 0 <= i < r@.len() ==> (#[trigger] r@[i]).wf(),
{
    let mut v: Vec<PrefabRoom> = Vec::new();
    v.push(crate::prefab_rooms::totally_not_a_trap());
    v.push(crate::prefab_rooms::checkerboard());
    v.push(crate::prefab_rooms::silly_smile());
    v
}

/// What a template overlay materializes.
pub enum PrefabMode {
    /// A full fixed level decoded from an external resource by the host.
    RexLevel { template: PrefabLevel },
    /// A full fixed level from a built-in character template.
    Constant { level: PrefabLevel },
    /// A rectangular section composited into the current grid.
    Sectional { section: PrefabSection },
    /// Non-overlapping vaults stamped into existing floor area.
    RoomVaults { vaults: Vec<PrefabRoom> },
}

impl PrefabMode {
    /// The mode's fragments are well formed and fit a grid of the given
    /// dimensions.
    pub open spec fn wf(self, w: int, h: int) -> bool {
        match self {
            PrefabMode::RexLevel { template } => template.wf() && template.width <= w
                && template.height <= h,
            PrefabMode::Constant { level } => level.wf() && level.width <= w && level.height <= h,
            PrefabMode::Sectional { section } => section.wf() && section.width < w
                && section.height < h,
            PrefabMode::RoomVaults { vaults } => vaults@.len() <= 4096 && forall|i: int|
                0 <= i < vaults@.len() ==> (#[trigger] vaults@[i]).wf(),
        }
    }
}

/// The context and random state after the finishing block that runs when
/// no stage has claimed a starting position yet: pick the center-walk
/// start, cull unreachable floor, and place the most distant exit, with a
/// snapshot after each step.  Fails when the walk finds no floor tile.
pub open spec fn finish_spec(c: CtxView) -> (CtxView, bool) {
    if c.start is Some {
        (c, true)
    } else {
        let w = c.map.width;
        let h = c.map.height;
        match crate::cellular_automata::walk_left_spec(c.map.tiles, w, h / 2, w / 2) {
            None => (c, false),
            Some(x) => {
                let pos = Position { x: x as i32, y: (h / 2) as i32 };
                let s = (h / 2) * w + x;
                let c1 = with_snapshot(CtxView { start: Some(pos), ..c });
                let t0 = c1.map.tiles;
                let c2 = with_snapshot(
                    CtxView {
                        map: GridView {
                            tiles: cull_tiles(t0, w, h, s),
                            blocked: Seq::new(t0.len(), |i: int| t0[i] == TileType::Wall),
                            ..c1.map
                        },
                        ..c1
                    },
                );
                let e = exit_spec(t0, w, h, s);
                let c3 = with_snapshot(
                    CtxView {
                        map: GridView {
                            tiles: c2.map.tiles.update(e, TileType::DownStairs),
                            ..c2.map
                        },
                        ..c2
                    },
                );
                (c3, true)
            },
        }
    }
}

/// Runs the finishing block when no stage has claimed a starting position
/// yet: walk from the center to a floor start, cull unreachable floor,
/// and place the most distant exit.
pub fn finish_layout(ctx: &mut BuildContext) -> (r: Result<(), BuildError>)
    requires
        old(ctx)@.wf(),
    ensures
        ({
            let (sc, ok) = finish_spec(old(ctx)@);
            &&& final(ctx)@ == sc
            &&& r == (if ok {
                Ok::<(), BuildError>(())
            } else {
                Err::<(), BuildError>(BuildError::NoStartingPoint)
            })
        }),
        final(ctx)@.wf(),
        final(ctx)@.map.width == old(ctx)@.map.width,
        final(ctx)@.map.height == old(ctx)@.map.height,
        final(ctx)@.depth == old(ctx)@.depth,
        final(ctx)@.visualize == old(ctx)@.visualize,
{
    if ctx.starting_position.is_some() {
        return Ok(());
    }
    let found = crate::cellular_automata::find_starting_position(&ctx.map);
    match found {
        None => Err(BuildError::NoStartingPoint),
        Some(pos) => {
            ctx.starting_position = Some(pos);
            ctx.take_snapshot();
            let start_idx = ctx.map.xy_idx(pos.x, pos.y);
            let exit = remove_unreachable_areas_returning_most_distant(&mut ctx.map, start_idx);
            ctx.take_snapshot();
            ctx.map.tiles.set(exit, TileType::DownStairs);
            ctx.take_snapshot();
            Ok(())
        },
    }
}

/// The context, random state and success of one template-overlay stage:
/// the mode's own work, one snapshot, then the finishing block.
pub open spec fn prefab_stage_spec(mode: PrefabMode, c: CtxView, r: Rng) -> (CtxView, Rng, bool) {
    let (c1, r1): (CtxView, Rng) = match mode {
        PrefabMode::RexLevel { template } => (
            paste_spec(c, template.cells@, template.width as int, 0, 0, template.cells@.len()),
            r,
        ),
        PrefabMode::Constant { level } => (
            paste_spec(c, level.cells@, level.width as int, 0, 0, level.cells@.len()),
            r,
        ),
        PrefabMode::Sectional { section } => (sectional_spec(c, section), r),
        PrefabMode::RoomVaults { vaults } => {
            let (cv, rv) = vaults_stage_spec(c, r, vaults@);
            (cv, rv)
        },
    };
    let c2 = with_snapshot(c1);
    let (c3, ok) = finish_spec(c2);
    (c3, r1, ok)
}

/// A template-overlay stage: materializes a full fixed level, a
/// rectangular section, or a set of vault fragments, then finishes the
/// layout when no starting position has been claimed.
pub struct PrefabBuilder {
    pub mode: PrefabMode,
}

impl PrefabBuilder {
    /// An overlay of a full level decoded from an external resource by
    /// the host (the host hands the decoded character grid in).
    pub fn rex_level(template: PrefabLevel) -> (r: PrefabBuilder)
        ensures
            r.mode == (PrefabMode::RexLevel { template }),
    {
        PrefabBuilder { mode: PrefabMode::RexLevel { template } }
    }

    /// An overlay of a full built-in level template.
    pub fn constant(level: PrefabLevel) -> (r: PrefabBuilder)
        ensures
            r.mode == (PrefabMode::Constant { level }),
    {
        PrefabBuilder { mode: PrefabMode::Constant { level } }
    }

    /// An overlay compositing a section into the current grid.
    pub fn sectional(section: PrefabSection) -> (r: PrefabBuilder)
        ensures
            r.mode == (PrefabMode::Sectional { section }),
    {
        PrefabBuilder { mode: PrefabMode::Sectional { section } }
    }

    /// An overlay stamping vaults from the built-in catalog.
    pub fn vaults() -> (r: PrefabBuilder)
        ensures
            r.mode is RoomVaults,
            r.mode->vaults@.len() <= 4096,
            forall|i: int| 0 <= i < r.mode->vaults@.len() ==> (#[trigger] r.mode->vaults@[i]).wf(),
    {
        PrefabBuilder { mode: PrefabMode::RoomVaults { vaults: master_vault_list() } }
    }

    /// The default overlay: vaults from the built-in catalog.
    pub fn new() -> (r: PrefabBuilder)
        ensures
            r.mode is RoomVaults,
            r.mode->vaults@.len() <= 4096,
            forall|i: int| 0 <= i < r.mode->vaults@.len() ==> (#[trigger] r.mode->vaults@[i]).wf(),
    {
        PrefabBuilder::vaults()
    }

    /// Runs the overlay against the shared build context.
    pub fn build(&self, ctx: &mut BuildContext, rng: &mut Rng) -> (r: Result<(), BuildError>)
        requires
            old(ctx)@.wf(),
            self.mode.wf(old(ctx)@.map.width, old(ctx)@.map.height),
            -1000000 <= old(ctx)@.depth <= 1000000,
        ensures
            ({
                let (sc, sr, ok) = prefab_stage_spec(self.mode, old(ctx)@, *old(rng));
                &&& final(ctx)@ == sc
                &&& *final(rng) == sr
                &&& r == (if ok {
                    Ok::<(), BuildError>(())
                } else {
                    Err::<(), BuildError>(BuildError::NoStartingPoint)
                })
            }),
            final(ctx)@.wf(),
            final(ctx)@.map.width == old(ctx)@.map.width,
            final(ctx)@.map.height == old(ctx)@.map.height,
            final(ctx)@.depth == old(ctx)@.depth,
            final(ctx)@.visualize == old(ctx)@.visualize,
    {
        match &self.mode {
            PrefabMode::RexLevel { template } => {
                paste_fragment(ctx, &template.cells, template.width, template.height, 0, 0);
            },
            PrefabMode::Constant { level } => {
                paste_fragment(ctx, &level.cells, level.width, level.height, 0, 0);
            },
            PrefabMode::Sectional { section } => {
                apply_sectional(ctx, section);
            },
            PrefabMode::RoomVaults { vaults } => {
                apply_room_vaults(ctx, rng, vaults);
            },
        }
        ctx.take_snapshot();
        finish_layout(ctx)
    }
}


/// Applying one glyph never changes the grid's dimensions.
proof fn lemma_glyph_dims(c: CtxView, ch: char, idx: int)
    requires
        0 <= idx < c.map.tiles.len(),
    ensures
        glyph_applied(c, ch, idx).map.width == c.map.width,
        glyph_applied(c, ch, idx).map.height == c.map.height,
        glyph_applied(c, ch, idx).map.tiles.len() == c.map.tiles.len(),
        glyph_applied(c, ch, idx).map.revealed == c.map.revealed,
        glyph_applied(c, ch, idx).map.visible == c.map.visible,
        glyph_applied(c, ch, idx).map.blocked == c.map.blocked,
        glyph_applied(c, ch, idx).map.bloodstains == c.map.bloodstains,
        glyph_applied(c, ch, idx).map.view_blocked == c.map.view_blocked,
        glyph_applied(c, ch, idx).map.content == c.map.content,
{
}

/// Stamping a fragment never changes the grid's dimensions.
proof fn lemma_paste_dims(c: CtxView, cells: Seq<char>, fw: int, fh: int, cx: int, cy: int, k: nat)
    requires
        c.map.wf(),
        1 <= fw,
        1 <= fh,
        0 <= cx,
        0 <= cy,
        cx + fw <= c.map.width,
        cy + fh <= c.map.height,
        k <= fw * fh,
    ensures
        paste_spec(c, cells, fw, cx, cy, k).map.width == c.map.width,
        paste_spec(c, cells, fw, cx, cy, k).map.height == c.map.height,
        paste_spec(c, cells, fw, cx, cy, k).map.tiles.len() == c.map.tiles.len(),
        paste_spec(c, cells, fw, cx, cy, k).map.wf(),
    decreases k,
{
    if k > 0 {
        lemma_paste_dims(c, cells, fw, fh, cx, cy, (k - 1) as nat);
        let prev = paste_spec(c, cells, fw, cx, cy, (k - 1) as nat);
        let i = k - 1;
        lemma_idx_coords(fw, fh, i as int);
        lemma_xy_idx_bounds(
            c.map.width,
            c.map.height,
            cx + i as int % fw,
            cy + i as int / fw,
        );
        lemma_glyph_dims(
            prev,
            cells[i as int],
            (cy + i as int / fw) * c.map.width + (cx + i as int % fw),
        );
    }
}

/// The footprint rectangles of the vaults one placement loop stamps, in
/// placement order.
pub open spec fn placed_rects(
    rooms: Seq<PrefabRoom>,
    c: CtxView,
    used: Seq<bool>,
    pool: Seq<usize>,
    r: Rng,
    count: nat,
) -> Seq<(int, int, int, int)>
    decreases count,
{
    if count == 0 || pool.len() == 0 {
        Seq::empty()
    } else {
        let vi: int = if pool.len() == 1 {
            0
        } else {
            spec_roll(r, pool.len() as i32) - 1
        };
        let r1 = if pool.len() == 1 {
            r
        } else {
            spec_roll_state(r)
        };
        let vault = rooms[pool[vi] as int];
        let w = c.map.width;
        let h = c.map.height;
        match first_fit_scan(
            c.map.tiles,
            w,
            h,
            used,
            vault.width as int,
            vault.height as int,
            c.map.tiles.len(),
        ) {
            Some(pos) => {
                let x0 = pos % w;
                let y0 = pos / w;
                let rect = (x0, y0, vault.width as int, vault.height as int);
                let c1 = CtxView {
                    spawns: spawns_outside(
                        c.spawns,
                        w,
                        x0,
                        y0,
                        vault.width as int,
                        vault.height as int,
                        c.spawns.len(),
                    ),
                    ..c
                };
                let c2 = paste_spec(c1, vault.cells@, vault.width as int, x0, y0, vault.cells@.len());
                let c3 = with_snapshot(c2);
                let used1 = mark_rect(used, w, x0, y0, vault.width as int, vault.height as int);
                seq![rect] + placed_rects(rooms, c3, used1, pool.remove(vi), r1, (count - 1) as nat)
            },
            None => placed_rects(rooms, c, used, pool, r1, (count - 1) as nat),
        }
    }
}

/// No tile of the rectangle is already claimed.
pub open spec fn rect_free_of(w: int, n: int, used: Seq<bool>, rect: (int, int, int, int)) -> bool {
    forall|j: int| 0 <= j < n && inside_rect(w, j, rect.0, rect.1, rect.2, rect.3) ==> !used[j]
}

/// No tile lies inside both rectangles.
pub open spec fn rects_disjoint(
    w: int,
    n: int,
    a: (int, int, int, int),
    b: (int, int, int, int),
) -> bool {
    forall|j: int|
        0 <= j < n ==> !(inside_rect(w, j, a.0, a.1, a.2, a.3) && inside_rect(
            w,
            j,
            b.0,
            b.1,
            b.2,
            b.3,
        ))
}

/// Law: vault non-overlap.  The footprints of the vault fragments placed
/// in one run are pairwise disjoint, and none touches a tile that was
/// already claimed when the loop began.
pub proof fn lemma_vault_footprints_disjoint(
    rooms: Seq<PrefabRoom>,
    c: CtxView,
    used: Seq<bool>,
    pool: Seq<usize>,
    r: Rng,
    count: nat,
)
    requires
        c.map.wf(),
        used.len() == c.map.tiles.len(),
        pool.len() <= 4096,
        forall|k: int| 0 <= k < pool.len() ==> ((#[trigger] pool[k]) as int) < rooms.len(),
        forall|k: int| 0 <= k < rooms.len() ==> (#[trigger] rooms[k]).wf(),
    ensures
        ({
            let rects = placed_rects(rooms, c, used, pool, r, count);
            &&& forall|i: int|
                0 <= i < rects.len() ==> rect_free_of(
                    c.map.width,
                    c.map.tiles.len() as int,
                    used,
                    #[trigger] rects[i],
                )
            &&& forall|i: int, j: int|
                0 <= i < j < rects.len() ==> rects_disjoint(
                    c.map.width,
                    c.map.tiles.len() as int,
                    #[trigger] rects[i],
                    #[trigger] rects[j],
                )
        }),
    decreases count,
{
    let rects_all = placed_rects(rooms, c, used, pool, r, count);
    if count == 0 || pool.len() == 0 {
        assert(rects_all.len() == 0);
    } else {
        let w = c.map.width;
        let h = c.map.height;
        let n = c.map.tiles.len() as int;
        let vi: int = if pool.len() == 1 {
            0
        } else {
            spec_roll(r, pool.len() as i32) - 1
        };
        let r1 = if pool.len() == 1 {
            r
        } else {
            spec_roll_state(r)
        };
        assert(0 <= vi < pool.len()) by {
            if pool.len() > 1 {
                assert(1 <= spec_roll(r, pool.len() as i32) <= pool.len());
            }
        };
        let vault = rooms[pool[vi] as int];
        match first_fit_scan(
            c.map.tiles,
            w,
            h,
            used,
            vault.width as int,
            vault.height as int,
            c.map.tiles.len(),
        ) {
            Some(pos) => {
                lemma_first_fit_ok(
                    c.map.tiles,
                    w,
                    h,
                    used,
                    vault.width as int,
                    vault.height as int,
                    c.map.tiles.len(),
                );
                let x0 = pos % w;
                let y0 = pos / w;
                let rect = (x0, y0, vault.width as int, vault.height as int);
                let c1 = CtxView {
                    spawns: spawns_outside(
                        c.spawns,
                        w,
                        x0,
                        y0,
                        vault.width as int,
                        vault.height as int,
                        c.spawns.len(),
                    ),
                    ..c
                };
                assert(vault_anchor_ok(
                    c.map.tiles,
                    w,
                    h,
                    used,
                    vault.width as int,
                    vault.height as int,
                    pos,
                ));
                lemma_paste_dims(
                    c1,
                    vault.cells@,
                    vault.width as int,
                    vault.height as int,
                    x0,
                    y0,
                    vault.cells@.len(),
                );
                let c2 = paste_spec(c1, vault.cells@, vault.width as int, x0, y0, vault.cells@.len());
                let c3 = with_snapshot(c2);
                let used1 = mark_rect(used, w, x0, y0, vault.width as int, vault.height as int);
                let pool1 = pool.remove(vi);
                assert forall|k: int| 0 <= k < pool1.len() implies ((#[trigger] pool1[k]) as int)
                    < rooms.len() by {
                    if k < vi {
                        assert(pool1[k] == pool[k]);
                    } else {
                        assert(pool1[k] == pool[k + 1]);
                    }
                };
                lemma_vault_footprints_disjoint(rooms, c3, used1, pool1, r1, (count - 1) as nat);
                let rest = placed_rects(rooms, c3, used1, pool1, r1, (count - 1) as nat);
                let rects = placed_rects(rooms, c, used, pool, r, count);
                assert(rects == seq![rect] + rest);
                assert(rects[0] == rect);
                assert(rect_free_of(w, n, used, rect));
                assert forall|i: int| 0 <= i < rects.len() implies rect_free_of(
                    w,
                    n,
                    used,
                    #[trigger] rects[i],
                ) by {
                    if i > 0 {
                        assert(rests_index_fact(rects, rest, rect, i));
                        assert(rect_free_of(c3.map.width, c3.map.tiles.len() as int, used1, rest[i - 1]));
                        assert(c3.map.width == w && c3.map.tiles.len() as int == n);
                        assert forall|j: int|
                            0 <= j < n && inside_rect(
                                w,
                                j,
                                rects[i].0,
                                rects[i].1,
                                rects[i].2,
                                rects[i].3,
                            ) implies !used[j] by {
                            assert(!used1[j]);
                        };
                    }
                };
                assert forall|i: int, j: int| 0 <= i < j < rects.len() implies rects_disjoint(
                    w,
                    n,
                    #[trigger] rects[i],
                    #[trigger] rects[j],
                ) by {
                    if i == 0 {
                        assert(rests_index_fact(rects, rest, rect, j));
                        assert(rect_free_of(w, n, used1, rest[j - 1]));
                        assert forall|p: int|
                            0 <= p < n implies !(inside_rect(
                            w,
                            p,
                            rect.0,
                            rect.1,
                            rect.2,
                            rect.3,
                        ) && inside_rect(
                            w,
                            p,
                            rects[j].0,
                            rects[j].1,
                            rects[j].2,
                            rects[j].3,
                        )) by {
                            if inside_rect(w, p, rect.0, rect.1, rect.2, rect.3) {
                                assert(used1[p]);
                            }
                        };
                    } else {
                        assert(rests_index_fact(rects, rest, rect, i));
                        assert(rests_index_fact(rects, rest, rect, j));
                        assert(rects_disjoint(w, n, rest[i - 1], rest[j - 1]));
                    }
                };
            },
            None => {
                lemma_vault_footprints_disjoint(rooms, c, used, pool, r1, (count - 1) as nat);
                assert(rects_all == placed_rects(rooms, c, used, pool, r1, (count - 1) as nat));
            },
        }
    }
}

/// Indexing past the head of a concatenation reads the tail.
pub open spec fn rests_index_fact(
    rects: Seq<(int, int, int, int)>,
    rest: Seq<(int, int, int, int)>,
    rect: (int, int, int, int),
    i: int,
) -> bool {
    rects == seq![rect] + rest && 1 <= i < rects.len() ==> rects[i] == rest[i - 1]
}

/// A successful scan returns an anchor at which the vault fits.
pub proof fn lemma_first_fit_ok(
    t: Seq<TileType>,
    w: int,
    h: int,
    used: Seq<bool>,
    vw: int,
    vh: int,
    k: nat,
)
    requires
        first_fit_scan(t, w, h, used, vw, vh, k) is Some,
    ensures
        vault_anchor_ok(t, w, h, used, vw, vh, first_fit_scan(t, w, h, used, vw, vh, k)->Some_0),
    decreases k,
{
    if k > 0 {
        let idx = t.len() - k;
        if !vault_anchor_ok(t, w, h, used, vw, vh, idx) {
            lemma_first_fit_ok(t, w, h, used, vw, vh, (k - 1) as nat);
        }
    }
}


/// Stamping a fragment touches no tile outside its rectangle, and leaves
/// the visibility flags, decorations and occupant lists alone everywhere.
proof fn lemma_paste_outside(
    c: CtxView,
    cells: Seq<char>,
    fw: int,
    fh: int,
    cx: int,
    cy: int,
    k: nat,
    j: int,
)
    requires
        c.map.wf(),
        1 <= fw,
        1 <= fh,
        0 <= cx,
        0 <= cy,
        cx + fw <= c.map.width,
        cy + fh <= c.map.height,
        k <= fw * fh,
        0 <= j < c.map.tiles.len(),
        !inside_rect(c.map.width, j, cx, cy, fw, fh),
    ensures
        paste_spec(c, cells, fw, cx, cy, k).map.tiles[j] == c.map.tiles[j],
    decreases k,
{
    if k > 0 {
        lemma_paste_outside(c, cells, fw, fh, cx, cy, (k - 1) as nat, j);
        lemma_paste_dims(c, cells, fw, fh, cx, cy, (k - 1) as nat);
        let prev = paste_spec(c, cells, fw, cx, cy, (k - 1) as nat);
        let i = (k - 1) as int;
        lemma_idx_coords(fw, fh, i);
        let gx = cx + i % fw;
        let gy = cy + i / fw;
        let idx = gy * c.map.width + gx;
        lemma_xy_idx_bounds(c.map.width, c.map.height, gx, gy);
        lemma_idx_coords(c.map.width, c.map.height, idx);
        lemma_idx_injective(c.map.width, gx, gy, idx % c.map.width, idx / c.map.width);
        assert(j == (j / c.map.width) * c.map.width + j % c.map.width) by (nonlinear_arith)
            requires 0 < c.map.width
        ;
        assert(j != idx);
        lemma_glyph_dims(prev, cells[i], idx);
    }
}

/// Every spawn request the rectangle filter keeps comes from the unfiltered
/// list and lies strictly outside the rectangle.
proof fn lemma_spawns_outside_membership(
    sp: Seq<(int, Seq<char>)>,
    w: int,
    x0: int,
    y0: int,
    fw: int,
    fh: int,
    k: nat,
)
    requires
        k <= sp.len(),
    ensures
        forall|j: int|
            0 <= j < spawns_outside(sp, w, x0, y0, fw, fh, k).len() ==> sp.contains(
                #[trigger] spawns_outside(sp, w, x0, y0, fw, fh, k)[j],
            ) && !inside_rect(w, spawns_outside(sp, w, x0, y0, fw, fh, k)[j].0, x0, y0, fw, fh),
    decreases k,
{
    if k > 0 {
        lemma_spawns_outside_membership(sp, w, x0, y0, fw, fh, (k - 1) as nat);
        let rest = spawns_outside(sp, w, x0, y0, fw, fh, (k - 1) as nat);
        let cur = spawns_outside(sp, w, x0, y0, fw, fh, k);
        assert forall|j: int| 0 <= j < cur.len() implies sp.contains(#[trigger] cur[j])
            && !inside_rect(w, cur[j].0, x0, y0, fw, fh) by {
            if !inside_rect(w, sp[k - 1].0, x0, y0, fw, fh) {
                if j < rest.len() {
                    assert(cur[j] == rest[j]);
                } else {
                    assert(cur[j] == sp[k - 1]);
                }
            } else {
                assert(cur[j] == rest[j]);
            }
        };
    }
}

/// Law: sectional carry-over.  After a sectional overlay, every tile
/// strictly outside the pasted rectangle equals the corresponding tile of
/// the previous output, and every surviving spawn request comes from the
/// previous output and lies strictly outside that rectangle.
pub proof fn lemma_sectional_carry_over(c: CtxView, section: PrefabSection)
    requires
        c.wf(),
        section.wf(),
        section.width < c.map.width,
        section.height < c.map.height,
    ensures
        ({
            let w = c.map.width;
            let x0 = spec_anchor_x(section.placement.0, w, section.width as int);
            let y0 = spec_anchor_y(section.placement.1, c.map.height, section.height as int);
            let out = sectional_spec(c, section);
            &&& out.map.tiles.len() == c.map.tiles.len()
            &&& forall|j: int|
                0 <= j < c.map.tiles.len() && !inside_rect(
                    w,
                    j,
                    x0,
                    y0,
                    section.width as int,
                    section.height as int,
                ) ==> out.map.tiles[j] == c.map.tiles[j]
            &&& ({
                let kept = spawns_outside(
                    c.spawns,
                    w,
                    x0,
                    y0,
                    section.width as int,
                    section.height as int,
                    c.spawns.len(),
                );
                &&& out.spawns.len() >= kept.len()
                &&& forall|i: int| 0 <= i < kept.len() ==> #[trigger] out.spawns[i] == kept[i]
                &&& forall|i: int|
                    0 <= i < kept.len() ==> c.spawns.contains(#[trigger] kept[i]) && !inside_rect(
                        w,
                        kept[i].0,
                        x0,
                        y0,
                        section.width as int,
                        section.height as int,
                    )
            })
        }),
{
    let w = c.map.width;
    let h = c.map.height;
    let fw = section.width as int;
    let fh = section.height as int;
    let x0 = spec_anchor_x(section.placement.0, w, fw);
    let y0 = spec_anchor_y(section.placement.1, h, fh);
    lemma_anchor_x_bounds(section.placement.0, w, fw);
    lemma_anchor_y_bounds(section.placement.1, h, fh);
    let c1 = CtxView {
        spawns: spawns_outside(c.spawns, w, x0, y0, fw, fh, c.spawns.len()),
        ..c
    };
    let c2 = with_snapshot(c1);
    let c3 = paste_spec(c2, section.cells@, fw, x0, y0, section.cells@.len());
    lemma_paste_dims(c2, section.cells@, fw, fh, x0, y0, section.cells@.len());
    assert forall|j: int|
        0 <= j < c.map.tiles.len() && !inside_rect(w, j, x0, y0, fw, fh) implies c3.map.tiles[j]
        == c.map.tiles[j] by {
        lemma_paste_outside(c2, section.cells@, fw, fh, x0, y0, section.cells@.len(), j);
    };
    lemma_spawns_outside_membership(c.spawns, w, x0, y0, fw, fh, c.spawns.len());
    lemma_paste_spawns_same(c2, section.cells@, fw, fh, x0, y0, section.cells@.len());
    assert(sectional_spec(c, section).spawns == c3.spawns);
}

/// A paste only ever appends spawn requests: the previous list stays a
/// prefix.
proof fn lemma_paste_spawns_same(
    c: CtxView,
    cells: Seq<char>,
    fw: int,
    fh: int,
    cx: int,
    cy: int,
    k: nat,
)
    requires
        c.map.wf(),
        1 <= fw,
        1 <= fh,
        0 <= cx,
        0 <= cy,
        cx + fw <= c.map.width,
        cy + fh <= c.map.height,
        k <= fw * fh,
    ensures
        paste_spec(c, cells, fw, cx, cy, k).spawns.len() >= c.spawns.len(),
        forall|i: int|
            0 <= i < c.spawns.len() ==> #[trigger] paste_spec(c, cells, fw, cx, cy, k).spawns[i]
                == c.spawns[i],
    decreases k,
{
    if k > 0 {
        lemma_paste_spawns_same(c, cells, fw, fh, cx, cy, (k - 1) as nat);
    }
}

} // verus!
