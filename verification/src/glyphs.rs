//! Wall-glyph selection for text rendering of a grid.
//!
//! A wall tile is drawn as a box-drawing character chosen from which of
//! its four cardinal neighbors are revealed walls; the host's renderer
//! maps the returned code-page glyph code to a display cell.

use crate::grid::{lemma_area_bounds, lemma_xy_idx_bounds, Grid, GridView, TileType};
use vstd::prelude::*;

verus! {

/// The tile at `(x, y)` is a wall the player has revealed.
pub open spec fn spec_revealed_wall(m: GridView, x: int, y: int) -> bool {
    m.tiles[y * m.width + x] == TileType::Wall && m.revealed[y * m.width + x]
}

/// The four-bit mask of revealed wall neighbors: north, south, west,
/// east.
pub open spec fn spec_wall_mask(m: GridView, x: int, y: int) -> int {
    (if spec_revealed_wall(m, x, y - 1) { 1int } else { 0int })
    + (if spec_revealed_wall(m, x, y + 1) { 2int } else { 0int })
    + (if spec_revealed_wall(m, x - 1, y) { 4int } else { 0int })
    + (if spec_revealed_wall(m, x + 1, y) { 8int } else { 0int })
}

/// The code-page glyph drawn for a wall-neighbor mask.
pub open spec fn spec_wall_glyph(mask: int) -> u8 {
    if mask == 0 { 9 }  // pillar: no revealed neighbors
    else if mask == 1 || mask == 2 || mask == 3 { 186 }  // vertical run
    else if mask == 4 || mask == 8 || mask == 12 { 205 }  // horizontal run
    else if mask == 5 { 188 } else if mask == 6 { 187 } else if mask == 7 { 185 }
    else if mask == 9 { 200 } else if mask == 10 { 201 } else if mask == 11 { 204 }
    else if mask == 13 { 202 } else if mask == 14 { 203 }
    else { 35 }
}

/// The tile at `(x, y)` is a wall the player has revealed.
pub fn is_revealed_and_wall(map: &Grid, x: i32, y: i32) -> (r: bool)
    requires
        map@.wf(),
        map@.in_bounds(x as int, y as int),
    ensures
        r == spec_revealed_wall(map@, x as int, y as int),
{
    let idx = map.xy_idx(x, y);
    map.tiles[idx] == TileType::Wall && map.revealed_tiles[idx]
}

/// The glyph code a wall tile at `(x, y)` is drawn with, chosen from
/// which of its four cardinal neighbors are revealed walls; tiles on the
/// outermost border always draw the plain wall glyph.
pub fn wall_glyph(map: &Grid, x: i32, y: i32) -> (glyph: u8)
    requires
        map@.wf(),
        map@.in_bounds(x as int, y as int),
    ensures
        glyph == (if 1 <= x as int <= map@.width - 2 && 1 <= y as int <= map@.height - 2 {
            spec_wall_glyph(spec_wall_mask(map@, x as int, y as int))
        } else {
            35u8
        }),
{
    if x < 1 || x > map.width - 2 || y < 1 || y > map.height - 2 {
        return 35;
    }
    let mut mask: u8 = 0;
    if is_revealed_and_wall(map, x, y - 1) {
        mask = mask + 1;
    }
    if is_revealed_and_wall(map, x, y + 1) {
        mask = mask + 2;
    }
    if is_revealed_and_wall(map, x - 1, y) {
        mask = mask + 4;
    }
    if is_revealed_and_wall(map, x + 1, y) {
        mask = mask + 8;
    }
    match mask {
        0 => 9,
        1 => 186,
        2 => 186,
        3 => 186,
        4 => 205,
        5 => 188,
        6 => 187,
        7 => 185,
        8 => 205,
        9 => 200,
        10 => 201,
        11 => 204,
        12 => 205,
        13 => 202,
        14 => 203,
        _ => 35,
    }
}

} // verus!
