//! Whole-level character templates.

use crate::prefab_builder::{ascii_filtered, normalized, normalize_cells, read_ascii_to_vec};
use vstd::prelude::*;

verus! {

/// A fixed full-level fragment: a flat cell vector in row-major order
/// with explicit dimensions.
pub struct PrefabLevel {
    pub cells: Vec<char>,
    pub width: usize,
    pub height: usize,
}

impl PrefabLevel {
    /// The cell vector holds exactly one character per tile.
    pub open spec fn wf(self) -> bool {
        &&& self.cells@.len() == self.width * self.height
        &&& 1 <= self.width <= 4096
        &&& 1 <= self.height <= 4096
    }

    /// Reads a character template into a level fragment of the given
    /// dimensions; a template of the wrong length is truncated or padded
    /// with walls.
    pub fn new(template: &str, width: usize, height: usize) -> (r: PrefabLevel)
        requires
            1 <= width <= 4096,
            1 <= height <= 4096,
        ensures
            r.wf(),
            r.width == width,
            r.height == height,
            r.cells@ == normalized(
                ascii_filtered(template@, template@.len()),
                (width * height) as nat,
            ),
    {
        proof {
            crate::grid::lemma_area_bounds(width as int, height as int);
        }
        let cells = normalize_cells(read_ascii_to_vec(template), width * height);
        PrefabLevel { cells, width, height }
    }
}

/// A small fixed demonstration level: one walled arena with a handful of
/// spawns, a claimed starting position and a downward exit.
pub fn demo_arena() -> (r: PrefabLevel)
    ensures
        r.wf(),
        r.width == 12,
        r.height == 7,
{
    PrefabLevel::new(
        "\
############\n\
#          #\n\
# g      o #\n\
# @      > #\n\
# g      o #\n\
#          #\n\
############\n",
        12,
        7,
    )
}

} // verus!
