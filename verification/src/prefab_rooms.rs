//! Vault templates: small fixed-layout fragments stamped onto existing
//! floor area, each with an applicability window of dungeon depths.

use crate::prefab_builder::{ascii_filtered, normalized, normalize_cells, read_ascii_to_vec};
use vstd::prelude::*;

verus! {

/// A vault fragment: a flat cell vector with explicit dimensions and the
/// inclusive depth window in which it may be placed.
pub struct PrefabRoom {
    pub cells: Vec<char>,
    pub width: usize,
    pub height: usize,
    pub first_depth: i32,
    pub last_depth: i32,
}

impl PrefabRoom {
    /// The cell vector holds exactly one character per tile.
    pub open spec fn wf(self) -> bool {
        &&& self.cells@.len() == self.width * self.height
        &&& 1 <= self.width <= 4096
        &&& 1 <= self.height <= 4096
    }

    /// Reads a character template into a vault fragment of the given
    /// dimensions and depth window; a template of the wrong length is
    /// truncated or padded with walls.
    pub fn new(
        template: &str,
        width: usize,
        height: usize,
        first_depth: i32,
        last_depth: i32,
    ) -> (r: PrefabRoom)
        requires
            1 <= width <= 4096,
            1 <= height <= 4096,
        ensures
            r.wf(),
            r.width == width,
            r.height == height,
            r.first_depth == first_depth,
            r.last_depth == last_depth,
            r.cells@ == normalized(
                ascii_filtered(template@, template@.len()),
                (width * height) as nat,
            ),
    {
        proof {
            crate::grid::lemma_area_bounds(width as int, height as int);
        }
        let cells = normalize_cells(read_ascii_to_vec(template), width * height);
        PrefabRoom { cells, width, height, first_depth, last_depth }
    }
}

/// An open cache ringed by traps, with the bait in the middle.
pub fn totally_not_a_trap() -> (r: PrefabRoom)
    ensures
        r.wf(),
        r.width == 5,
        r.height == 5,
        r.first_depth == 0,
        r.last_depth == 100,
{
    PrefabRoom::new(
        "\
     \n\
 ^^^ \n\
 ^!^ \n\
 ^^^ \n\
     \n",
        5,
        5,
        0,
        100,
    )
}

/// Alternating pillars with a ration tucked into the weave.
pub fn checkerboard() -> (r: PrefabRoom)
    ensures
        r.wf(),
        r.width == 6,
        r.height == 6,
        r.first_depth == 0,
        r.last_depth == 100,
{
    PrefabRoom::new(
        "\
      \n\
 # # #\n\
  %   \n\
 # # #\n\
    g \n\
 # # #\n",
        6,
        6,
        0,
        100,
    )
}

/// A grinning face of walls guarding a single guard post.
pub fn silly_smile() -> (r: PrefabRoom)
    ensures
        r.wf(),
        r.width == 6,
        r.height == 6,
        r.first_depth == 0,
        r.last_depth == 100,
{
    PrefabRoom::new(
        "\
      \n\
 #  # \n\
      \n\
#    #\n\
 #### \n\
      \n",
        6,
        6,
        0,
        100,
    )
}

} // verus!
