//! Rectangular section templates composited into one edge or the center
//! of an existing grid.

use crate::prefab_builder::{ascii_filtered, normalized, normalize_cells, read_ascii_to_vec};
use vstd::prelude::*;

verus! {

/// Where a section sits horizontally on the grid.
#[derive(Clone, Copy, PartialEq, Eq, Structural, Debug)]
pub enum HorizontalPlacement {
    Left,
    Center,
    Right,
}

/// Where a section sits vertically on the grid.
#[derive(Clone, Copy, PartialEq, Eq, Structural, Debug)]
pub enum VerticalPlacement {
    Top,
    Center,
    Bottom,
}

/// A rectangular section fragment with its placement anchors.
pub struct PrefabSection {
    pub cells: Vec<char>,
    pub width: usize,
    pub height: usize,
    pub placement: (HorizontalPlacement, VerticalPlacement),
}

impl PrefabSection {
    /// The cell vector holds exactly one character per tile.
    pub open spec fn wf(self) -> bool {
        &&& self.cells@.len() == self.width * self.height
        &&& 1 <= self.width <= 4096
        &&& 1 <= self.height <= 4096
    }

    /// Reads a character template into a section fragment of the given
    /// dimensions and placement; a template of the wrong length is
    /// truncated or padded with walls.
    pub fn new(
        template: &str,
        width: usize,
        height: usize,
        placement: (HorizontalPlacement, VerticalPlacement),
    ) -> (r: PrefabSection)
        requires
            1 <= width <= 4096,
            1 <= height <= 4096,
        ensures
            r.wf(),
            r.width == width,
            r.height == height,
            r.placement == placement,
            r.cells@ == normalized(
                ascii_filtered(template@, template@.len()),
                (width * height) as nat,
            ),
    {
        proof {
            crate::grid::lemma_area_bounds(width as int, height as int);
        }
        let cells = normalize_cells(read_ascii_to_vec(template), width * height);
        PrefabSection { cells, width, height, placement }
    }
}

/// A fortified outpost pasted against the right edge of the grid.
pub fn underground_fort() -> (r: PrefabSection)
    ensures
        r.wf(),
        r.width == 10,
        r.height == 9,
        r.placement == (HorizontalPlacement::Right, VerticalPlacement::Center),
{
    PrefabSection::new(
        "\
    #     \n\
 ####     \n\
 # o#  ###\n\
 #  #  #%#\n\
    #  # #\n\
 #  #  # #\n\
 # g#  # #\n\
 ####  ###\n\
    #     \n",
        10,
        9,
        (HorizontalPlacement::Right, VerticalPlacement::Center),
    )
}

} // verus!
