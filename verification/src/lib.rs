//! Procedural dungeon-generation pipeline.
//!
//! A composable sequence of generation stages turns a random seed into a
//! playable level: a two-dimensional tile grid, a starting position, a
//! downward-exit tile and a list of entity-spawn requests, with optional
//! intermediate snapshots for offline inspection.

use vstd::prelude::*;

pub mod builder;
pub mod cellular_automata;
pub mod connectivity;
pub mod context;
pub mod glyphs;
pub mod grid;
pub mod prefab_builder;
pub mod prefab_levels;
pub mod prefab_rooms;
pub mod prefab_sections;
pub mod regions;
pub mod raws;
pub mod rng;

verus! {

/// Default grid width used by full-size levels.
pub const MAPWIDTH: usize = 80;

/// Default grid height used by full-size levels.
pub const MAPHEIGHT: usize = 43;

/// Default number of tiles in a full-size level.
pub const MAPCOUNT: usize = MAPWIDTH * MAPHEIGHT;

} // verus!
