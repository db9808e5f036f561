//! A turn-based dungeon-crawl simulation engine: a procedurally generated
//! tile map with rooms and corridors, an entity-component store of player
//! and monster state, field-of-view and cost-field pathfinding engines, and
//! a phased turn scheduler that resolves input, movement, combat and the
//! win/loss conditions. Rendering and the window loop live outside: each
//! tick takes the key and pointer cell the host read and returns the draw
//! commands the host should submit.

pub mod camera;
pub mod components;
pub mod dijkstra;
pub mod draw;
pub mod glyph;
pub mod map;
pub mod map_builder;
pub mod path;
pub mod point;
pub mod random;
pub mod rect;
pub mod simulation;
pub mod spawners;
pub mod store;
pub mod systems;
pub mod turn_state;
pub mod visibility;

use vstd::prelude::*;

verus! {

/// Width of the tile grid, in cells.
pub const SCREEN_WIDTH: i32 = 80;
/// Height of the tile grid, in cells.
pub const SCREEN_HEIGHT: i32 = 50;
/// Width of the camera viewport, in cells.
pub const DISPLAY_WIDTH: i32 = 40;
/// Height of the camera viewport, in cells.
pub const DISPLAY_HEIGHT: i32 = 25;
/// Number of cells in the grid.
pub const NUM_TILES: usize = 4000;

} // verus!
