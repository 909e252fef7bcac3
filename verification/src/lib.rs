//! Pathfinding and grid-composition core for a train of connected wagons.
//!
//! A train is an ordered row of rectangular wagons.  From their tile layouts
//! the composer derives three boolean walkability grids (inside, outside and
//! a permissive "all" view), reconciled at door tiles.  A breadth-first
//! shortest-path search runs over a grid, path requests are queued through a
//! dispatcher whose workers an embedding program may run concurrently, and a
//! mover turns waypoint queues into per-tick displacement with axis-aligned
//! collision checks.
//!
//! World coordinates are fixed-point integers: one pixel is `MILLI` units.

use vstd::prelude::*;

pub mod geometry;
pub mod grid;
pub mod search;
pub mod wagon;
pub mod train;
pub mod coords;
pub mod mover;
pub mod actor;
pub mod enemy;
pub mod player;
pub mod actor_manager;
pub mod resource_manager;

verus! {

/// Width of one tile in pixels.
pub const TILE_SIZE_X: u32 = 64;

/// Height of one tile in pixels.
pub const TILE_SIZE_Y: u32 = 64;

/// Fixed-point scale: world coordinates carry this many units per pixel.
pub const MILLI: i64 = 1000;

/// Width of one tile in fixed-point world units.
pub const TILE_WORLD_X: i64 = 64 * 1000;

/// Height of one tile in fixed-point world units.
pub const TILE_WORLD_Y: i64 = 64 * 1000;

} // verus!
