//! Translation between continuous world positions and discrete grid cells.
//! Grid cell `(x, y)` spans one tile; its waypoint is the tile's center,
//! placed relative to the train origin adjusted by the grid padding.

use vstd::prelude::*;
use vstd::arithmetic::div_mod::lemma_fundamental_div_mod;
use crate::geometry::Vec2;

verus! {

/// The grid coordinate a world coordinate falls in, along one axis:
/// the tile index relative to the padded origin.
pub open spec fn cell_coord(pos: int, origin: int, pad: int) -> int {
    (pos - (origin - pad * 64000)) / 64000
}

/// The world coordinate of a grid cell's tile center, along one axis.
pub open spec fn cell_center(cell: int, origin: int, pad: int) -> int {
    (cell - pad) * 64000 + 32000 + origin
}

/// Floor division by a positive divisor.
fn floor_div_64000(a: i64) -> (r: i64)
    requires
        -4_000_000_000 <= a <= 4_000_000_000,
    ensures
        r as int == a as int / 64000,
{
    let q = a / 64000;
    let rem = a % 64000;
    if rem != 0 && a < 0 {
        q - 1
    } else {
        q
    }
}

/// Maps a world position to the grid cell it falls in, given the train's
/// origin and the grid's left and top padding.
pub fn world_to_cell(pos: Vec2, origin: Vec2, pad_left: usize, pad_top: usize) -> (r: (i32, i32))
    requires
        pos.ok(),
        origin.ok(),
        pad_left <= 16,
        pad_top <= 16,
    ensures
        r.0 as int == cell_coord(pos.x as int, origin.x as int, pad_left as int),
        r.1 as int == cell_coord(pos.y as int, origin.y as int, pad_top as int),
{
    let base_x = origin.x - (pad_left as i64) * 64000;
    let base_y = origin.y - (pad_top as i64) * 64000;
    let cx = floor_div_64000(pos.x - base_x);
    let cy = floor_div_64000(pos.y - base_y);
    (cx as i32, cy as i32)
}

/// Maps a grid cell to its tile-center world position.
pub fn cell_to_world(cell: (i32, i32), origin: Vec2, pad_left: usize, pad_top: usize) -> (r: Vec2)
    requires
        origin.ok(),
        -100_000 <= cell.0 <= 100_000,
        -100_000 <= cell.1 <= 100_000,
        pad_left <= 16,
        pad_top <= 16,
    ensures
        r.x as int == cell_center(cell.0 as int, origin.x as int, pad_left as int),
        r.y as int == cell_center(cell.1 as int, origin.y as int, pad_top as int),
{
    let x = (cell.0 as i64 - pad_left as i64) * 64000 + 32000 + origin.x;
    let y = (cell.1 as i64 - pad_top as i64) * 64000 + 32000 + origin.y;
    Vec2 { x, y }
}

/// Round-trip coordinate mapping: quantizing a world coordinate to its grid
/// cell and taking that cell's center lands within half a tile of the
/// original position on each axis.
pub proof fn lemma_round_trip_axis(pos: int, origin: int, pad: int)
    ensures
        -32000 < cell_center(cell_coord(pos, origin, pad), origin, pad) - pos <= 32000,
{
    let base = origin - pad * 64000;
    let c = (pos - base) / 64000;
    lemma_fundamental_div_mod(pos - base, 64000);
    assert(pos - base == 64000 * c + (pos - base) % 64000);
    assert(0 <= (pos - base) % 64000 < 64000);
}

} // verus!
