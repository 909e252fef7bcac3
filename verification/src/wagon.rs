//! Wagons: rectangular walled tile layouts with doors, the input the grid
//! composer reads.  A wagon of interior size `size_x` by `size_y` carries a
//! one-tile wall ring, a north door in the middle of its top wall and a
//! south door in the middle of its bottom wall.

use vstd::prelude::*;
use crate::geometry::{Rect, Vec2};

verus! {

/// Which way a door faces.
#[derive(Clone, Copy, PartialEq, Eq, Structural, Hash, Debug)]
pub enum Direction {
    North,
    South,
    West,
    East,
}

/// What a tile is: plain wall-or-floor, a door, or a window.
#[derive(Clone, Copy, PartialEq, Eq, Structural, Debug)]
pub enum TileType {
    WallAndFloor,
    Door(Direction),
    Window(Direction),
}

/// One tile: its world position (the point the renderer would anchor its
/// sprite at), solidity, up to two collision rectangles relative to that
/// position, and its kind.
#[derive(Clone, Copy, Debug)]
pub struct Tile {
    pub position: Vec2,
    pub is_solid: bool,
    pub bounds: (Option<Rect>, Option<Rect>),
    pub tile_type: TileType,
}

impl Tile {
    /// A fresh non-solid plain tile at the world origin.
    pub fn new() -> (r: Tile)
        ensures
            r == (Tile {
                position: Vec2 { x: 0, y: 0 },
                is_solid: false,
                bounds: (None::<Rect>, None::<Rect>),
                tile_type: TileType::WallAndFloor,
            }),
    {
        Tile {
            position: Vec2 { x: 0, y: 0 },
            is_solid: false,
            bounds: (None, None),
            tile_type: TileType::WallAndFloor,
        }
    }
}

/// The tile a new wagon of interior size `sx` by `sy` carries at row `i`,
/// column `j`: corners, side walls, top and bottom walls with a door in the
/// middle column, and floor inside.  Collision rectangles are thin strips on
/// the walled edge, in fixed-point world units.
pub open spec fn wagon_tile(sx: int, sy: int, i: int, j: int) -> Tile {
    let pos = Vec2 { x: (j * 64000) as i64, y: (i * 64000) as i64 };
    if i == 0 && j == 0 {
        Tile {
            position: pos,
            is_solid: true,
            bounds: (
                Some(Rect { left: 58000, top: 58000, width: 6000, height: 6000 }),
                None::<Rect>,
            ),
            tile_type: TileType::WallAndFloor,
        }
    } else if i == sy + 1 && j == 0 {
        Tile {
            position: pos,
            is_solid: true,
            bounds: (
                Some(Rect { left: 58000, top: 0, width: 6000, height: 6000 }),
                None::<Rect>,
            ),
            tile_type: TileType::WallAndFloor,
        }
    } else if i == 0 && j == sx + 1 {
        Tile {
            position: pos,
            is_solid: true,
            bounds: (
                Some(Rect { left: 0, top: 58000, width: 6000, height: 6000 }),
                None::<Rect>,
            ),
            tile_type: TileType::WallAndFloor,
        }
    } else if i == sy + 1 && j == sx + 1 {
        Tile {
            position: pos,
            is_solid: true,
            bounds: (Some(Rect { left: 0, top: 0, width: 6000, height: 6000 }), None::<Rect>),
            tile_type: TileType::WallAndFloor,
        }
    } else if j == 0 {
        Tile {
            position: pos,
            is_solid: true,
            bounds: (
                Some(Rect { left: 58000, top: 0, width: 6000, height: 64000 }),
                None::<Rect>,
            ),
            tile_type: TileType::WallAndFloor,
        }
    } else if j == sx + 1 {
        Tile {
            position: pos,
            is_solid: true,
            bounds: (Some(Rect { left: 0, top: 0, width: 6000, height: 64000 }), None::<Rect>),
            tile_type: TileType::WallAndFloor,
        }
    } else if i == 0 && j == sx / 2 {
        Tile {
            position: pos,
            is_solid: true,
            bounds: (None::<Rect>, None::<Rect>),
            tile_type: TileType::Door(Direction::North),
        }
    } else if i == 0 {
        Tile {
            position: pos,
            is_solid: true,
            bounds: (Some(Rect { left: 0, top: 58000, width: 64000, height: 6000 }), None::<Rect>),
            tile_type: TileType::WallAndFloor,
        }
    } else if i == sy + 1 && j == sx / 2 {
        Tile {
            position: pos,
            is_solid: true,
            bounds: (None::<Rect>, None::<Rect>),
            tile_type: TileType::Door(Direction::South),
        }
    } else if i == sy + 1 {
        Tile {
            position: pos,
            is_solid: true,
            bounds: (Some(Rect { left: 0, top: 0, width: 64000, height: 6000 }), None::<Rect>),
            tile_type: TileType::WallAndFloor,
        }
    } else {
        Tile {
            position: pos,
            is_solid: false,
            bounds: (None::<Rect>, None::<Rect>),
            tile_type: TileType::WallAndFloor,
        }
    }
}

/// A walled interior section of the train: a rectangle of tiles, a rotation
/// in whole degrees (the renderer's concern), and its center point.
pub struct Wagon {
    pub tiles: Vec<Vec<Tile>>,
    pub rotation: i64,
    pub center: Vec2,
}

/// Tile row count of the wagon.
pub open spec fn wagon_h(w: Wagon) -> int {
    w.tiles@.len() as int
}

/// Tile column count of the wagon.
pub open spec fn wagon_w(w: Wagon) -> int {
    w.tiles@[0]@.len() as int
}

/// The wagon is a non-empty rectangle of tiles.
pub open spec fn wagon_wf(w: Wagon) -> bool {
    &&& wagon_h(w) >= 1
    &&& wagon_w(w) >= 1
    &&& forall|i: int| 0 <= i < wagon_h(w) ==> #[trigger] w.tiles@[i]@.len() == wagon_w(w)
}

impl Wagon {
    /// Builds a wagon of interior size `size_x` by `size_y` with its
    /// top-left tile anchored at the world origin.  The interior height
    /// must be odd so the wagon has a vertical center line.
    pub fn new(size_x: u32, size_y: u32) -> (r: Wagon)
        requires
            size_y % 2 == 1,
            size_x <= 10000,
            size_y <= 10000,
        ensures
            r.tiles@.len() == size_y + 2,
            forall|i: int|
                0 <= i < size_y + 2 ==> #[trigger] r.tiles@[i]@.len() == size_x + 2,
            forall|i: int, j: int|
                0 <= i < size_y + 2 && 0 <= j < size_x + 2 ==> #[trigger] r.tiles@[i]@[j]
                    == wagon_tile(size_x as int, size_y as int, i, j),
            r.rotation == 0,
            r.center.x == (size_x + 1) * 32000,
            r.center.y == (size_y + 1) * 32000,
            wagon_wf(r),
    {
        let mut tiles: Vec<Vec<Tile>> = Vec::new();
        let mut i: u32 = 0;
        while i < size_y + 2
            invariant
                size_x <= 10000,
                size_y <= 10000,
                i <= size_y + 2,
                tiles@.len() == i,
                forall|a: int| 0 <= a < i ==> #[trigger] tiles@[a]@.len() == size_x + 2,
                forall|a: int, b: int|
                    0 <= a < i && 0 <= b < size_x + 2 ==> #[trigger] tiles@[a]@[b] == wagon_tile(
                        size_x as int,
                        size_y as int,
                        a,
                        b,
                    ),
            decreases size_y + 2 - i,
        {
            let mut row: Vec<Tile> = Vec::new();
            let mut j: u32 = 0;
            while j < size_x + 2
                invariant
                    size_x <= 10000,
                    size_y <= 10000,
                    i < size_y + 2,
                    j <= size_x + 2,
                    row@.len() == j,
                    forall|b: int|
                        0 <= b < j ==> #[trigger] row@[b] == wagon_tile(
                            size_x as int,
                            size_y as int,
                            i as int,
                            b,
                        ),
                decreases size_x + 2 - j,
            {
                let pos = Vec2 { x: j as i64 * 64000, y: i as i64 * 64000 };
                let mut tile = Tile {
                    position: pos,
                    is_solid: true,
                    bounds: (None, None),
                    tile_type: TileType::WallAndFloor,
                };
                if i == 0 && j == 0 {
                    tile.bounds.0 = Some(Rect::new(58000, 58000, 6000, 6000));
                } else if i == size_y + 1 && j == 0 {
                    tile.bounds.0 = Some(Rect::new(58000, 0, 6000, 6000));
                } else if i == 0 && j == size_x + 1 {
                    tile.bounds.0 = Some(Rect::new(0, 58000, 6000, 6000));
                } else if i == size_y + 1 && j == size_x + 1 {
                    tile.bounds.0 = Some(Rect::new(0, 0, 6000, 6000));
                } else if j == 0 {
                    tile.bounds.0 = Some(Rect::new(58000, 0, 6000, 64000));
                } else if j == size_x + 1 {
                    tile.bounds.0 = Some(Rect::new(0, 0, 6000, 64000));
                } else if i == 0 && j == size_x / 2 {
                    tile.tile_type = TileType::Door(Direction::North);
                } else if i == 0 {
                    tile.bounds.0 = Some(Rect::new(0, 58000, 64000, 6000));
                } else if i == size_y + 1 && j == size_x / 2 {
                    tile.tile_type = TileType::Door(Direction::South);
                } else if i == size_y + 1 {
                    tile.bounds.0 = Some(Rect::new(0, 0, 64000, 6000));
                } else {
                    tile.is_solid = false;
                }
                row.push(tile);
                j = j + 1;
            }
            tiles.push(row);
            i = i + 1;
        }
        Wagon {
            tiles,
            rotation: 0,
            center: Vec2 {
                x: ((size_x + 1) as i64) * 32000i64,
                y: ((size_y + 1) as i64) * 32000i64,
            },
        }
    }

    /// The wagon's center point, the reference its tiles move relative to.
    pub fn get_origin(&self) -> (r: Vec2)
        ensures
            r == self.center,
    {
        self.center
    }

    /// Moves the wagon so its center sits at `(x, y)`; every tile keeps its
    /// offset from the center.
    pub fn set_position2f(&mut self, x: i64, y: i64)
        requires
            wagon_wf(*old(self)),
            wagon_positions_ok(*old(self)),
            old(self).center.ok(),
            -2_000_000_000 <= x <= 2_000_000_000,
            -2_000_000_000 <= y <= 2_000_000_000,
        ensures
            final(self).center == (Vec2 { x, y }),
            final(self).rotation == old(self).rotation,
            final(self).tiles@.len() == old(self).tiles@.len(),
            forall|i: int|
                0 <= i < old(self).tiles@.len() ==> #[trigger] final(self).tiles@[i]@.len() == old(self).tiles@[i]@.len(),
            forall|i: int, j: int|
                0 <= i < old(self).tiles@.len() && 0 <= j < old(self).tiles@[i]@.len()
                    ==> #[trigger] final(self).tiles@[i]@[j] == tile_moved(
                    old(self).tiles@[i]@[j],
                    x - old(self).center.x,
                    y - old(self).center.y,
                ),
    {
        let dx = x - self.center.x;
        let dy = y - self.center.y;
        shift_tiles(&mut self.tiles, dx, dy);
        self.center.x = x;
        self.center.y = y;
    }

    /// Moves the wagon and all its tiles by `(x, y)`.
    pub fn move2f(&mut self, x: i64, y: i64)
        requires
            wagon_wf(*old(self)),
            wagon_positions_ok(*old(self)),
            old(self).center.ok(),
            -2_000_000_000 <= x <= 2_000_000_000,
            -2_000_000_000 <= y <= 2_000_000_000,
        ensures
            final(self).center == (Vec2 {
                x: (old(self).center.x + x) as i64,
                y: (old(self).center.y + y) as i64,
            }),
            final(self).rotation == old(self).rotation,
            final(self).tiles@.len() == old(self).tiles@.len(),
            forall|i: int|
                0 <= i < old(self).tiles@.len() ==> #[trigger] final(self).tiles@[i]@.len() == old(self).tiles@[i]@.len(),
            forall|i: int, j: int|
                0 <= i < old(self).tiles@.len() && 0 <= j < old(self).tiles@[i]@.len()
                    ==> #[trigger] final(self).tiles@[i]@[j] == tile_moved(
                    old(self).tiles@[i]@[j],
                    x as int,
                    y as int,
                ),
    {
        self.center.x = self.center.x + x;
        self.center.y = self.center.y + y;
        shift_tiles(&mut self.tiles, x, y);
    }

    /// Connects wagon `other` to the *left* side of wagon `self`: opens a
    /// passage in the middle of `self`'s left wall, closes the matching
    /// cell of `other`'s right wall, and places `other` one wagon-width to
    /// the left, vertically aligned on the two center lines.
    pub fn connect(&mut self, other: &mut Wagon)
        requires
            wagon_wf(*old(self)),
            wagon_wf(*old(other)),
            wagon_h(*old(self)) >= 3,
            wagon_h(*old(self)) <= 10002,
            wagon_h(*old(other)) >= 3,
            wagon_h(*old(other)) <= 10002,
            wagon_w(*old(other)) <= 10002,
            wagon_positions_ok(*old(other)),
            old(self).center.ok(),
            old(other).center.ok(),
        ensures
            final(self).center == old(self).center,
            final(self).rotation == old(self).rotation,
            final(self).tiles@.len() == old(self).tiles@.len(),
            forall|i: int|
                0 <= i < old(self).tiles@.len() ==> #[trigger] final(self).tiles@[i]@.len() == old(self).tiles@[i]@.len(),
            forall|i: int, j: int|
                0 <= i < old(self).tiles@.len() && 0 <= j < old(self).tiles@[i]@.len() && !(j == 0
                    && (i == wagon_h(*old(self)) / 2 - 1 || i == wagon_h(*old(self)) / 2 || i
                    == wagon_h(*old(self)) / 2 + 1)) ==> #[trigger] final(self).tiles@[i]@[j]
                    == old(self).tiles@[i]@[j],
            final(self).tiles@[wagon_h(*old(self)) / 2 - 1]@[0] == (Tile {
                bounds: (
                    old(self).tiles@[wagon_h(*old(self)) / 2 - 1]@[0].bounds.0,
                    Some(Rect { left: 0, top: 58000, width: 64000, height: 6000 }),
                ),
                ..old(self).tiles@[wagon_h(*old(self)) / 2 - 1]@[0]
            }),
            final(self).tiles@[wagon_h(*old(self)) / 2]@[0] == (Tile {
                is_solid: false,
                ..old(self).tiles@[wagon_h(*old(self)) / 2]@[0]
            }),
            final(self).tiles@[wagon_h(*old(self)) / 2 + 1]@[0] == (Tile {
                bounds: (
                    old(self).tiles@[wagon_h(*old(self)) / 2 + 1]@[0].bounds.0,
                    Some(Rect { left: 0, top: 0, width: 64000, height: 6000 }),
                ),
                ..old(self).tiles@[wagon_h(*old(self)) / 2 + 1]@[0]
            }),
            final(other).center == (Vec2 {
                x: (old(self).center.x - (wagon_w(*old(other)) - 1) * 64000) as i64,
                y: (old(self).center.y + (wagon_h(*old(self)) / 2 - wagon_h(*old(other)) / 2)
                    * 64000) as i64,
            }),
            final(other).rotation == old(other).rotation,
            final(other).tiles@.len() == old(other).tiles@.len(),
            forall|i: int|
                0 <= i < old(other).tiles@.len() ==> #[trigger] final(other).tiles@[i]@.len()
                    == old(other).tiles@[i]@.len(),
            forall|i: int, j: int|
                0 <= i < old(other).tiles@.len() && 0 <= j < old(other).tiles@[i]@.len() && !(i
                    == wagon_h(*old(other)) / 2 && j == wagon_w(*old(other)) - 1)
                    ==> #[trigger] final(other).tiles@[i]@[j] == tile_moved(
                    old(other).tiles@[i]@[j],
                    final(other).center.x - old(other).center.x,
                    final(other).center.y - old(other).center.y,
                ),
            final(other).tiles@[wagon_h(*old(other)) / 2]@[wagon_w(*old(other)) - 1] == (Tile {
                position: Vec2 {
                    x: (final(other).center.x - old(other).center.x) as i64,
                    y: (final(other).center.y - old(other).center.y) as i64,
                },
                is_solid: true,
                bounds: (None::<Rect>, None::<Rect>),
                tile_type: TileType::WallAndFloor,
            }),
    {
        let self_height = self.tiles.len();
        let self_height_half = self_height / 2;
        let other_height = other.tiles.len();
        let other_width = {
            let row0 = &other.tiles[0];
            row0.len()
        };
        let other_height_half = other_height / 2;

        let top = {
            let row = &self.tiles[self_height_half - 1];
            row[0]
        };
        crate::grid::set_cell(
            &mut self.tiles,
            self_height_half - 1,
            0,
            Tile {
                bounds: (top.bounds.0, Some(Rect::new(0, 58000, 64000, 6000))),
                ..top
            },
        );
        let mid = {
            let row = &self.tiles[self_height_half];
            row[0]
        };
        crate::grid::set_cell(
            &mut self.tiles,
            self_height_half,
            0,
            Tile { is_solid: false, ..mid },
        );
        let bot = {
            let row = &self.tiles[self_height_half + 1];
            row[0]
        };
        crate::grid::set_cell(
            &mut self.tiles,
            self_height_half + 1,
            0,
            Tile { bounds: (bot.bounds.0, Some(Rect::new(0, 0, 64000, 6000))), ..bot },
        );

        let mut closed = Tile::new();
        closed.is_solid = true;
        crate::grid::set_cell(&mut other.tiles, other_height_half, other_width - 1, closed);

        let y_offset = if self_height_half > other_height_half {
            ((self_height_half - other_height_half) as i64) * 64000i64
        } else {
            -(((other_height_half - self_height_half) as i64) * 64000i64)
        };

        let self_center = self.get_origin();
        other.set_position2f(
            self_center.x - ((other_width - 1) as i64) * 64000i64,
            self_center.y + y_offset,
        );
    }
}

/// The same tile shifted by `(dx, dy)` in world space.
pub open spec fn tile_moved(t: Tile, dx: int, dy: int) -> Tile {
    Tile { position: Vec2 { x: (t.position.x + dx) as i64, y: (t.position.y + dy) as i64 }, ..t }
}

/// Every tile position of the wagon lies in the supported coordinate band.
pub open spec fn wagon_positions_ok(w: Wagon) -> bool {
    forall|i: int, j: int|
        0 <= i < w.tiles@.len() && 0 <= j < w.tiles@[i]@.len()
            ==> (#[trigger] w.tiles@[i]@[j]).position.ok()
}

/// Shifts every tile of the rectangle by `(dx, dy)`.
fn shift_tiles(tiles: &mut Vec<Vec<Tile>>, dx: i64, dy: i64)
    requires
        -4_000_000_000 <= dx <= 4_000_000_000,
        -4_000_000_000 <= dy <= 4_000_000_000,
        forall|i: int, j: int|
            0 <= i < old(tiles)@.len() && 0 <= j < old(tiles)@[i]@.len()
                ==> (#[trigger] old(tiles)@[i]@[j]).position.ok(),
    ensures
        final(tiles)@.len() == old(tiles)@.len(),
        forall|i: int|
            0 <= i < old(tiles)@.len() ==> #[trigger] final(tiles)@[i]@.len() == old(tiles)@[i]@.len(),
        forall|i: int, j: int|
            0 <= i < old(tiles)@.len() && 0 <= j < old(tiles)@[i]@.len() ==> #[trigger] final(tiles)@[i]@[j] == tile_moved(old(tiles)@[i]@[j], dx as int, dy as int),
{
    let mut i: usize = 0;
    while i < tiles.len()
        invariant
            -4_000_000_000 <= dx <= 4_000_000_000,
            -4_000_000_000 <= dy <= 4_000_000_000,
            i <= tiles@.len(),
            tiles@.len() == old(tiles)@.len(),
            forall|a: int, b: int|
                0 <= a < old(tiles)@.len() && 0 <= b < old(tiles)@[a]@.len()
                    ==> (#[trigger] old(tiles)@[a]@[b]).position.ok(),
            forall|a: int|
                0 <= a < old(tiles)@.len() ==> #[trigger] tiles@[a]@.len() == old(tiles)@[a]@.len(),
            forall|a: int, b: int|
                0 <= a < i && 0 <= b < old(tiles)@[a]@.len() ==> #[trigger] tiles@[a]@[b]
                    == tile_moved(old(tiles)@[a]@[b], dx as int, dy as int),
            forall|a: int, b: int|
                i <= a < old(tiles)@.len() && 0 <= b < old(tiles)@[a]@.len()
                    ==> #[trigger] tiles@[a]@[b] == old(tiles)@[a]@[b],
        decreases tiles@.len() - i,
    {
        let mut j: usize = 0;
        let row_len = {
            let row = &tiles[i];
            row.len()
        };
        while j < row_len
            invariant
                -4_000_000_000 <= dx <= 4_000_000_000,
                -4_000_000_000 <= dy <= 4_000_000_000,
                i < tiles@.len(),
                j <= row_len,
                tiles@.len() == old(tiles)@.len(),
                row_len == old(tiles)@[i as int]@.len(),
                forall|a: int, b: int|
                    0 <= a < old(tiles)@.len() && 0 <= b < old(tiles)@[a]@.len()
                        ==> (#[trigger] old(tiles)@[a]@[b]).position.ok(),
                forall|a: int|
                    0 <= a < old(tiles)@.len() ==> #[trigger] tiles@[a]@.len() == old(tiles)@[a]@.len(),
                forall|a: int, b: int|
                    0 <= a < i && 0 <= b < old(tiles)@[a]@.len() ==> #[trigger] tiles@[a]@[b]
                        == tile_moved(old(tiles)@[a]@[b], dx as int, dy as int),
                forall|b: int|
                    0 <= b < j ==> #[trigger] tiles@[i as int]@[b] == tile_moved(
                        old(tiles)@[i as int]@[b],
                        dx as int,
                        dy as int,
                    ),
                forall|b: int|
                    j <= b < old(tiles)@[i as int]@.len() ==> #[trigger] tiles@[i as int]@[b]
                        == old(tiles)@[i as int]@[b],
                forall|a: int, b: int|
                    i < a < old(tiles)@.len() && 0 <= b < old(tiles)@[a]@.len()
                        ==> #[trigger] tiles@[a]@[b] == old(tiles)@[a]@[b],
            decreases row_len - j,
        {
            let t = {
                let row = &tiles[i];
                row[j]
            };
            let moved = Tile {
                position: Vec2 { x: t.position.x + dx, y: t.position.y + dy },
                ..t
            };
            crate::grid::set_cell(tiles, i, j, moved);
            j = j + 1;
        }
        i = i + 1;
    }
}

} // verus!
