//! Plain integer geometry: points and axis-aligned rectangles in fixed-point
//! world units, with the intersection and containment tests the mover uses.

use vstd::prelude::*;

verus! {

/// Largest magnitude a world coordinate may carry.  Keeping every coordinate
/// inside this band lets every product and sum in the mover fit in `i64`.
pub const COORD_LIMIT: i64 = 1_000_000_000;

/// True when a fixed-point coordinate is inside the supported band.
pub open spec fn coord_ok(c: int) -> bool {
    -(COORD_LIMIT as int) <= c <= COORD_LIMIT as int
}

/// A point or displacement in fixed-point world units.
#[derive(Clone, Copy, PartialEq, Eq, Structural, Debug)]
pub struct Vec2 {
    pub x: i64,
    pub y: i64,
}

impl Vec2 {
    /// Builds the point `(x, y)`.
    pub fn new(x: i64, y: i64) -> (r: Vec2)
        ensures
            r.x == x,
            r.y == y,
    {
        Vec2 { x, y }
    }

    /// True when both coordinates lie in the supported band.
    pub open spec fn ok(self) -> bool {
        coord_ok(self.x as int) && coord_ok(self.y as int)
    }
}

/// An axis-aligned rectangle: top-left corner plus extent.
#[derive(Clone, Copy, PartialEq, Eq, Structural, Debug)]
pub struct Rect {
    pub left: i64,
    pub top: i64,
    pub width: i64,
    pub height: i64,
}

impl Rect {
    /// All four fields small enough that corner sums cannot overflow, with
    /// non-negative extent.
    pub open spec fn ok(self) -> bool {
        &&& -4_000_000_000_000 <= self.left <= 4_000_000_000_000
        &&& -4_000_000_000_000 <= self.top <= 4_000_000_000_000
        &&& 0 <= self.width <= 4_000_000_000_000
        &&& 0 <= self.height <= 4_000_000_000_000
    }

    /// The two rectangles overlap in a region of positive area.
    pub open spec fn spec_intersects(self, other: Rect) -> bool {
        &&& self.left < other.left + other.width
        &&& other.left < self.left + self.width
        &&& self.top < other.top + other.height
        &&& other.top < self.top + self.height
    }

    /// The point lies inside the rectangle; edges on the left and top count
    /// as inside, edges on the right and bottom do not.
    pub open spec fn spec_contains(self, p: Vec2) -> bool {
        &&& self.left <= p.x < self.left + self.width
        &&& self.top <= p.y < self.top + self.height
    }

    /// Builds the rectangle with corner `(left, top)` and size
    /// `(width, height)`.
    pub fn new(left: i64, top: i64, width: i64, height: i64) -> (r: Rect)
        ensures
            r == (Rect { left, top, width, height }),
    {
        Rect { left, top, width, height }
    }

    /// Reports whether the two rectangles overlap in positive area.
    pub fn intersects(&self, other: &Rect) -> (r: bool)
        requires
            self.ok(),
            other.ok(),
        ensures
            r == self.spec_intersects(*other),
    {
        self.left < other.left + other.width && other.left < self.left + self.width
            && self.top < other.top + other.height && other.top < self.top + self.height
    }

    /// Reports whether the point lies inside the rectangle.
    pub fn contains(&self, p: Vec2) -> (r: bool)
        requires
            self.ok(),
            p.ok(),
        ensures
            r == self.spec_contains(p),
    {
        self.left <= p.x && p.x < self.left + self.width && self.top <= p.y
            && p.y < self.top + self.height
    }
}

} // verus!
