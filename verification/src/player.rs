//! The player: a red box with a position, a facing of motion and an
//! inside-the-train classification.

use vstd::prelude::*;
use crate::geometry::Vec2;

verus! {

/// The player's state.
pub struct Player {
    pub position: Vec2,
    pub size: Vec2,
    pub origin: Vec2,
    pub inside_wagon: bool,
    pub move_dir: Vec2,
}

impl Player {
    /// A fresh player at the spawn point, a 25 by 25 pixel box anchored at
    /// its center, counting as inside the train and standing still.
    pub fn new() -> (r: Player)
        ensures
            r.position == (Vec2 { x: 640000, y: 520000 }),
            r.size == (Vec2 { x: 25000, y: 25000 }),
            r.origin == (Vec2 { x: 12500, y: 12500 }),
            r.inside_wagon,
            r.move_dir == (Vec2 { x: 0, y: 0 }),
    {
        Player {
            position: Vec2 { x: 640000, y: 520000 },
            size: Vec2 { x: 25000, y: 25000 },
            origin: Vec2 { x: 12500, y: 12500 },
            inside_wagon: true,
            move_dir: Vec2 { x: 0, y: 0 },
        }
    }
}

} // verus!
