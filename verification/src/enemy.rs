//! An autonomous enemy: continuous position, collision box, waypoint queue
//! and inside-the-train classification.

use vstd::prelude::*;
use std::collections::VecDeque;
use crate::geometry::{Rect, Vec2};
use crate::mover::Pathfinding;

verus! {

/// One enemy.
pub struct Enemy {
    pub position: Vec2,
    pub origin: Vec2,
    pub size: Vec2,
    pub inside_wagon: bool,
    pub move_seq: VecDeque<Vec2>,
}

impl Enemy {
    /// A fresh enemy at its spawn point beside the train, a 25 by 25 pixel
    /// box anchored at its center, counting as outside.
    pub fn new() -> (r: Enemy)
        ensures
            r.position == (Vec2 { x: 409000, y: 153000 }),
            r.origin == (Vec2 { x: 12500, y: 12500 }),
            r.size == (Vec2 { x: 25000, y: 25000 }),
            !r.inside_wagon,
            r.move_seq@.len() == 0,
    {
        Enemy {
            position: Vec2 { x: 409000, y: 153000 },
            origin: Vec2 { x: 12500, y: 12500 },
            size: Vec2 { x: 25000, y: 25000 },
            inside_wagon: false,
            move_seq: VecDeque::new(),
        }
    }
}

impl Pathfinding for Enemy {
    open spec fn agent_wf(&self) -> bool {
        &&& self.position.ok()
        &&& 0 <= self.origin.x <= 1_000_000
        &&& 0 <= self.origin.y <= 1_000_000
        &&& 0 <= self.size.x <= 1_000_000
        &&& 0 <= self.size.y <= 1_000_000
    }

    open spec fn pos_spec(&self) -> Vec2 {
        self.position
    }

    open spec fn steps_spec(&self) -> Seq<Vec2> {
        self.move_seq@
    }

    open spec fn inside_spec(&self) -> bool {
        self.inside_wagon
    }

    open spec fn bounds_spec(&self) -> Rect {
        Rect {
            left: (self.position.x - self.origin.x) as i64,
            top: (self.position.y - self.origin.y) as i64,
            width: self.size.x,
            height: self.size.y,
        }
    }

    fn clear_steps(&mut self) {
        self.move_seq.clear();
    }

    fn add_step(&mut self, step: Vec2) {
        self.move_seq.push_back(step);
    }

    fn get_pos(&self) -> (r: Vec2) {
        self.position
    }

    fn steps_are_empty(&self) -> (r: bool) {
        self.move_seq.len() == 0
    }

    fn get_first_step(&self) -> (r: &Vec2) {
        &self.move_seq[0]
    }

    fn pop_first_step(&mut self) {
        self.move_seq.pop_front();
    }

    fn get_collision_bounds(&self) -> (r: Rect) {
        Rect {
            left: self.position.x - self.origin.x,
            top: self.position.y - self.origin.y,
            width: self.size.x,
            height: self.size.y,
        }
    }

    fn move2f(&mut self, x: i64, y: i64) {
        self.position.x = self.position.x + x;
        self.position.y = self.position.y + y;
    }

    fn set_inside_wagon(&mut self, inside: bool) {
        self.inside_wagon = inside;
    }
}

} // verus!
