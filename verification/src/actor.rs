//! A player-controlled actor: continuous position, collision box, waypoint
//! queue and inside-the-train classification.

use vstd::prelude::*;
use std::collections::VecDeque;
use crate::geometry::{Rect, Vec2};
use crate::mover::Pathfinding;

verus! {

/// One selectable actor.
pub struct Actor {
    pub position: Vec2,
    pub origin: Vec2,
    pub size: Vec2,
    pub inside_wagon: bool,
    pub move_seq: VecDeque<Vec2>,
    pub rotation: i64,
}

impl Actor {
    /// A fresh actor at its spawn point, a 32 by 32 pixel box anchored at
    /// its center, counting as inside the train.
    pub fn new() -> (r: Actor)
        ensures
            r.position == (Vec2 { x: 240000, y: 215000 }),
            r.origin == (Vec2 { x: 16000, y: 16000 }),
            r.size == (Vec2 { x: 32000, y: 32000 }),
            r.inside_wagon,
            r.move_seq@.len() == 0,
            r.rotation == 0,
    {
        Actor {
            position: Vec2 { x: 240000, y: 215000 },
            origin: Vec2 { x: 16000, y: 16000 },
            size: Vec2 { x: 32000, y: 32000 },
            inside_wagon: true,
            move_seq: VecDeque::new(),
            rotation: 0,
        }
    }
}

impl Pathfinding for Actor {
    open spec fn agent_wf(&self) -> bool {
        &&& self.position.ok()
        &&& 0 <= self.origin.x <= 1_000_000
        &&& 0 <= self.origin.y <= 1_000_000
        &&& 0 <= self.size.x <= 1_000_000
        &&& 0 <= self.size.y <= 1_000_000
    }

    open spec fn pos_spec(&self) -> Vec2 {
        self.position
    }

    open spec fn steps_spec(&self) -> Seq<Vec2> {
        self.move_seq@
    }

    open spec fn inside_spec(&self) -> bool {
        self.inside_wagon
    }

    open spec fn bounds_spec(&self) -> Rect {
        Rect {
            left: (self.position.x - self.origin.x) as i64,
            top: (self.position.y - self.origin.y) as i64,
            width: self.size.x,
            height: self.size.y,
        }
    }

    fn clear_steps(&mut self) {
        self.move_seq.clear();
    }

    fn add_step(&mut self, step: Vec2) {
        self.move_seq.push_back(step);
    }

    fn get_pos(&self) -> (r: Vec2) {
        self.position
    }

    fn steps_are_empty(&self) -> (r: bool) {
        self.move_seq.len() == 0
    }

    fn get_first_step(&self) -> (r: &Vec2) {
        &self.move_seq[0]
    }

    fn pop_first_step(&mut self) {
        self.move_seq.pop_front();
    }

    fn get_collision_bounds(&self) -> (r: Rect) {
        Rect {
            left: self.position.x - self.origin.x,
            top: self.position.y - self.origin.y,
            width: self.size.x,
            height: self.size.y,
        }
    }

    fn move2f(&mut self, x: i64, y: i64) {
        self.position.x = self.position.x + x;
        self.position.y = self.position.y + y;
    }

    fn set_inside_wagon(&mut self, inside: bool) {
        self.inside_wagon = inside;
    }
}

} // verus!
