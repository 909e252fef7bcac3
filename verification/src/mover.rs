//! The mover: consumes a queue of tile-center waypoints, advances an
//! agent's continuous position at fixed speed each tick, vetoes any tick's
//! displacement that would cross a solid tile's collision rectangle, and
//! reclassifies the agent as inside or outside the train after each
//! successful move.

use vstd::prelude::*;
use std::collections::VecDeque;
use crate::geometry::{Rect, Vec2};
use crate::grid::{PathfindingGrid, cell_in_bounds};
use crate::search::{GridSearch, is_path, path_view};
use crate::wagon::{Wagon, Tile, TileType};
use crate::coords::{cell_coord, cell_center, world_to_cell, cell_to_world};

verus! {

/// Walking speed in pixels per second.
pub const MOVE_SPEED: i64 = 300;

/// Arrival threshold in fixed-point world units (four pixels).
pub const ARRIVE_DIST: i64 = 4 * 1000;

/// Absolute value.
pub open spec fn absi(a: int) -> int {
    if a >= 0 {
        a
    } else {
        -a
    }
}

/// Division truncating toward zero (the machine's signed division).
pub open spec fn tdiv(a: int, b: int) -> int {
    if a >= 0 {
        a / b
    } else {
        -((-a) / b)
    }
}

/// `r` is the integer square root of `n`.
pub open spec fn is_sqrt(n: int, r: int) -> bool {
    r >= 0 && r * r <= n && n < (r + 1) * (r + 1)
}

/// The integer square root of `n`.
pub open spec fn sqrt_floor(n: int) -> int {
    choose|r: int| is_sqrt(n, r)
}

proof fn lemma_sqrt_unique(n: int, a: int, b: int)
    requires
        is_sqrt(n, a),
        is_sqrt(n, b),
    ensures
        a == b,
{
    if a < b {
        assert((a + 1) * (a + 1) <= b * b) by (nonlinear_arith)
            requires
                0 <= a + 1 <= b,
        ;
    }
    if b < a {
        assert((b + 1) * (b + 1) <= a * a) by (nonlinear_arith)
            requires
                0 <= b + 1 <= a,
        ;
    }
}

/// Integer square root by bisection.
fn isqrt(n: u64) -> (r: u64)
    requires
        n < 9_000_000_000_000_000_000,
    ensures
        is_sqrt(n as int, r as int),
        r as int == sqrt_floor(n as int),
        r <= 3_000_000_001,
{
    let mut lo: u64 = 0;
    let mut hi: u64 = 3_000_000_002;
    proof {
        assert((3_000_000_002u64 as int) * (3_000_000_002u64 as int)
            > 9_000_000_000_000_000_000) by (nonlinear_arith);
    }
    while lo + 1 < hi
        invariant
            lo < hi <= 3_000_000_002,
            (lo as int) * (lo as int) <= n as int,
            (n as int) < (hi as int) * (hi as int),
        decreases hi - lo,
    {
        let mid = lo + (hi - lo) / 2;
        proof {
            assert((mid as int) * (mid as int) < 18_000_000_000_000_000_000) by (nonlinear_arith)
                requires
                    0 <= mid as int <= 3_000_000_002,
            ;
        }
        if mid * mid <= n {
            lo = mid;
        } else {
            hi = mid;
        }
    }
    proof {
        assert(is_sqrt(n as int, lo as int));
        lemma_sqrt_unique(n as int, lo as int, sqrt_floor(n as int));
    }
    lo
}

/// The agent stands within the arrival threshold of the waypoint on both
/// axes.
pub open spec fn arrived(pos: Vec2, dest: Vec2) -> bool {
    absi(dest.x - pos.x) < ARRIVE_DIST && absi(dest.y - pos.y) < ARRIVE_DIST
}

/// One tick's displacement toward the waypoint: the direction vector scaled
/// to speed times elapsed time, divided by the vector's length.
pub open spec fn step_vec(pos: Vec2, dest: Vec2, dt: int) -> (int, int) {
    let dx = dest.x - pos.x;
    let dy = dest.y - pos.y;
    let len = sqrt_floor(dx * dx + dy * dy);
    (tdiv(MOVE_SPEED * dt * dx, len), tdiv(MOVE_SPEED * dt * dy, len))
}

/// The collision rectangle `b`, anchored at tile `t`'s position, overlaps
/// the desired box.
pub open spec fn rect_hits(desired: Rect, t: Tile, b: Rect) -> bool {
    &&& desired.left < t.position.x + b.left + b.width
    &&& t.position.x + b.left < desired.left + desired.width
    &&& desired.top < t.position.y + b.top + b.height
    &&& t.position.y + b.top < desired.top + desired.height
}

/// A solid tile's collision rectangle overlaps the desired box.
pub open spec fn tile_blocks(desired: Rect, t: Tile) -> bool {
    t.is_solid && ((t.bounds.0 matches Some(b) && rect_hits(desired, t, b)) || (
    t.bounds.1 matches Some(b) && rect_hits(desired, t, b)))
}

/// Some solid tile of some wagon vetoes the desired box.
pub open spec fn blocked(desired: Rect, ws: Seq<Wagon>) -> bool {
    exists|k: int, i: int, j: int|
        0 <= k < ws.len() && 0 <= i < ws[k].tiles@.len() && 0 <= j < ws[k].tiles@[i]@.len()
            && tile_blocks(desired, #[trigger] ws[k].tiles@[i]@[j])
}

/// The 64 by 64 pixel tile, centered on its anchor position, contains the
/// point; left and top edges count as inside.
pub open spec fn tile_contains_pos(t: Tile, p: Vec2) -> bool {
    &&& t.position.x - 32000 <= p.x < t.position.x + 32000
    &&& t.position.y - 32000 <= p.y < t.position.y + 32000
}

/// Some non-solid, non-door tile contains the point: the point lies inside
/// a wagon interior.  Door tiles never count as inside.
pub open spec fn pos_inside_wagons(ws: Seq<Wagon>, p: Vec2) -> bool {
    exists|k: int, i: int, j: int|
        0 <= k < ws.len() && 0 <= i < ws[k].tiles@.len() && 0 <= j < ws[k].tiles@[i]@.len() && {
            let t = #[trigger] ws[k].tiles@[i]@[j];
            &&& !t.is_solid
            &&& !(t.tile_type is Door)
            &&& tile_contains_pos(t, p)
        }
}

/// The agent's collision box sits in the world's coordinate band.
pub open spec fn rect_near(r: Rect) -> bool {
    &&& -2_000_000_000 <= r.left <= 2_000_000_000
    &&& -2_000_000_000 <= r.top <= 2_000_000_000
    &&& 0 <= r.width <= 2_000_000_000
    &&& 0 <= r.height <= 2_000_000_000
}

/// Every tile's position and collision rectangles are small enough for the
/// mover's arithmetic.
pub open spec fn wagons_mover_ok(ws: Seq<Wagon>) -> bool {
    forall|k: int, i: int, j: int|
        0 <= k < ws.len() && 0 <= i < ws[k].tiles@.len() && 0 <= j < ws[k].tiles@[i]@.len() ==> {
            let t = #[trigger] ws[k].tiles@[i]@[j];
            &&& t.position.ok()
            &&& (t.bounds.0 matches Some(b) ==> b.ok())
            &&& (t.bounds.1 matches Some(b) ==> b.ok())
        }
}

/// Tests the desired box against every solid tile's collision rectangles.
/// Returns true when the move is clear of all of them.
pub fn check_collision(desired_pos: &Rect, wagons: &Vec<Wagon>) -> (r: bool)
    requires
        desired_pos.ok(),
        wagons_mover_ok(wagons@),
    ensures
        r == !blocked(*desired_pos, wagons@),
{
    let mut k: usize = 0;
    while k < wagons.len()
        invariant
            desired_pos.ok(),
            wagons_mover_ok(wagons@),
            k <= wagons@.len(),
            forall|k2: int, i2: int, j2: int|
                0 <= k2 < k && 0 <= i2 < wagons@[k2].tiles@.len() && 0 <= j2 < wagons@[k2].tiles@[i2]@.len()
                    ==> !tile_blocks(*desired_pos, #[trigger] wagons@[k2].tiles@[i2]@[j2]),
        decreases wagons@.len() - k,
    {
        let wagon = &wagons[k];
        let mut i: usize = 0;
        while i < wagon.tiles.len()
            invariant
                desired_pos.ok(),
                wagons_mover_ok(wagons@),
                k < wagons@.len(),
                wagon == wagons@[k as int],
                i <= wagon.tiles@.len(),
                forall|i2: int, j2: int|
                    0 <= i2 < i && 0 <= j2 < wagons@[k as int].tiles@[i2]@.len() ==> !tile_blocks(
                        *desired_pos,
                        #[trigger] wagons@[k as int].tiles@[i2]@[j2],
                    ),
            decreases wagon.tiles@.len() - i,
        {
            let row_len = {
                let row = &wagon.tiles[i];
                row.len()
            };
            let mut j: usize = 0;
            while j < row_len
                invariant
                    desired_pos.ok(),
                    wagons_mover_ok(wagons@),
                    k < wagons@.len(),
                    wagon == wagons@[k as int],
                    i < wagon.tiles@.len(),
                    row_len == wagon.tiles@[i as int]@.len(),
                    j <= row_len,
                    forall|j2: int|
                        0 <= j2 < j ==> !tile_blocks(
                            *desired_pos,
                            #[trigger] wagons@[k as int].tiles@[i as int]@[j2],
                        ),
                decreases row_len - j,
            {
                let t = {
                    let row = &wagon.tiles[i];
                    row[j]
                };
                if t.is_solid {
                    if let Some(b) = t.bounds.0 {
                        if desired_pos.left < t.position.x + b.left + b.width
                            && t.position.x + b.left < desired_pos.left + desired_pos.width
                            && desired_pos.top < t.position.y + b.top + b.height
                            && t.position.y + b.top < desired_pos.top + desired_pos.height {
                            return false;
                        }
                    }
                    if let Some(b) = t.bounds.1 {
                        if desired_pos.left < t.position.x + b.left + b.width
                            && t.position.x + b.left < desired_pos.left + desired_pos.width
                            && desired_pos.top < t.position.y + b.top + b.height
                            && t.position.y + b.top < desired_pos.top + desired_pos.height {
                            return false;
                        }
                    }
                }
                j = j + 1;
            }
            i = i + 1;
        }
        k = k + 1;
    }
    true
}

/// Scans all wagons for a non-solid, non-door tile containing the point.
pub fn position_inside_wagons(wagons: &Vec<Wagon>, p: Vec2) -> (r: bool)
    requires
        wagons_mover_ok(wagons@),
    ensures
        r == pos_inside_wagons(wagons@, p),
{
    let mut k: usize = 0;
    while k < wagons.len()
        invariant
            wagons_mover_ok(wagons@),
            k <= wagons@.len(),
            forall|k2: int, i2: int, j2: int|
                0 <= k2 < k && 0 <= i2 < wagons@[k2].tiles@.len() && 0 <= j2 < wagons@[k2].tiles@[i2]@.len()
                    ==> {
                    let t = #[trigger] wagons@[k2].tiles@[i2]@[j2];
                    !(!t.is_solid && !(t.tile_type is Door) && tile_contains_pos(t, p))
                },
        decreases wagons@.len() - k,
    {
        let wagon = &wagons[k];
        let mut i: usize = 0;
        while i < wagon.tiles.len()
            invariant
                wagons_mover_ok(wagons@),
                k < wagons@.len(),
                wagon == wagons@[k as int],
                i <= wagon.tiles@.len(),
                forall|i2: int, j2: int|
                    0 <= i2 < i && 0 <= j2 < wagons@[k as int].tiles@[i2]@.len() ==> {
                        let t = #[trigger] wagons@[k as int].tiles@[i2]@[j2];
                        !(!t.is_solid && !(t.tile_type is Door) && tile_contains_pos(t, p))
                    },
            decreases wagon.tiles@.len() - i,
        {
            let row_len = {
                let row = &wagon.tiles[i];
                row.len()
            };
            let mut j: usize = 0;
            while j < row_len
                invariant
                    wagons_mover_ok(wagons@),
                    k < wagons@.len(),
                    wagon == wagons@[k as int],
                    i < wagon.tiles@.len(),
                    row_len == wagon.tiles@[i as int]@.len(),
                    j <= row_len,
                    forall|j2: int|
                        0 <= j2 < j ==> {
                            let t = #[trigger] wagons@[k as int].tiles@[i as int]@[j2];
                            !(!t.is_solid && !(t.tile_type is Door) && tile_contains_pos(t, p))
                        },
                decreases row_len - j,
            {
                let t = {
                    let row = &wagon.tiles[i];
                    row[j]
                };
                let is_door = match t.tile_type {
                    TileType::Door(_) => true,
                    _ => false,
                };
                if !t.is_solid && !is_door && t.position.x - 32000 <= p.x && p.x < t.position.x
                    + 32000 && t.position.y - 32000 <= p.y && p.y < t.position.y + 32000 {
                    return true;
                }
                j = j + 1;
            }
            i = i + 1;
        }
        k = k + 1;
    }
    false
}

/// An agent the mover can drive: a continuous position, a waypoint queue,
/// a collision box and an inside-the-train flag.  The required methods are
/// the agent's own accessors; the provided methods are the mover logic.
pub trait Pathfinding: Sized {
    /// The agent's fields are small enough for the mover's arithmetic.
    spec fn agent_wf(&self) -> bool;

    /// The agent's continuous position.
    spec fn pos_spec(&self) -> Vec2;

    /// The agent's pending waypoints, front first.
    spec fn steps_spec(&self) -> Seq<Vec2>;

    /// Whether the agent currently counts as inside the train.
    spec fn inside_spec(&self) -> bool;

    /// The agent's collision box.
    spec fn bounds_spec(&self) -> Rect;

    /// Empties the waypoint queue.
    fn clear_steps(&mut self)
        ensures
            final(self).steps_spec() == Seq::<Vec2>::empty(),
            final(self).pos_spec() == old(self).pos_spec(),
            final(self).inside_spec() == old(self).inside_spec(),
            final(self).bounds_spec() == old(self).bounds_spec(),
    ;

    /// Appends a waypoint at the back of the queue.
    fn add_step(&mut self, step: Vec2)
        ensures
            final(self).steps_spec() == old(self).steps_spec().push(step),
            final(self).pos_spec() == old(self).pos_spec(),
            final(self).inside_spec() == old(self).inside_spec(),
            final(self).bounds_spec() == old(self).bounds_spec(),
    ;

    /// The agent's position.
    fn get_pos(&self) -> (r: Vec2)
        ensures
            r == self.pos_spec(),
    ;

    /// True when no waypoint is pending.
    fn steps_are_empty(&self) -> (r: bool)
        ensures
            r == (self.steps_spec().len() == 0),
    ;

    /// The next waypoint.
    fn get_first_step(&self) -> (r: &Vec2)
        requires
            self.steps_spec().len() > 0,
        ensures
            *r == self.steps_spec()[0],
    ;

    /// Drops the front waypoint; an empty queue stays empty.
    fn pop_first_step(&mut self)
        ensures
            final(self).steps_spec() == (if old(self).steps_spec().len() > 0 {
                old(self).steps_spec().subrange(1, old(self).steps_spec().len() as int)
            } else {
                old(self).steps_spec()
            }),
            final(self).pos_spec() == old(self).pos_spec(),
            final(self).inside_spec() == old(self).inside_spec(),
            final(self).bounds_spec() == old(self).bounds_spec(),
    ;

    /// The agent's collision box.
    fn get_collision_bounds(&self) -> (r: Rect)
        requires
            self.agent_wf(),
        ensures
            r == self.bounds_spec(),
    ;

    /// Moves the agent and its collision box by `(x, y)`.
    fn move2f(&mut self, x: i64, y: i64)
        requires
            -2_000_000_000 <= x <= 2_000_000_000,
            -2_000_000_000 <= y <= 2_000_000_000,
            old(self).agent_wf(),
            old(self).pos_spec().ok(),
            old(self).bounds_spec().ok(),
        ensures
            final(self).pos_spec() == (Vec2 {
                x: (old(self).pos_spec().x + x) as i64,
                y: (old(self).pos_spec().y + y) as i64,
            }),
            final(self).bounds_spec() == (Rect {
                left: (old(self).bounds_spec().left + x) as i64,
                top: (old(self).bounds_spec().top + y) as i64,
                ..old(self).bounds_spec()
            }),
            final(self).steps_spec() == old(self).steps_spec(),
            final(self).inside_spec() == old(self).inside_spec(),
    ;

    /// Records whether the agent is inside the train.
    fn set_inside_wagon(&mut self, inside: bool)
        ensures
            final(self).inside_spec() == inside,
            final(self).pos_spec() == old(self).pos_spec(),
            final(self).steps_spec() == old(self).steps_spec(),
            final(self).bounds_spec() == old(self).bounds_spec(),
    ;

    /// Replaces the waypoint queue with the tile centers of the given grid
    /// cells, skipping the first cell (the agent's own).
    fn set_path(&mut self, path: &mut VecDeque<(i32, i32)>, train_pos: Vec2)
        requires
            train_pos.ok(),
            forall|t: int|
                0 <= t < old(path)@.len() ==> -100_000 <= (#[trigger] old(path)@[t]).0 <= 100_000
                    && -100_000 <= old(path)@[t].1 <= 100_000,
        ensures
            final(path)@ == old(path)@,
            final(self).pos_spec() == old(self).pos_spec(),
            final(self).inside_spec() == old(self).inside_spec(),
            final(self).bounds_spec() == old(self).bounds_spec(),
            final(self).steps_spec().len() == (if old(path)@.len() >= 1 {
                old(path)@.len() - 1
            } else {
                0int
            }),
            forall|t: int|
                0 <= t < final(self).steps_spec().len() ==> #[trigger] final(self).steps_spec()[t]
                    == (Vec2 {
                    x: cell_center(old(path)@[t + 1].0 as int, train_pos.x as int, 2) as i64,
                    y: cell_center(old(path)@[t + 1].1 as int, train_pos.y as int, 2) as i64,
                }),
    {
        self.clear_steps();
        let mut idx: usize = 1;
        while idx < path.len()
            invariant
                train_pos.ok(),
                path@ == old(path)@,
                forall|t: int|
                    0 <= t < path@.len() ==> -100_000 <= (#[trigger] path@[t]).0 <= 100_000
                        && -100_000 <= path@[t].1 <= 100_000,
                1 <= idx <= path@.len() || (path@.len() == 0 && idx == 1),
                self.pos_spec() == old(self).pos_spec(),
                self.inside_spec() == old(self).inside_spec(),
                self.bounds_spec() == old(self).bounds_spec(),
                self.steps_spec().len() == idx - 1,
                forall|t: int|
                    0 <= t < idx - 1 ==> #[trigger] self.steps_spec()[t] == (Vec2 {
                        x: cell_center(path@[t + 1].0 as int, train_pos.x as int, 2) as i64,
                        y: cell_center(path@[t + 1].1 as int, train_pos.y as int, 2) as i64,
                    }),
            decreases path@.len() - idx,
        {
            let step = path[idx];
            let w = cell_to_world(step, train_pos, 2, 2);
            self.add_step(w);
            idx = idx + 1;
        }
    }

    /// How many steps a shortest walk to the clicked position takes, or
    /// `None` when the agent's cell lies outside the grid or no walk
    /// exists.
    fn number_of_steps_to(&self, grid: &PathfindingGrid, train_pos: &Vec2, click_pos: Vec2) -> (r:
        Option<usize>)
        requires
            grid.wf(),
            grid.grid@.len() <= 30000,
            grid.grid@.len() > 0 ==> grid.grid@[0]@.len() <= 30000,
            grid.padding.0 <= 16,
            grid.padding.2 <= 16,
            self.pos_spec().ok(),
            train_pos.ok(),
            click_pos.ok(),
        ensures
            ({
                let s = (
                    cell_coord(self.pos_spec().x as int, train_pos.x as int, grid.padding.2 as int),
                    cell_coord(self.pos_spec().y as int, train_pos.y as int, grid.padding.0 as int),
                );
                let e = (
                    cell_coord(click_pos.x as int, train_pos.x as int, grid.padding.2 as int),
                    cell_coord(click_pos.y as int, train_pos.y as int, grid.padding.0 as int),
                );
                match r {
                    Some(n) => cell_in_bounds(grid.grid@, s.0, s.1) && (exists|q: Seq<(int, int)>|
                        #[trigger] is_path(grid.grid@, q, s, e) && q.len() == n + 1) && forall|
                        q: Seq<(int, int)>,
                    |
                        is_path(grid.grid@, q, s, e) ==> q.len() >= n + 1,
                    None => !cell_in_bounds(grid.grid@, s.0, s.1) || forall|q: Seq<(int, int)>|
                        !is_path(grid.grid@, q, s, e),
                }
            }),
    {
        let start = world_to_cell(self.get_pos(), *train_pos, grid.padding.2, grid.padding.0);
        let end = world_to_cell(click_pos, *train_pos, grid.padding.2, grid.padding.0);
        if start.0 < 0 || start.1 < 0 || (start.0 as usize) >= grid.grid.len() {
            return None;
        }
        let h = {
            let row0 = &grid.grid[0];
            row0.len()
        };
        if (start.1 as usize) >= h {
            return None;
        }
        let ts = GridSearch::new(grid, start, end);
        let found = ts.solve();
        let ghost s = (
            cell_coord(self.pos_spec().x as int, train_pos.x as int, grid.padding.2 as int),
            cell_coord(self.pos_spec().y as int, train_pos.y as int, grid.padding.0 as int),
        );
        let ghost e = (
            cell_coord(click_pos.x as int, train_pos.x as int, grid.padding.2 as int),
            cell_coord(click_pos.y as int, train_pos.y as int, grid.padding.0 as int),
        );
        proof {
            assert(ts.s_cell() == s);
            assert(ts.e_cell() == e);
        }
        match found {
            Some(path) => {
                proof {
                    assert(is_path(grid.grid@, path_view(path@), s, e));
                    assert(path_view(path@).len() == path@.len());
                }
                Some(path.len() - 1)
            },
            None => None,
        }
    }

    /// One mover tick, `dt` elapsed milliseconds: pop the front waypoint on
    /// arrival; otherwise move toward it at walking speed unless a solid
    /// tile's collision rectangle vetoes the whole displacement, and after
    /// a successful move reclassify the agent as inside or outside.
    fn update_movement(&mut self, wagons: &Vec<Wagon>, dt: i64)
        requires
            0 <= dt <= 3_600_000,
            old(self).agent_wf(),
            old(self).pos_spec().ok(),
            rect_near(old(self).bounds_spec()),
            forall|t: int|
                0 <= t < old(self).steps_spec().len() ==> (#[trigger] old(self).steps_spec()[t]).ok(),
            wagons_mover_ok(wagons@),
        ensures
            (if old(self).steps_spec().len() == 0 {
                *final(self) == *old(self)
            } else {
                let dest = old(self).steps_spec()[0];
                if arrived(old(self).pos_spec(), dest) {
                    &&& final(self).steps_spec() == old(self).steps_spec().subrange(
                        1,
                        old(self).steps_spec().len() as int,
                    )
                    &&& final(self).pos_spec() == old(self).pos_spec()
                    &&& final(self).inside_spec() == old(self).inside_spec()
                    &&& final(self).bounds_spec() == old(self).bounds_spec()
                } else {
                    let d = step_vec(old(self).pos_spec(), dest, dt as int);
                    let desired = Rect {
                        left: (old(self).bounds_spec().left + d.0) as i64,
                        top: (old(self).bounds_spec().top + d.1) as i64,
                        ..old(self).bounds_spec()
                    };
                    if d == (0int, 0int) || blocked(desired, wagons@) {
                        *final(self) == *old(self)
                    } else {
                        &&& final(self).steps_spec() == old(self).steps_spec()
                        &&& final(self).pos_spec() == (Vec2 {
                            x: (old(self).pos_spec().x + d.0) as i64,
                            y: (old(self).pos_spec().y + d.1) as i64,
                        })
                        &&& final(self).bounds_spec() == desired
                        &&& final(self).inside_spec() == pos_inside_wagons(
                            wagons@,
                            final(self).pos_spec(),
                        )
                    }
                }
            }),
    {
        if self.steps_are_empty() {
            return ;
        }
        let current_pos = self.get_pos();
        let dest = *self.get_first_step();
        let ddx = dest.x - current_pos.x;
        let ddy = dest.y - current_pos.y;
        let adx = if ddx >= 0 {
            ddx
        } else {
            -ddx
        };
        let ady = if ddy >= 0 {
            ddy
        } else {
            -ddy
        };
        if adx < ARRIVE_DIST && ady < ARRIVE_DIST {
            self.pop_first_step();
            return ;
        }
        proof {
            assert(0 <= ddx * ddx <= 4_100_000_000_000_000_000 && 0 <= ddy * ddy
                <= 4_100_000_000_000_000_000 && ddx * ddx + ddy * ddy
                < 9_000_000_000_000_000_000) by (nonlinear_arith)
                requires
                    -2_000_000_001 <= ddx <= 2_000_000_001,
                    -2_000_000_001 <= ddy <= 2_000_000_001,
            ;
        }
        let sum = ddx * ddx + ddy * ddy;
        let vec_len = isqrt(sum as u64) as i64;
        proof {
            assert(vec_len >= 1 && ddx <= vec_len && -ddx <= vec_len && ddy <= vec_len && -ddy
                <= vec_len && vec_len <= 3_000_000_000) by (nonlinear_arith)
                requires
                    is_sqrt(ddx * ddx + ddy * ddy, vec_len as int),
                    -2_000_000_001 <= ddx <= 2_000_000_001,
                    -2_000_000_001 <= ddy <= 2_000_000_001,
                    absi(ddx as int) >= ARRIVE_DIST || absi(ddy as int) >= ARRIVE_DIST,
            ;
        }
        let mult = MOVE_SPEED * dt;
        proof {
            assert(0 <= mult as int * adx as int <= 3_000_000_000_000_000_000 && 0 <= mult as int
                * ady as int <= 3_000_000_000_000_000_000) by (nonlinear_arith)
                requires
                    0 <= mult <= 1_080_000_000,
                    0 <= adx <= 2_000_000_001,
                    0 <= ady <= 2_000_000_001,
            ;
        }
        let dx_mag = (mult * adx) / vec_len;
        let dy_mag = (mult * ady) / vec_len;
        proof {
            assert(0 <= dx_mag as int <= mult as int && dx_mag as int == (mult as int * adx as int)
                / (vec_len as int) && 0 <= dy_mag as int <= mult as int && dy_mag as int == (
            mult as int * ady as int) / (vec_len as int)) by (nonlinear_arith)
                requires
                    1 <= vec_len <= 3_000_000_000,
                    0 <= mult <= 1_080_000_000,
                    0 <= adx <= vec_len,
                    0 <= ady <= vec_len,
                    dx_mag as int == (mult as int * adx as int) / (vec_len as int),
                    dy_mag as int == (mult as int * ady as int) / (vec_len as int),
            ;
        }
        let dx = if ddx >= 0 {
            dx_mag
        } else {
            -dx_mag
        };
        let dy = if ddy >= 0 {
            dy_mag
        } else {
            -dy_mag
        };
        proof {
            let m = mult as int;
            let l = vec_len as int;
            if ddx >= 0 {
                assert(m * (ddx as int) >= 0 && m * (adx as int) == m * (ddx as int))
                    by (nonlinear_arith)
                    requires
                        m >= 0,
                        ddx >= 0,
                        adx == ddx,
                ;
            } else {
                assert(m * (ddx as int) <= 0 && m * (adx as int) == -(m * (ddx as int)))
                    by (nonlinear_arith)
                    requires
                        m >= 0,
                        ddx < 0,
                        adx as int == -(ddx as int),
                ;
                assert((0int) / l == 0);
            }
            assert(dx as int == tdiv(m * (ddx as int), l));
            if ddy >= 0 {
                assert(m * (ddy as int) >= 0 && m * (ady as int) == m * (ddy as int))
                    by (nonlinear_arith)
                    requires
                        m >= 0,
                        ddy >= 0,
                        ady == ddy,
                ;
            } else {
                assert(m * (ddy as int) <= 0 && m * (ady as int) == -(m * (ddy as int)))
                    by (nonlinear_arith)
                    requires
                        m >= 0,
                        ddy < 0,
                        ady as int == -(ddy as int),
                ;
                assert((0int) / l == 0);
            }
            assert(dy as int == tdiv(m * (ddy as int), l));
        }
        if !(dx == 0 && dy == 0) {
            let actor_bounds = self.get_collision_bounds();
            let desired_pos = Rect::new(
                actor_bounds.left + dx,
                actor_bounds.top + dy,
                actor_bounds.width,
                actor_bounds.height,
            );
            if check_collision(&desired_pos, &wagons) {
                self.move2f(dx, dy);
                let npos = self.get_pos();
                let ins = position_inside_wagons(wagons, npos);
                self.set_inside_wagon(ins);
            }
        }
    }
}

} // verus!