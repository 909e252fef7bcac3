//! The train and its grid composer.  An ordered row of wagons (index 0 is
//! the rightmost in grid space; wagons are laid out right to left and
//! overlap their neighbor by one connector column) is composed into three
//! walkability grids: a permissive `all` view, an `inside` view of the
//! wagon interiors, and an `outside` view that complements it except at
//! door-linked cells.

use vstd::prelude::*;
use crate::geometry::Vec2;
use crate::grid::{PathfindingGrid, PathfindingTile, set_cell, fill_grid};
use crate::wagon::{Wagon, Tile, TileType, Direction, wagon_h, wagon_w, wagon_wf};

verus! {

/// Every wagon of the sequence is a non-empty rectangle.
pub open spec fn wagons_wf(ws: Seq<Wagon>) -> bool {
    forall|k: int| 0 <= k < ws.len() ==> wagon_wf(#[trigger] ws[k])
}

/// Summed widths of the first `k` wagons, one column subtracted per wagon
/// for the overlap with its neighbor.
pub open spec fn width_sum(ws: Seq<Wagon>, k: int) -> int
    decreases k,
{
    if k <= 0 {
        0
    } else {
        width_sum(ws, k - 1) + wagon_w(ws[k - 1]) - 1
    }
}

/// Width in tiles of the composed wagon area.
pub open spec fn total_width(ws: Seq<Wagon>) -> int {
    width_sum(ws, ws.len() as int) + 1
}

/// Horizontal grid offset at which wagon `k` starts: the widths of all
/// wagons behind it in the sequence.
pub open spec fn offset_of(ws: Seq<Wagon>, k: int) -> int {
    width_sum(ws, ws.len() as int) - width_sum(ws, k + 1)
}

/// The tallest wagon among the first `k`.
pub open spec fn max_h_pre(ws: Seq<Wagon>, k: int) -> int
    decreases k,
{
    if k <= 0 {
        0
    } else {
        let m = max_h_pre(ws, k - 1);
        if wagon_h(ws[k - 1]) > m {
            wagon_h(ws[k - 1])
        } else {
            m
        }
    }
}

/// Height in tiles of the composed wagon area: the tallest wagon.
pub open spec fn max_h(ws: Seq<Wagon>) -> int {
    max_h_pre(ws, ws.len() as int)
}

/// The grid row at which wagon `k`'s top row sits: two rows of padding plus
/// vertical centering against the tallest wagon.
pub open spec fn vtop(ws: Seq<Wagon>, k: int) -> int {
    2 + (max_h(ws) - wagon_h(ws[k])) / 2
}

/// Grid cell `(x, y)` lies in the rectangle wagon `k` is blitted to.
pub open spec fn covers(ws: Seq<Wagon>, k: int, x: int, y: int) -> bool {
    &&& 2 + offset_of(ws, k) <= x < 2 + offset_of(ws, k) + wagon_w(ws[k])
    &&& vtop(ws, k) <= y < vtop(ws, k) + wagon_h(ws[k])
}

/// The wagon tile that grid cell `(x, y)` reads from wagon `k`.
pub open spec fn wagon_cell(ws: Seq<Wagon>, k: int, x: int, y: int) -> Tile {
    ws[k].tiles@[y - vtop(ws, k)]@[x - 2 - offset_of(ws, k)]
}

/// The first wagon at index `k` or later whose rectangle covers `(x, y)`;
/// `ws.len()` when none does.  Wagons are blitted from the back of the
/// sequence forward, so on the one-column overlap the earlier wagon wins.
#[verifier::opaque]
pub open spec fn owner_from(ws: Seq<Wagon>, k: int, x: int, y: int) -> int
    decreases ws.len() - k,
{
    if k < 0 || k >= ws.len() {
        ws.len() as int
    } else if covers(ws, k, x, y) {
        k
    } else {
        owner_from(ws, k + 1, x, y)
    }
}

/// Walkability of cell `(x, y)` in the composed inside view, counting only
/// wagons at index `k` or later: the owning wagon's non-solid tiles are
/// walkable, everything else is not.
#[verifier::opaque]
pub open spec fn inside_from(ws: Seq<Wagon>, k: int, x: int, y: int) -> bool {
    let o = owner_from(ws, k, x, y);
    if o < ws.len() {
        !wagon_cell(ws, o, x, y).is_solid
    } else {
        false
    }
}

/// Walkability of cell `(x, y)` in the composed inside view.
pub open spec fn inside_spec(ws: Seq<Wagon>, x: int, y: int) -> bool {
    inside_from(ws, 0, x, y)
}

/// Wagon `k` holds a door tile at row `i`, column `j`.
pub open spec fn is_door_at(ws: Seq<Wagon>, k: int, i: int, j: int) -> bool {
    &&& 0 <= k < ws.len()
    &&& 0 <= i < wagon_h(ws[k])
    &&& 0 <= j < wagon_w(ws[k])
    &&& ws[k].tiles@[i]@[j].tile_type is Door
}

/// The grid cell a door tile itself maps to.
pub open spec fn door_inner(ws: Seq<Wagon>, k: int, i: int, j: int) -> (int, int) {
    (2 + offset_of(ws, k) + j, vtop(ws, k) + i)
}

/// One grid step in the direction a door faces.
pub open spec fn dir_step(d: Direction) -> (int, int) {
    match d {
        Direction::North => (0, 1),
        Direction::South => (0, -1),
        Direction::West => (1, 0),
        Direction::East => (-1, 0),
    }
}

/// The cell across a door's threshold: its own cell offset by its facing.
pub open spec fn door_outer(ws: Seq<Wagon>, k: int, i: int, j: int) -> (int, int) {
    let inner = door_inner(ws, k, i, j);
    let d = ws[k].tiles@[i]@[j].tile_type->Door_0;
    (inner.0 + dir_step(d).0, inner.1 + dir_step(d).1)
}

/// Cell `c` is some door's own cell.
#[verifier::opaque]
pub open spec fn is_door_inner_cell(ws: Seq<Wagon>, c: (int, int)) -> bool {
    exists|k: int, i: int, j: int| is_door_at(ws, k, i, j) && #[trigger] door_inner(ws, k, i, j) == c
}

/// Cell `c` lies across the threshold of a door whose own cell is walkable
/// in the inside view (the door stands open).
#[verifier::opaque]
pub open spec fn is_open_door_outer_cell(ws: Seq<Wagon>, c: (int, int)) -> bool {
    exists|k: int, i: int, j: int|
        is_door_at(ws, k, i, j) && #[trigger] door_outer(ws, k, i, j) == c && inside_spec(
            ws,
            door_inner(ws, k, i, j).0,
            door_inner(ws, k, i, j).1,
        )
}

/// Walkability of cell `(x, y)` in the composed outside view: the
/// complement of the inside view, except that every door's own cell is
/// walkable and the cell across an open door's threshold is walkable.
#[verifier::opaque]
pub open spec fn outside_spec(ws: Seq<Wagon>, x: int, y: int) -> bool {
    ||| !inside_spec(ws, x, y)
    ||| is_door_inner_cell(ws, (x, y))
    ||| is_open_door_outer_cell(ws, (x, y))
}

/// One door record: the door's own grid cell and the cell across its
/// threshold.
pub open spec fn door_rec_matches(
    ws: Seq<Wagon>,
    k: int,
    i: int,
    j: int,
    p: ((usize, usize), (usize, usize)),
) -> bool {
    &&& is_door_at(ws, k, i, j)
    &&& (p.0.0 as int, p.0.1 as int) == door_inner(ws, k, i, j)
    &&& (p.1.0 as int, p.1.1 as int) == door_outer(ws, k, i, j)
}

/// Door `(kk, ii, jj)` has already been recorded when the composer stands
/// before wagon `k`'s tile `(i, j)`: wagons are walked from the back of the
/// sequence forward, rows top-down, columns left to right.
pub open spec fn door_before(k: int, i: int, j: int, kk: int, ii: int, jj: int) -> bool {
    kk > k || (kk == k && (ii < i || (ii == i && jj < j)))
}

/// The list holds a record of door `(kk, ii, jj)`.
#[verifier::opaque]
pub open spec fn door_listed(
    ws: Seq<Wagon>,
    kk: int,
    ii: int,
    jj: int,
    ds: Seq<((usize, usize), (usize, usize))>,
) -> bool {
    exists|t: int| 0 <= t < ds.len() && door_rec_matches(ws, kk, ii, jj, #[trigger] ds[t])
}

/// Every door the composer has passed is recorded.
#[verifier::opaque]
pub open spec fn doors_complete_upto(
    ws: Seq<Wagon>,
    k: int,
    i: int,
    j: int,
    ds: Seq<((usize, usize), (usize, usize))>,
) -> bool {
    forall|kk: int, ii: int, jj: int|
        #[trigger] is_door_at(ws, kk, ii, jj) && door_before(k, i, j, kk, ii, jj) ==> door_listed(
            ws,
            kk,
            ii,
            jj,
            ds,
        )
}

/// The record describes a real door of some wagon.
pub open spec fn door_entry_ok(ws: Seq<Wagon>, p: ((usize, usize), (usize, usize))) -> bool {
    exists|kk: int, ii: int, jj: int| #[trigger] door_rec_matches(ws, kk, ii, jj, p)
}

/// Every record on the list is a real door of some wagon.
#[verifier::opaque]
pub open spec fn doors_sound(ws: Seq<Wagon>, ds: Seq<((usize, usize), (usize, usize))>) -> bool {
    forall|t: int| 0 <= t < ds.len() ==> #[trigger] door_entry_ok(ws, ds[t])
}

/// Walkability the inside grid shows while wagon `k` is being blitted and
/// the composer stands before its tile `(i, j)`: the already-copied part of
/// wagon `k` over what the wagons behind it left.
pub open spec fn blit_value(ws: Seq<Wagon>, k: int, i: int, j: int, x: int, y: int) -> bool {
    if covers(ws, k, x, y) && door_before(k, i, j, k, y - vtop(ws, k), x - 2 - offset_of(ws, k)) {
        !wagon_cell(ws, k, x, y).is_solid
    } else {
        inside_from(ws, k + 1, x, y)
    }
}

proof fn lemma_width_sum_nonneg(ws: Seq<Wagon>, k: int)
    requires
        wagons_wf(ws),
        k <= ws.len(),
    ensures
        width_sum(ws, k) >= 0,
    decreases k,
{
    if k > 0 {
        lemma_width_sum_nonneg(ws, k - 1);
    }
}

proof fn lemma_width_sum_mono(ws: Seq<Wagon>, a: int, b: int)
    requires
        wagons_wf(ws),
        a <= b <= ws.len(),
    ensures
        width_sum(ws, a) <= width_sum(ws, b),
    decreases b - a,
{
    if a < b {
        lemma_width_sum_mono(ws, a, b - 1);
    }
}

/// Wagon `k`'s rectangle ends at or before the composed area's right edge.
proof fn lemma_offset_bound(ws: Seq<Wagon>, k: int)
    requires
        wagons_wf(ws),
        0 <= k < ws.len(),
    ensures
        offset_of(ws, k) >= 0,
        offset_of(ws, k) + wagon_w(ws[k]) <= total_width(ws),
    decreases ws.len(),
{
    lemma_width_sum_mono(ws, k + 1, ws.len() as int);
    lemma_width_sum_nonneg(ws, k);
    assert(width_sum(ws, k + 1) == width_sum(ws, k) + wagon_w(ws[k]) - 1);
}

proof fn lemma_max_h_pre_mono(ws: Seq<Wagon>, a: int, b: int)
    requires
        a <= b,
    ensures
        max_h_pre(ws, a) <= max_h_pre(ws, b),
    decreases b - a,
{
    if a < b {
        lemma_max_h_pre_mono(ws, a, b - 1);
    }
}

/// No wagon is taller than the composed area.
proof fn lemma_wagon_h_le_max(ws: Seq<Wagon>, k: int)
    requires
        0 <= k < ws.len(),
    ensures
        wagon_h(ws[k]) <= max_h(ws),
        max_h(ws) >= 0,
{
    lemma_max_h_pre_mono(ws, k + 1, ws.len() as int);
    lemma_max_h_pre_mono(ws, 0, ws.len() as int);
}

/// A wagon cell's grid coordinates lie strictly inside the padded grid.
proof fn lemma_cover_bounds(ws: Seq<Wagon>, k: int, x: int, y: int)
    requires
        wagons_wf(ws),
        0 <= k < ws.len(),
        covers(ws, k, x, y),
    ensures
        2 <= x < total_width(ws) + 2,
        2 <= y < max_h(ws) + 2,
{
    lemma_offset_bound(ws, k);
    lemma_wagon_h_le_max(ws, k);
    assert((max_h(ws) - wagon_h(ws[k])) / 2 >= 0);
    assert((max_h(ws) - wagon_h(ws[k])) / 2 <= max_h(ws) - wagon_h(ws[k]));
}

/// The train: its wagons, motion state in fixed-point pixels per second,
/// the three composed grids, and the composed area's size in tiles.
pub struct Train {
    pub wagons: Vec<Wagon>,
    pub moving: bool,
    pub current_speed: i64,
    pub top_speed: i64,
    pub accel: i64,
    pub pfgrid_in: PathfindingGrid,
    pub pfgrid_out: PathfindingGrid,
    pub pfgrid_all: PathfindingGrid,
    pub total_size: (u32, u32),
}

impl Train {
    /// An empty, standing train.
    pub fn new() -> (r: Train)
        ensures
            r.wagons@.len() == 0,
            !r.moving,
            r.current_speed == 0,
            r.top_speed == 0,
            r.accel == 0,
            r.total_size == (0u32, 0u32),
            r.pfgrid_in.grid@.len() == 0,
            r.pfgrid_out.grid@.len() == 0,
            r.pfgrid_all.grid@.len() == 0,
    {
        Train {
            wagons: Vec::new(),
            moving: false,
            current_speed: 0,
            top_speed: 0,
            accel: 0,
            pfgrid_in: PathfindingGrid::new(),
            pfgrid_out: PathfindingGrid::new(),
            pfgrid_all: PathfindingGrid::new(),
            total_size: (0, 0),
        }
    }

    /// Sets the train's top speed and acceleration.
    pub fn init(&mut self, top_speed: i64, accel: i64)
        ensures
            final(self).top_speed == top_speed,
            final(self).accel == accel,
            final(self).wagons == old(self).wagons,
            final(self).moving == old(self).moving,
            final(self).current_speed == old(self).current_speed,
            final(self).pfgrid_in == old(self).pfgrid_in,
            final(self).pfgrid_out == old(self).pfgrid_out,
            final(self).pfgrid_all == old(self).pfgrid_all,
            final(self).total_size == old(self).total_size,
    {
        self.top_speed = top_speed;
        self.accel = accel;
    }

    /// One speed tick: a moving train accelerates while below its top
    /// speed, a stopped one brakes at half the acceleration.
    pub fn update(&mut self)
        requires
            0 <= old(self).current_speed <= 1_000_000_000,
            0 <= old(self).accel <= 1_000_000_000,
            -1_000_000_000 <= old(self).top_speed <= 1_000_000_000,
        ensures
            final(self).current_speed == (if old(self).moving {
                if old(self).current_speed + old(self).accel < old(self).top_speed {
                    old(self).current_speed + old(self).accel
                } else {
                    old(self).current_speed as int
                }
            } else {
                if old(self).current_speed > 0 {
                    old(self).current_speed - old(self).accel / 2
                } else {
                    old(self).current_speed as int
                }
            }),
            final(self).wagons == old(self).wagons,
            final(self).moving == old(self).moving,
            final(self).top_speed == old(self).top_speed,
            final(self).accel == old(self).accel,
            final(self).pfgrid_in == old(self).pfgrid_in,
            final(self).pfgrid_out == old(self).pfgrid_out,
            final(self).pfgrid_all == old(self).pfgrid_all,
            final(self).total_size == old(self).total_size,
    {
        if self.moving {
            if self.current_speed + self.accel < self.top_speed {
                self.current_speed = self.current_speed + self.accel;
            }
        } else if self.current_speed > 0 {
            self.current_speed = self.current_speed - self.accel / 2;
        }
    }

    /// Moves the whole train so the last wagon's center lands at the given
    /// point's componentwise distance: every wagon shifts by the absolute
    /// difference between that center and `(x, y)` on each axis.
    pub fn set_position2f(&mut self, x: i64, y: i64)
        requires
            old(self).wagons@.len() > 0,
            -1_000_000_000 <= x <= 1_000_000_000,
            -1_000_000_000 <= y <= 1_000_000_000,
            old(self).wagons@.last().center.ok(),
            forall|k: int|
                0 <= k < old(self).wagons@.len() ==> wagon_wf(#[trigger] old(self).wagons@[k])
                    && crate::wagon::wagon_positions_ok(old(self).wagons@[k]) && old(self).wagons@[k].center.ok(),
        ensures
            final(self).wagons@.len() == old(self).wagons@.len(),
            forall|k: int|
                0 <= k < old(self).wagons@.len() ==> {
                    let dx = crate::mover::absi(old(self).wagons@.last().center.x - x);
                    let dy = crate::mover::absi(old(self).wagons@.last().center.y - y);
                    let w0 = old(self).wagons@[k];
                    let w1 = #[trigger] final(self).wagons@[k];
                    &&& w1.center.x == w0.center.x + dx
                    &&& w1.center.y == w0.center.y + dy
                    &&& w1.rotation == w0.rotation
                    &&& w1.tiles@.len() == w0.tiles@.len()
                    &&& forall|i: int, j: int|
                        0 <= i < w0.tiles@.len() && 0 <= j < w0.tiles@[i]@.len()
                            ==> #[trigger] w1.tiles@[i]@[j] == crate::wagon::tile_moved(
                            w0.tiles@[i]@[j],
                            dx,
                            dy,
                        ) && w1.tiles@[i]@.len() == w0.tiles@[i]@.len()
                },
            final(self).moving == old(self).moving,
            final(self).current_speed == old(self).current_speed,
            final(self).top_speed == old(self).top_speed,
            final(self).accel == old(self).accel,
            final(self).pfgrid_in == old(self).pfgrid_in,
            final(self).pfgrid_out == old(self).pfgrid_out,
            final(self).pfgrid_all == old(self).pfgrid_all,
            final(self).total_size == old(self).total_size,
    {
        let last = self.wagons.len() - 1;
        let origin = {
            let w = &self.wagons[last];
            w.get_origin()
        };
        let dx = if origin.x - x >= 0 {
            origin.x - x
        } else {
            -(origin.x - x)
        };
        let dy = if origin.y - y >= 0 {
            origin.y - y
        } else {
            -(origin.y - y)
        };
        let mut k: usize = 0;
        while k < self.wagons.len()
            invariant
                self.wagons@.len() == old(self).wagons@.len(),
                k <= self.wagons@.len(),
                0 <= dx <= 2_000_000_000,
                0 <= dy <= 2_000_000_000,
                dx as int == crate::mover::absi(old(self).wagons@.last().center.x - x),
                dy as int == crate::mover::absi(old(self).wagons@.last().center.y - y),
                forall|k2: int|
                    k <= k2 < old(self).wagons@.len() ==> #[trigger] self.wagons@[k2] == old(self).wagons@[k2],
                forall|k2: int|
                    0 <= k2 < old(self).wagons@.len() ==> wagon_wf(#[trigger] old(self).wagons@[k2])
                        && crate::wagon::wagon_positions_ok(old(self).wagons@[k2]) && old(self).wagons@[k2].center.ok(),
                forall|k2: int|
                    0 <= k2 < k ==> {
                        let w0 = old(self).wagons@[k2];
                        let w1 = #[trigger] self.wagons@[k2];
                        &&& w1.center.x == w0.center.x + dx
                        &&& w1.center.y == w0.center.y + dy
                        &&& w1.rotation == w0.rotation
                        &&& w1.tiles@.len() == w0.tiles@.len()
                        &&& forall|i: int, j: int|
                            0 <= i < w0.tiles@.len() && 0 <= j < w0.tiles@[i]@.len()
                                ==> #[trigger] w1.tiles@[i]@[j] == crate::wagon::tile_moved(
                                w0.tiles@[i]@[j],
                                dx as int,
                                dy as int,
                            ) && w1.tiles@[i]@.len() == w0.tiles@[i]@.len()
                    },
                self.moving == old(self).moving,
                self.current_speed == old(self).current_speed,
                self.top_speed == old(self).top_speed,
                self.accel == old(self).accel,
                self.pfgrid_in == old(self).pfgrid_in,
                self.pfgrid_out == old(self).pfgrid_out,
                self.pfgrid_all == old(self).pfgrid_all,
                self.total_size == old(self).total_size,
            decreases self.wagons@.len() - k,
        {
            let w = &mut self.wagons[k];
            w.move2f(dx, dy);
            k = k + 1;
        }
    }

    /// The train's world origin: the last wagon's center, lifted by half
    /// the height difference between the composed area and that wagon.
    pub fn get_origin(&self) -> (r: Vec2)
        requires
            self.wagons@.len() > 0,
            wagon_wf(self.wagons@.last()),
            self.wagons@.last().center.ok(),
            self.total_size.1 <= 25000,
            wagon_h(self.wagons@.last()) <= self.total_size.1 as int,
        ensures
            r.x == self.wagons@.last().center.x,
            r.y == self.wagons@.last().center.y - (self.total_size.1 as int - wagon_h(
                self.wagons@.last(),
            )) / 2 * 64000,
    {
        let last = self.wagons.len() - 1;
        let first_wagon_height = {
            let w = &self.wagons[last];
            w.tiles.len()
        };
        let first_tile_pos = {
            let w = &self.wagons[last];
            w.get_origin()
        };
        let lift = ((self.total_size.1 as usize - first_wagon_height) / 2) as i64 * 64000i64;
        Vec2 { x: first_tile_pos.x, y: first_tile_pos.y - lift }
    }
}


/// Sums the wagons' widths (one column per junction overlaps) and takes the
/// tallest height.
fn compute_dims(wagons: &Vec<Wagon>) -> (r: (usize, usize))
    requires
        wagons_wf(wagons@),
        total_width(wagons@) <= 25000,
        max_h(wagons@) <= 25000,
    ensures
        r.0 as int == total_width(wagons@),
        r.1 as int == max_h(wagons@),
{
    let ghost ws = wagons@;
    let mut total_width: usize = 0;
    let mut max_height: usize = 0;
    let mut i: usize = 0;
    while i < wagons.len()
        invariant
            wagons_wf(ws),
            ws == wagons@,
            crate::train::total_width(ws) <= 25000,
            max_h(ws) <= 25000,
            i <= ws.len(),
            total_width as int == width_sum(ws, i as int),
            max_height as int == max_h_pre(ws, i as int),
        decreases ws.len() - i,
    {
        proof {
            lemma_width_sum_mono(ws, i as int + 1, ws.len() as int);
            lemma_width_sum_nonneg(ws, i as int);
            lemma_max_h_pre_mono(ws, i as int + 1, ws.len() as int);
        }
        let w = {
            let wag = &wagons[i];
            let row0 = &wag.tiles[0];
            row0.len()
        };
        let h = {
            let wag = &wagons[i];
            wag.tiles.len()
        };
        total_width = total_width + (w - 1);
        if h > max_height {
            max_height = h;
        }
        i = i + 1;
    }
    (total_width + 1, max_height)
}

/// Recording one door keeps the list complete and sound.
proof fn lemma_door_push(
    ws: Seq<Wagon>,
    k: int,
    i: int,
    j: int,
    ds_pre: Seq<((usize, usize), (usize, usize))>,
    ds_new: Seq<((usize, usize), (usize, usize))>,
    rec: ((usize, usize), (usize, usize)),
)
    requires
        door_rec_matches(ws, k, i, j, rec),
        ds_new == ds_pre.push(rec),
        doors_complete_upto(ws, k, i, j, ds_pre),
        doors_sound(ws, ds_pre),
    ensures
        doors_complete_upto(ws, k, i, j + 1, ds_new),
        doors_sound(ws, ds_new),
{
    reveal(doors_complete_upto);
    reveal(doors_sound);
    reveal(door_listed);
    assert forall|kk: int, ii: int, jj: int|
        #[trigger] is_door_at(ws, kk, ii, jj) && door_before(k, i, j + 1, kk, ii, jj)
        implies door_listed(ws, kk, ii, jj, ds_new) by {
        if door_before(k, i, j, kk, ii, jj) {
            let t0 = choose|t0: int|
                0 <= t0 < ds_pre.len() && door_rec_matches(ws, kk, ii, jj, #[trigger] ds_pre[t0]);
            assert(ds_new[t0] == ds_pre[t0]);
            assert(door_rec_matches(ws, kk, ii, jj, ds_new[t0]));
        } else {
            assert(kk == k && ii == i && jj == j);
            assert(door_rec_matches(ws, kk, ii, jj, ds_new[ds_new.len() - 1]));
        }
    }
    assert forall|t: int| 0 <= t < ds_new.len() implies #[trigger] door_entry_ok(
        ws,
        ds_new[t],
    ) by {
        if t < ds_pre.len() {
            assert(ds_new[t] == ds_pre[t]);
            assert(door_entry_ok(ws, ds_pre[t]));
        } else {
            assert(door_rec_matches(ws, k, i, j, ds_new[t]));
        }
    }
}

/// Passing a tile that is no door keeps the list complete.
proof fn lemma_door_skip(
    ws: Seq<Wagon>,
    k: int,
    i: int,
    j: int,
    ds: Seq<((usize, usize), (usize, usize))>,
)
    requires
        0 <= k < ws.len(),
        0 <= i < wagon_h(ws[k]),
        0 <= j < wagon_w(ws[k]),
        !(ws[k].tiles@[i]@[j].tile_type is Door),
        doors_complete_upto(ws, k, i, j, ds),
    ensures
        doors_complete_upto(ws, k, i, j + 1, ds),
{
    reveal(doors_complete_upto);
    assert forall|kk: int, ii: int, jj: int|
        #[trigger] is_door_at(ws, kk, ii, jj) && door_before(k, i, j + 1, kk, ii, jj)
        implies door_listed(ws, kk, ii, jj, ds) by {
        assert(door_before(k, i, j, kk, ii, jj));
    }
}

/// Finishing a row moves the completeness mark to the next row's start.
proof fn lemma_door_row_end(
    ws: Seq<Wagon>,
    k: int,
    i: int,
    ds: Seq<((usize, usize), (usize, usize))>,
)
    requires
        0 <= k < ws.len(),
        doors_complete_upto(ws, k, i, wagon_w(ws[k]), ds),
    ensures
        doors_complete_upto(ws, k, i + 1, 0, ds),
{
    reveal(doors_complete_upto);
    assert forall|kk: int, ii: int, jj: int|
        #[trigger] is_door_at(ws, kk, ii, jj) && door_before(k, i + 1, 0, kk, ii, jj)
        implies door_listed(ws, kk, ii, jj, ds) by {
        assert(door_before(k, i, wagon_w(ws[k]), kk, ii, jj));
    }
}

/// Finishing a wagon moves the completeness mark to the next wagon.
proof fn lemma_door_wagon_end(
    ws: Seq<Wagon>,
    k: int,
    ds: Seq<((usize, usize), (usize, usize))>,
)
    requires
        0 <= k < ws.len(),
        doors_complete_upto(ws, k, wagon_h(ws[k]), 0, ds),
    ensures
        doors_complete_upto(ws, k - 1, 0, 0, ds),
{
    reveal(doors_complete_upto);
    assert forall|kk: int, ii: int, jj: int|
        #[trigger] is_door_at(ws, kk, ii, jj) && door_before(k - 1, 0, 0, kk, ii, jj)
        implies door_listed(ws, kk, ii, jj, ds) by {
        assert(door_before(k, wagon_h(ws[k]), 0, kk, ii, jj));
    }
}

/// Copies one wagon into the inside grid (non-solid tiles become walkable)
/// and records every door tile's own cell and threshold cell.
#[verifier::rlimit(100)]
#[verifier::spinoff_prover]
fn blit_wagon(
    grid: &mut Vec<Vec<PathfindingTile>>,
    doors: &mut Vec<((usize, usize), (usize, usize))>,
    wag: &Wagon,
    off: usize,
    mh: usize,
    k: usize,
    Ghost(ws): Ghost<Seq<Wagon>>,
)
    requires
        wagons_wf(ws),
        (k as int) < ws.len(),
        ws[k as int] == *wag,
        off as int == offset_of(ws, k as int),
        mh as int == max_h(ws),
        total_width(ws) <= 25000,
        max_h(ws) <= 25000,
        old(grid)@.len() == total_width(ws) + 4,
        forall|x: int| 0 <= x < old(grid)@.len() ==> #[trigger] old(grid)@[x]@.len() == max_h(ws)
            + 4,
        forall|x: int, y: int|
            0 <= x < total_width(ws) + 4 && 0 <= y < max_h(ws) + 4 ==> (#[trigger] old(grid)@[x]@[y]).walkable
                == inside_from(ws, k as int + 1, x, y),
        doors_complete_upto(ws, k as int, 0, 0, old(doors)@),
        doors_sound(ws, old(doors)@),
    ensures
        final(grid)@.len() == old(grid)@.len(),
        forall|x: int| 0 <= x < final(grid)@.len() ==> #[trigger] final(grid)@[x]@.len() == max_h(
            ws,
        ) + 4,
        forall|x: int, y: int|
            0 <= x < total_width(ws) + 4 && 0 <= y < max_h(ws) + 4 ==> (#[trigger] final(grid)@[x]@[y]).walkable
                == inside_from(ws, k as int, x, y),
        doors_complete_upto(ws, k as int - 1, 0, 0, final(doors)@),
        doors_sound(ws, final(doors)@),
{
    let h = wag.tiles.len();
    let w = {
        let row0 = &wag.tiles[0];
        row0.len()
    };
    proof {
        lemma_offset_bound(ws, k as int);
        lemma_wagon_h_le_max(ws, k as int);
    }
    let vof = 2 + (mh - h) / 2;
    proof {
        assert(vof as int + h as int <= max_h(ws) + 2);
        assert(off as int + (w as int) <= total_width(ws) + 1);
    }
    let mut i: usize = 0;
    while i < h
        invariant
            wagons_wf(ws),
            (k as int) < ws.len(),
            ws[k as int] == *wag,
            off as int == offset_of(ws, k as int),
            mh as int == max_h(ws),
            total_width(ws) <= 25000,
            max_h(ws) <= 25000,
            h as int == wagon_h(ws[k as int]),
            w as int == wagon_w(ws[k as int]),
            vof as int == vtop(ws, k as int),
            vof as int + h as int <= max_h(ws) + 2,
            off as int + (w as int) <= total_width(ws) + 1,
            i <= h,
            grid@.len() == total_width(ws) + 4,
            forall|x: int| 0 <= x < grid@.len() ==> #[trigger] grid@[x]@.len() == max_h(ws) + 4,
            forall|x: int, y: int|
                0 <= x < total_width(ws) + 4 && 0 <= y < max_h(ws) + 4 ==> (#[trigger] grid@[x]@[y]).walkable
                    == blit_value(ws, k as int, i as int, 0, x, y),
            doors_complete_upto(ws, k as int, i as int, 0, doors@),
            doors_sound(ws, doors@),
        decreases h - i,
    {
        let mut j: usize = 0;
        while j < w
            invariant
                wagons_wf(ws),
                (k as int) < ws.len(),
                ws[k as int] == *wag,
                off as int == offset_of(ws, k as int),
                mh as int == max_h(ws),
                total_width(ws) <= 25000,
                max_h(ws) <= 25000,
                h as int == wagon_h(ws[k as int]),
                w as int == wagon_w(ws[k as int]),
                vof as int == vtop(ws, k as int),
                vof as int + h as int <= max_h(ws) + 2,
                off as int + (w as int) <= total_width(ws) + 1,
                i < h,
                j <= w,
                grid@.len() == total_width(ws) + 4,
                forall|x: int| 0 <= x < grid@.len() ==> #[trigger] grid@[x]@.len() == max_h(ws)
                    + 4,
                forall|x: int, y: int|
                    0 <= x < total_width(ws) + 4 && 0 <= y < max_h(ws) + 4 ==> (#[trigger] grid@[x]@[y]).walkable
                        == blit_value(ws, k as int, i as int, j as int, x, y),
                doors_complete_upto(ws, k as int, i as int, j as int, doors@),
                doors_sound(ws, doors@),
            decreases w - j,
        {
            let x = 2 + j + off;
            let y = vof + i;
            proof {
                assert(covers(ws, k as int, x as int, y as int));
            }
            let t = {
                let row = &wag.tiles[i];
                row[j]
            };
            let ghost grid_pre = grid@;
            set_cell(grid, x, y, PathfindingTile { walkable: !t.is_solid });
            proof {
                assert(wagon_cell(ws, k as int, x as int, y as int) == t);
                assert forall|gx: int, gy: int|
                    0 <= gx < total_width(ws) + 4 && 0 <= gy < max_h(ws) + 4 implies (
                #[trigger] grid@[gx]@[gy]).walkable == blit_value(
                    ws,
                    k as int,
                    i as int,
                    j as int + 1,
                    gx,
                    gy,
                ) by {
                    if gx == x as int && gy == y as int {
                    } else {
                        assert(grid@[gx]@[gy] == grid_pre[gx]@[gy]);
                    }
                }
            }
            let is_door = match t.tile_type {
                TileType::Door(_) => true,
                _ => false,
            };
            let ghost doors_pre = doors@;
            if is_door {
                let step: (i64, i64) = match t.tile_type {
                    TileType::Door(Direction::North) => (0, 1),
                    TileType::Door(Direction::South) => (0, -1),
                    TileType::Door(Direction::West) => (1, 0),
                    TileType::Door(Direction::East) => (-1, 0),
                    _ => (0, 0),
                };
                let ox = if step.0 >= 0 {
                    x + (step.0 as usize)
                } else {
                    x - 1
                };
                let oy = if step.1 >= 0 {
                    y + (step.1 as usize)
                } else {
                    y - 1
                };
                doors.push(((x, y), (ox, oy)));
                proof {
                    assert(is_door_at(ws, k as int, i as int, j as int));
                    assert(door_rec_matches(
                        ws,
                        k as int,
                        i as int,
                        j as int,
                        doors@[doors@.len() - 1],
                    ));
                    lemma_door_push(
                        ws,
                        k as int,
                        i as int,
                        j as int,
                        doors_pre,
                        doors@,
                        ((x, y), (ox, oy)),
                    );
                }
            } else {
                proof {
                    lemma_door_skip(ws, k as int, i as int, j as int, doors@);
                }
            }
            j = j + 1;
        }
        proof {
            lemma_door_row_end(ws, k as int, i as int, doors@);
        }
        i = i + 1;
        proof {
            assert forall|x: int, y: int|
                0 <= x < total_width(ws) + 4 && 0 <= y < max_h(ws) + 4 implies (
            #[trigger] grid@[x]@[y]).walkable == blit_value(ws, k as int, i as int, 0, x, y) by {
                assert(grid@[x]@[y].walkable == blit_value(
                    ws,
                    k as int,
                    i as int - 1,
                    w as int,
                    x,
                    y,
                ));
            }
        }
    }
    proof {
        lemma_door_wagon_end(ws, k as int, doors@);
        reveal(inside_from);
        reveal(owner_from);
        assert forall|x: int, y: int|
            0 <= x < total_width(ws) + 4 && 0 <= y < max_h(ws) + 4 implies (
        #[trigger] grid@[x]@[y]).walkable == inside_from(ws, k as int, x, y) by {
            assert(grid@[x]@[y].walkable == blit_value(ws, k as int, h as int, 0, x, y));
        }
    }
}

/// A door cell and its threshold cell lie inside the padded grid.
proof fn lemma_door_cell_bounds(ws: Seq<Wagon>, k: int, i: int, j: int)
    requires
        wagons_wf(ws),
        is_door_at(ws, k, i, j),
    ensures
        2 <= door_inner(ws, k, i, j).0 < total_width(ws) + 2,
        2 <= door_inner(ws, k, i, j).1 < max_h(ws) + 2,
        1 <= door_outer(ws, k, i, j).0 < total_width(ws) + 3,
        1 <= door_outer(ws, k, i, j).1 < max_h(ws) + 3,
{
    let c = door_inner(ws, k, i, j);
    assert(covers(ws, k, c.0, c.1));
    lemma_cover_bounds(ws, k, c.0, c.1);
}

/// The record list's `n`-long prefix forces cell `(x, y)` walkable as a
/// door's own cell.
pub open spec fn listed_inner_upto(
    ds: Seq<((usize, usize), (usize, usize))>,
    n: int,
    x: int,
    y: int,
) -> bool {
    exists|t: int| 0 <= t < n && (#[trigger] ds[t]).0.0 as int == x && ds[t].0.1 as int == y
}

/// The record list's `n`-long prefix forces cell `(x, y)` walkable as the
/// threshold cell of an open door.
pub open spec fn listed_open_outer_upto(
    ws: Seq<Wagon>,
    ds: Seq<((usize, usize), (usize, usize))>,
    n: int,
    x: int,
    y: int,
) -> bool {
    exists|t: int|
        0 <= t < n && (#[trigger] ds[t]).1.0 as int == x && ds[t].1.1 as int == y && inside_spec(
            ws,
            ds[t].0.0 as int,
            ds[t].0.1 as int,
        )
}

/// Walkability of the outside grid after the first `n` door records were
/// applied over the negated inside grid.
pub open spec fn out_value(
    ws: Seq<Wagon>,
    ds: Seq<((usize, usize), (usize, usize))>,
    n: int,
    x: int,
    y: int,
) -> bool {
    ||| !inside_spec(ws, x, y)
    ||| listed_inner_upto(ds, n, x, y)
    ||| listed_open_outer_upto(ws, ds, n, x, y)
}

/// Builds the cell-wise negation of a map.
fn negate_grid(g: &Vec<Vec<PathfindingTile>>, w: usize, h: usize) -> (r: Vec<Vec<PathfindingTile>>)
    requires
        g@.len() == w,
        forall|x: int| 0 <= x < w ==> #[trigger] g@[x]@.len() == h,
    ensures
        r@.len() == w,
        forall|x: int| 0 <= x < w ==> #[trigger] r@[x]@.len() == h,
        forall|x: int, y: int|
            0 <= x < w && 0 <= y < h ==> (#[trigger] r@[x]@[y]).walkable == !g@[x]@[y].walkable,
{
    let mut r: Vec<Vec<PathfindingTile>> = Vec::new();
    let mut x: usize = 0;
    while x < w
        invariant
            g@.len() == w,
            forall|a: int| 0 <= a < w ==> #[trigger] g@[a]@.len() == h,
            x <= w,
            r@.len() == x,
            forall|a: int| 0 <= a < x ==> #[trigger] r@[a]@.len() == h,
            forall|a: int, b: int|
                0 <= a < x && 0 <= b < h ==> (#[trigger] r@[a]@[b]).walkable
                    == !g@[a]@[b].walkable,
        decreases w - x,
    {
        let mut row: Vec<PathfindingTile> = Vec::new();
        let mut y: usize = 0;
        while y < h
            invariant
                g@.len() == w,
                forall|a: int| 0 <= a < w ==> #[trigger] g@[a]@.len() == h,
                x < w,
                y <= h,
                row@.len() == y,
                forall|b: int|
                    0 <= b < y ==> (#[trigger] row@[b]).walkable == !g@[x as int]@[b].walkable,
            decreases h - y,
        {
            let cell = {
                let grow = &g[x];
                grow[y]
            };
            row.push(PathfindingTile { walkable: !cell.walkable });
            y = y + 1;
        }
        r.push(row);
        x = x + 1;
    }
    r
}

/// Applies the recorded doors to the outside grid: every door's own cell
/// becomes walkable, and where the inside grid shows the door open, the
/// threshold cell becomes walkable too.
#[verifier::rlimit(100)]
#[verifier::spinoff_prover]
fn apply_doors(
    out: &mut Vec<Vec<PathfindingTile>>,
    ingrid: &Vec<Vec<PathfindingTile>>,
    doors: &Vec<((usize, usize), (usize, usize))>,
    Ghost(ws): Ghost<Seq<Wagon>>,
)
    requires
        wagons_wf(ws),
        total_width(ws) <= 25000,
        max_h(ws) <= 25000,
        ingrid@.len() == total_width(ws) + 4,
        forall|x: int| 0 <= x < ingrid@.len() ==> #[trigger] ingrid@[x]@.len() == max_h(ws) + 4,
        forall|x: int, y: int|
            0 <= x < total_width(ws) + 4 && 0 <= y < max_h(ws) + 4 ==> (#[trigger] ingrid@[x]@[y]).walkable
                == inside_spec(ws, x, y),
        old(out)@.len() == total_width(ws) + 4,
        forall|x: int| 0 <= x < old(out)@.len() ==> #[trigger] old(out)@[x]@.len() == max_h(ws)
            + 4,
        forall|x: int, y: int|
            0 <= x < total_width(ws) + 4 && 0 <= y < max_h(ws) + 4 ==> (#[trigger] old(out)@[x]@[y]).walkable
                == !inside_spec(ws, x, y),
        doors_sound(ws, doors@),
    ensures
        final(out)@.len() == total_width(ws) + 4,
        forall|x: int| 0 <= x < final(out)@.len() ==> #[trigger] final(out)@[x]@.len() == max_h(ws)
            + 4,
        forall|x: int, y: int|
            0 <= x < total_width(ws) + 4 && 0 <= y < max_h(ws) + 4 ==> (#[trigger] final(out)@[x]@[y]).walkable
                == out_value(ws, doors@, doors@.len() as int, x, y),
{
    let ghost ds = doors@;
    let mut t: usize = 0;
    while t < doors.len()
        invariant
            wagons_wf(ws),
            total_width(ws) <= 25000,
            max_h(ws) <= 25000,
            ds == doors@,
            doors_sound(ws, ds),
            ingrid@.len() == total_width(ws) + 4,
            forall|x: int| 0 <= x < ingrid@.len() ==> #[trigger] ingrid@[x]@.len() == max_h(ws)
                + 4,
            forall|x: int, y: int|
                0 <= x < total_width(ws) + 4 && 0 <= y < max_h(ws) + 4 ==> (#[trigger] ingrid@[x]@[y]).walkable
                    == inside_spec(ws, x, y),
            t <= ds.len(),
            out@.len() == total_width(ws) + 4,
            forall|x: int| 0 <= x < out@.len() ==> #[trigger] out@[x]@.len() == max_h(ws) + 4,
            forall|x: int, y: int|
                0 <= x < total_width(ws) + 4 && 0 <= y < max_h(ws) + 4 ==> (#[trigger] out@[x]@[y]).walkable
                    == out_value(ws, ds, t as int, x, y),
        decreases ds.len() - t,
    {
        let rec = doors[t];
        proof {
            reveal(doors_sound);
            assert(door_entry_ok(ws, ds[t as int]));
            let (kk, ii, jj) = choose|kk: int, ii: int, jj: int|
                #[trigger] door_rec_matches(ws, kk, ii, jj, ds[t as int]);
            lemma_door_cell_bounds(ws, kk, ii, jj);
        }
        let ix = rec.0.0;
        let iy = rec.0.1;
        let inner_open = {
            let grow = &ingrid[ix];
            grow[iy].walkable
        };
        let ghost out_pre = out@;
        set_cell(out, ix, iy, PathfindingTile { walkable: true });
        if inner_open {
            let ox = rec.1.0;
            let oy = rec.1.1;
            set_cell(out, ox, oy, PathfindingTile { walkable: true });
        }
        proof {
            assert forall|x: int, y: int|
                0 <= x < total_width(ws) + 4 && 0 <= y < max_h(ws) + 4 implies (
            #[trigger] out@[x]@[y]).walkable == out_value(ws, ds, t as int + 1, x, y) by {
                if x == ix as int && y == iy as int {
                    assert(listed_inner_upto(ds, t as int + 1, x, y));
                } else if inner_open && x == rec.1.0 as int && y == rec.1.1 as int {
                    assert(listed_open_outer_upto(ws, ds, t as int + 1, x, y));
                } else {
                    assert(out@[x]@[y] == out_pre[x]@[y]);
                    if out_value(ws, ds, t as int + 1, x, y) {
                        if listed_inner_upto(ds, t as int + 1, x, y) {
                            let t2 = choose|t2: int|
                                0 <= t2 < t as int + 1 && (#[trigger] ds[t2]).0.0 as int == x
                                    && ds[t2].0.1 as int == y;
                            assert(t2 < t as int);
                            assert(listed_inner_upto(ds, t as int, x, y));
                        } else if listed_open_outer_upto(ws, ds, t as int + 1, x, y) {
                            let t2 = choose|t2: int|
                                0 <= t2 < t as int + 1 && (#[trigger] ds[t2]).1.0 as int == x
                                    && ds[t2].1.1 as int == y && inside_spec(
                                    ws,
                                    ds[t2].0.0 as int,
                                    ds[t2].0.1 as int,
                                );
                            assert(t2 < t as int);
                            assert(listed_open_outer_upto(ws, ds, t as int, x, y));
                        }
                    }
                    if out_value(ws, ds, t as int, x, y) {
                        if listed_inner_upto(ds, t as int, x, y) {
                            let t2 = choose|t2: int|
                                0 <= t2 < t as int && (#[trigger] ds[t2]).0.0 as int == x
                                    && ds[t2].0.1 as int == y;
                            assert(listed_inner_upto(ds, t as int + 1, x, y));
                        } else if listed_open_outer_upto(ws, ds, t as int, x, y) {
                            let t2 = choose|t2: int|
                                0 <= t2 < t as int && (#[trigger] ds[t2]).1.0 as int == x
                                    && ds[t2].1.1 as int == y && inside_spec(
                                    ws,
                                    ds[t2].0.0 as int,
                                    ds[t2].0.1 as int,
                                );
                            assert(listed_open_outer_upto(ws, ds, t as int + 1, x, y));
                        }
                    }
                }
            }
        }
        t = t + 1;
    }
}

/// With a complete and sound record list, the grid the door pass leaves
/// behind is exactly the outside view.
#[verifier::rlimit(100)]
#[verifier::spinoff_prover]
proof fn lemma_outside_char(ws: Seq<Wagon>, ds: Seq<((usize, usize), (usize, usize))>)
    requires
        doors_complete_upto(ws, -1, 0, 0, ds),
        doors_sound(ws, ds),
    ensures
        forall|x: int, y: int|
            #[trigger] out_value(ws, ds, ds.len() as int, x, y) == outside_spec(ws, x, y),
{
    reveal(doors_sound);
    reveal(doors_complete_upto);
    reveal(door_listed);
    reveal(outside_spec);
    reveal(is_door_inner_cell);
    reveal(is_open_door_outer_cell);
    assert forall|x: int, y: int|
        #[trigger] out_value(ws, ds, ds.len() as int, x, y) == outside_spec(ws, x, y) by {
        if listed_inner_upto(ds, ds.len() as int, x, y) {
            let t = choose|t: int|
                0 <= t < ds.len() && (#[trigger] ds[t]).0.0 as int == x && ds[t].0.1 as int == y;
            assert(door_entry_ok(ws, ds[t]));
            let (kk, ii, jj) = choose|kk: int, ii: int, jj: int|
                #[trigger] door_rec_matches(ws, kk, ii, jj, ds[t]);
            assert(is_door_at(ws, kk, ii, jj) && door_inner(ws, kk, ii, jj) == (x, y));
            assert(is_door_inner_cell(ws, (x, y)));
        }
        if listed_open_outer_upto(ws, ds, ds.len() as int, x, y) {
            let t = choose|t: int|
                0 <= t < ds.len() && (#[trigger] ds[t]).1.0 as int == x && ds[t].1.1 as int == y
                    && inside_spec(ws, ds[t].0.0 as int, ds[t].0.1 as int);
            assert(door_entry_ok(ws, ds[t]));
            let (kk, ii, jj) = choose|kk: int, ii: int, jj: int|
                #[trigger] door_rec_matches(ws, kk, ii, jj, ds[t]);
            assert(is_door_at(ws, kk, ii, jj) && door_outer(ws, kk, ii, jj) == (x, y)
                && inside_spec(ws, door_inner(ws, kk, ii, jj).0, door_inner(ws, kk, ii, jj).1));
            assert(is_open_door_outer_cell(ws, (x, y)));
        }
        if is_door_inner_cell(ws, (x, y)) {
            let (kk, ii, jj) = choose|kk: int, ii: int, jj: int|
                is_door_at(ws, kk, ii, jj) && #[trigger] door_inner(ws, kk, ii, jj) == (x, y);
            assert(door_before(-1, 0, 0, kk, ii, jj));
            assert(door_listed(ws, kk, ii, jj, ds));
            let t = choose|t: int|
                0 <= t < ds.len() && door_rec_matches(ws, kk, ii, jj, #[trigger] ds[t]);
            assert(listed_inner_upto(ds, ds.len() as int, x, y));
        }
        if is_open_door_outer_cell(ws, (x, y)) {
            let (kk, ii, jj) = choose|kk: int, ii: int, jj: int|
                is_door_at(ws, kk, ii, jj) && #[trigger] door_outer(ws, kk, ii, jj) == (x, y)
                    && inside_spec(ws, door_inner(ws, kk, ii, jj).0, door_inner(ws, kk, ii, jj).1);
            assert(door_before(-1, 0, 0, kk, ii, jj));
            assert(door_listed(ws, kk, ii, jj, ds));
            let t = choose|t: int|
                0 <= t < ds.len() && door_rec_matches(ws, kk, ii, jj, #[trigger] ds[t]);
            assert(listed_open_outer_upto(ws, ds, ds.len() as int, x, y));
        }
    }
}

impl Train {
    /// Recomposes the three walkability grids from the current wagons:
    /// `all` fully walkable, `inside` the wagon interiors (walked back to
    /// front, the overlap column owned by the front wagon), and `outside`
    /// the complement of `inside` except that every door cell is walkable
    /// and an open door also opens its threshold cell.  Also records the
    /// composed area's size in tiles.
    #[verifier::rlimit(100)]
    #[verifier::spinoff_prover]
    pub fn rebuild_pfgrids(&mut self)
        requires
            wagons_wf(old(self).wagons@),
            total_width(old(self).wagons@) <= 25000,
            max_h(old(self).wagons@) <= 25000,
        ensures
            final(self).wagons == old(self).wagons,
            final(self).moving == old(self).moving,
            final(self).current_speed == old(self).current_speed,
            final(self).top_speed == old(self).top_speed,
            final(self).accel == old(self).accel,
            final(self).total_size.0 as int == total_width(old(self).wagons@),
            final(self).total_size.1 as int == max_h(old(self).wagons@),
            final(self).pfgrid_all.padding == (2usize, 2usize, 2usize, 2usize),
            final(self).pfgrid_in.padding == (2usize, 2usize, 2usize, 2usize),
            final(self).pfgrid_out.padding == (2usize, 2usize, 2usize, 2usize),
            final(self).pfgrid_all.grid@.len() == total_width(old(self).wagons@) + 4,
            final(self).pfgrid_in.grid@.len() == total_width(old(self).wagons@) + 4,
            final(self).pfgrid_out.grid@.len() == total_width(old(self).wagons@) + 4,
            forall|x: int|
                0 <= x < total_width(old(self).wagons@) + 4 ==> #[trigger] final(self).pfgrid_all.grid@[x]@.len() == max_h(old(self).wagons@) + 4,
            forall|x: int|
                0 <= x < total_width(old(self).wagons@) + 4 ==> #[trigger] final(self).pfgrid_in.grid@[x]@.len() == max_h(old(self).wagons@) + 4,
            forall|x: int|
                0 <= x < total_width(old(self).wagons@) + 4 ==> #[trigger] final(self).pfgrid_out.grid@[x]@.len() == max_h(old(self).wagons@) + 4,
            forall|x: int, y: int|
                0 <= x < total_width(old(self).wagons@) + 4 && 0 <= y < max_h(old(self).wagons@)
                    + 4 ==> (#[trigger] final(self).pfgrid_all.grid@[x]@[y]).walkable,
            forall|x: int, y: int|
                0 <= x < total_width(old(self).wagons@) + 4 && 0 <= y < max_h(old(self).wagons@)
                    + 4 ==> (#[trigger] final(self).pfgrid_in.grid@[x]@[y]).walkable
                    == inside_spec(old(self).wagons@, x, y),
            forall|x: int, y: int|
                0 <= x < total_width(old(self).wagons@) + 4 && 0 <= y < max_h(old(self).wagons@)
                    + 4 ==> (#[trigger] final(self).pfgrid_out.grid@[x]@[y]).walkable
                    == outside_spec(old(self).wagons@, x, y),
    {
        let ghost ws = self.wagons@;
        let dims = compute_dims(&self.wagons);
        let tw = dims.0;
        let mh = dims.1;
        let w_dim = tw + 4;
        let h_dim = mh + 4;

        self.pfgrid_all = PathfindingGrid {
            grid: fill_grid(w_dim, h_dim, PathfindingTile { walkable: true }),
            padding: (2, 2, 2, 2),
        };

        let mut ingrid = fill_grid(w_dim, h_dim, PathfindingTile { walkable: false });
        let mut doors: Vec<((usize, usize), (usize, usize))> = Vec::new();
        proof {
            reveal(inside_from);
            reveal(owner_from);
            reveal(doors_complete_upto);
            reveal(doors_sound);
            assert(forall|x: int, y: int|
                0 <= x < tw + 4 && 0 <= y < mh + 4 ==> (#[trigger] ingrid@[x]@[y]).walkable
                    == inside_from(ws, ws.len() as int, x, y));
        }
        let mut idx: usize = 0;
        let mut prev: usize = 0;
        while idx < self.wagons.len()
            invariant
                wagons_wf(ws),
                ws == self.wagons@,
                total_width(ws) <= 25000,
                max_h(ws) <= 25000,
                tw as int == total_width(ws),
                mh as int == max_h(ws),
                idx <= ws.len(),
                prev as int == offset_of(ws, ws.len() - idx - 1),
                ingrid@.len() == total_width(ws) + 4,
                forall|x: int|
                    0 <= x < ingrid@.len() ==> #[trigger] ingrid@[x]@.len() == max_h(ws) + 4,
                forall|x: int, y: int|
                    0 <= x < total_width(ws) + 4 && 0 <= y < max_h(ws) + 4 ==> (
                    #[trigger] ingrid@[x]@[y]).walkable == inside_from(
                        ws,
                        ws.len() - idx,
                        x,
                        y,
                    ),
                doors_complete_upto(ws, ws.len() - idx - 1, 0, 0, doors@),
                doors_sound(ws, doors@),
            decreases ws.len() - idx,
        {
            let k = self.wagons.len() - 1 - idx;
            let wag = &self.wagons[k];
            let w_k = {
                let row0 = &wag.tiles[0];
                row0.len()
            };
            proof {
                lemma_width_sum_nonneg(ws, k as int);
                lemma_width_sum_mono(ws, k as int, ws.len() as int);
                assert(width_sum(ws, k as int + 1) == width_sum(ws, k as int) + wagon_w(
                    ws[k as int],
                ) - 1);
            }
            blit_wagon(&mut ingrid, &mut doors, wag, prev, mh, k, Ghost(ws));
            prev = prev + (w_k - 1);
            idx = idx + 1;
        }
        let mut outg = negate_grid(&ingrid, w_dim, h_dim);
        apply_doors(&mut outg, &ingrid, &doors, Ghost(ws));
        proof {
            lemma_outside_char(ws, doors@);
        }
        self.pfgrid_in = PathfindingGrid { grid: ingrid, padding: (2, 2, 2, 2) };
        self.pfgrid_out = PathfindingGrid { grid: outg, padding: (2, 2, 2, 2) };
        self.total_size = (tw as u32, mh as u32);
    }
}

/// Grid composition symmetry: at every cell that is not door-linked (not a
/// door's own cell and not the threshold cell of an open door), the outside
/// view is exactly the complement of the inside view.
pub proof fn lemma_grid_complement(ws: Seq<Wagon>, x: int, y: int)
    requires
        !is_door_inner_cell(ws, (x, y)),
        !is_open_door_outer_cell(ws, (x, y)),
    ensures
        outside_spec(ws, x, y) == !inside_spec(ws, x, y),
{
    reveal(outside_spec);
}

/// At a door-linked cell both views may be walkable at once: a door's own
/// cell is always walkable outside, and an open door's threshold cell is
/// walkable outside as well.
pub proof fn lemma_door_cells_both_walkable(ws: Seq<Wagon>, x: int, y: int)
    ensures
        is_door_inner_cell(ws, (x, y)) ==> outside_spec(ws, x, y),
        is_open_door_outer_cell(ws, (x, y)) ==> outside_spec(ws, x, y),
{
    reveal(outside_spec);
}

/// The two wagon sequences agree in count and in every wagon's tile
/// dimensions.
pub open spec fn same_shape(ws1: Seq<Wagon>, ws2: Seq<Wagon>) -> bool {
    &&& ws1.len() == ws2.len()
    &&& forall|k: int|
        0 <= k < ws1.len() ==> wagon_w(#[trigger] ws2[k]) == wagon_w(ws1[k]) && wagon_h(ws2[k])
            == wagon_h(ws1[k])
}

proof fn lemma_width_sum_eq(ws1: Seq<Wagon>, ws2: Seq<Wagon>, n: int)
    requires
        same_shape(ws1, ws2),
        n <= ws1.len(),
    ensures
        width_sum(ws2, n) == width_sum(ws1, n),
    decreases n,
{
    if n > 0 {
        lemma_width_sum_eq(ws1, ws2, n - 1);
    }
}

proof fn lemma_max_h_pre_eq(ws1: Seq<Wagon>, ws2: Seq<Wagon>, n: int)
    requires
        same_shape(ws1, ws2),
        n <= ws1.len(),
    ensures
        max_h_pre(ws2, n) == max_h_pre(ws1, n),
    decreases n,
{
    if n > 0 {
        lemma_max_h_pre_eq(ws1, ws2, n - 1);
    }
}

/// Same-shaped sequences lay their wagons out identically.
proof fn lemma_geometry_eq(ws1: Seq<Wagon>, ws2: Seq<Wagon>, k: int)
    requires
        same_shape(ws1, ws2),
        0 <= k < ws1.len(),
    ensures
        total_width(ws2) == total_width(ws1),
        max_h(ws2) == max_h(ws1),
        offset_of(ws2, k) == offset_of(ws1, k),
        vtop(ws2, k) == vtop(ws1, k),
        forall|x: int, y: int| covers(ws2, k, x, y) == covers(ws1, k, x, y),
{
    lemma_width_sum_eq(ws1, ws2, ws1.len() as int);
    lemma_width_sum_eq(ws1, ws2, k + 1);
    lemma_max_h_pre_eq(ws1, ws2, ws1.len() as int);
}

/// Same-shaped sequences give every cell the same owning wagon.
proof fn lemma_owner_eq(ws1: Seq<Wagon>, ws2: Seq<Wagon>, k0: int, x: int, y: int)
    requires
        same_shape(ws1, ws2),
    ensures
        owner_from(ws2, k0, x, y) == owner_from(ws1, k0, x, y),
    decreases ws1.len() - k0,
{
    reveal(owner_from);
    if 0 <= k0 && k0 < ws1.len() {
        lemma_geometry_eq(ws1, ws2, k0);
        lemma_owner_eq(ws1, ws2, k0 + 1, x, y);
    }
}

/// A cell's owner covers it.
proof fn lemma_owner_covers(ws: Seq<Wagon>, k0: int, x: int, y: int)
    requires
        k0 >= 0,
    ensures
        owner_from(ws, k0, x, y) == ws.len() || (k0 <= owner_from(ws, k0, x, y) < ws.len()
            && covers(ws, owner_from(ws, k0, x, y), x, y)),
    decreases ws.len() - k0,
{
    reveal(owner_from);
    if 0 <= k0 && k0 < ws.len() {
        if !covers(ws, k0, x, y) {
            lemma_owner_covers(ws, k0 + 1, x, y);
        }
    }
}

/// `ws2` is `ws1` with one door tile's solidity flipped: wagon `k`'s tile
/// `(i, j)` is a door, changes only its `is_solid` flag, and every other
/// tile and wagon is untouched.
pub open spec fn door_toggled(ws1: Seq<Wagon>, ws2: Seq<Wagon>, k: int, i: int, j: int) -> bool {
    &&& is_door_at(ws1, k, i, j)
    &&& ws2.len() == ws1.len()
    &&& forall|k2: int| 0 <= k2 < ws1.len() && k2 != k ==> #[trigger] ws2[k2] == ws1[k2]
    &&& ws2[k].tiles@.len() == ws1[k].tiles@.len()
    &&& forall|i2: int|
        0 <= i2 < ws1[k].tiles@.len() ==> #[trigger] ws2[k].tiles@[i2]@.len()
            == ws1[k].tiles@[i2]@.len()
    &&& forall|i2: int, j2: int|
        0 <= i2 < ws1[k].tiles@.len() && 0 <= j2 < ws1[k].tiles@[i2]@.len() && !(i2 == i && j2
            == j) ==> #[trigger] ws2[k].tiles@[i2]@[j2] == ws1[k].tiles@[i2]@[j2]
    &&& ws2[k].tiles@[i]@[j] == (Tile {
        is_solid: !ws1[k].tiles@[i]@[j].is_solid,
        ..ws1[k].tiles@[i]@[j]
    })
}

/// Door toggling flips exactly the linked cells' walkability.  Toggling one
/// door's solidity (no other door sharing its own cell, its threshold cell
/// being no door's own cell and no other door's threshold) flips the inside
/// view at the door's own cell alone; in the outside view the door's own
/// cell stays walkable in both states, the threshold cell follows the rule
/// "walkable when the complement says so or the door stands open", and
/// every other cell keeps its walkability.
#[verifier::rlimit(100)]
#[verifier::spinoff_prover]
pub proof fn lemma_door_toggle(ws1: Seq<Wagon>, ws2: Seq<Wagon>, k: int, i: int, j: int)
    requires
        wagons_wf(ws1),
        door_toggled(ws1, ws2, k, i, j),
        owner_from(ws1, 0, door_inner(ws1, k, i, j).0, door_inner(ws1, k, i, j).1) == k,
        forall|k2: int, i2: int, j2: int|
            #[trigger] is_door_at(ws1, k2, i2, j2) && !(k2 == k && i2 == i && j2 == j)
                ==> door_inner(ws1, k2, i2, j2) != door_inner(ws1, k, i, j),
        forall|k2: int, i2: int, j2: int|
            #[trigger] is_door_at(ws1, k2, i2, j2) ==> door_inner(ws1, k2, i2, j2) != door_outer(
                ws1,
                k,
                i,
                j,
            ),
        forall|k2: int, i2: int, j2: int|
            #[trigger] is_door_at(ws1, k2, i2, j2) && !(k2 == k && i2 == i && j2 == j)
                ==> door_outer(ws1, k2, i2, j2) != door_outer(ws1, k, i, j),
    ensures
        inside_spec(ws2, door_inner(ws1, k, i, j).0, door_inner(ws1, k, i, j).1) == !inside_spec(
            ws1,
            door_inner(ws1, k, i, j).0,
            door_inner(ws1, k, i, j).1,
        ),
        forall|x: int, y: int|
            !((x, y) == door_inner(ws1, k, i, j)) ==> #[trigger] inside_spec(ws2, x, y)
                == inside_spec(ws1, x, y),
        outside_spec(ws1, door_inner(ws1, k, i, j).0, door_inner(ws1, k, i, j).1),
        outside_spec(ws2, door_inner(ws1, k, i, j).0, door_inner(ws1, k, i, j).1),
        outside_spec(ws1, door_outer(ws1, k, i, j).0, door_outer(ws1, k, i, j).1) == (
        !inside_spec(ws1, door_outer(ws1, k, i, j).0, door_outer(ws1, k, i, j).1) || inside_spec(
            ws1,
            door_inner(ws1, k, i, j).0,
            door_inner(ws1, k, i, j).1,
        )),
        outside_spec(ws2, door_outer(ws1, k, i, j).0, door_outer(ws1, k, i, j).1) == (
        !inside_spec(ws2, door_outer(ws1, k, i, j).0, door_outer(ws1, k, i, j).1) || inside_spec(
            ws2,
            door_inner(ws1, k, i, j).0,
            door_inner(ws1, k, i, j).1,
        )),
        forall|x: int, y: int|
            !((x, y) == door_inner(ws1, k, i, j)) && !((x, y) == door_outer(ws1, k, i, j))
                ==> #[trigger] outside_spec(ws2, x, y) == outside_spec(ws1, x, y),
{
    reveal(owner_from);
    reveal(inside_from);
    reveal(outside_spec);
    reveal(is_door_inner_cell);
    reveal(is_open_door_outer_cell);
    let inner = door_inner(ws1, k, i, j);
    let outer = door_outer(ws1, k, i, j);
    let n = ws1.len() as int;
    assert(same_shape(ws1, ws2)) by {
        assert forall|k2: int|
            0 <= k2 < ws1.len() implies wagon_w(#[trigger] ws2[k2]) == wagon_w(ws1[k2])
            && wagon_h(ws2[k2]) == wagon_h(ws1[k2]) by {
            if k2 == k {
                assert(ws2[k].tiles@[0]@.len() == ws1[k].tiles@[0]@.len());
            }
        }
    }
    lemma_geometry_eq(ws1, ws2, k);

    // doors sit at the same places with the same facings in both sequences
    assert forall|k2: int, i2: int, j2: int| #[trigger]
        is_door_at(ws1, k2, i2, j2) implies is_door_at(ws2, k2, i2, j2) && door_inner(
        ws2,
        k2,
        i2,
        j2,
    ) == door_inner(ws1, k2, i2, j2) && door_outer(ws2, k2, i2, j2) == door_outer(
        ws1,
        k2,
        i2,
        j2,
    ) by {
        lemma_geometry_eq(ws1, ws2, k2);
        if k2 == k {
            if i2 == i && j2 == j {
                assert(ws2[k].tiles@[i2]@[j2].tile_type == ws1[k].tiles@[i2]@[j2].tile_type);
            } else {
                assert(ws2[k].tiles@[i2]@[j2] == ws1[k].tiles@[i2]@[j2]);
            }
        } else {
            assert(ws2[k2] == ws1[k2]);
        }
    }
    assert forall|k2: int, i2: int, j2: int| #[trigger]
        is_door_at(ws2, k2, i2, j2) implies is_door_at(ws1, k2, i2, j2) by {
        if k2 == k {
            if i2 == i && j2 == j {
                assert(ws2[k].tiles@[i2]@[j2].tile_type == ws1[k].tiles@[i2]@[j2].tile_type);
            } else {
                assert(ws2[k].tiles@[i2]@[j2] == ws1[k].tiles@[i2]@[j2]);
            }
        } else {
            assert(ws2[k2] == ws1[k2]);
        }
    }

    // the inside view changes exactly at the door's own cell
    assert forall|x: int, y: int|
        !((x, y) == inner) implies #[trigger] inside_spec(ws2, x, y) == inside_spec(
        ws1,
        x,
        y,
    ) by {
        lemma_owner_eq(ws1, ws2, 0, x, y);
        lemma_owner_covers(ws1, 0, x, y);
        let o = owner_from(ws1, 0, x, y);
        if 0 <= o && o < n {
            lemma_geometry_eq(ws1, ws2, o);
            if o == k {
                let r = y - vtop(ws1, k);
                let c = x - 2 - offset_of(ws1, k);
                assert(covers(ws1, k, x, y));
                assert(0 <= r < wagon_h(ws1[k]) && 0 <= c < wagon_w(ws1[k]));
                assert(!(r == i && c == j));
                assert(ws2[k].tiles@[r]@[c] == ws1[k].tiles@[r]@[c]);
                assert(wagon_cell(ws2, o, x, y) == wagon_cell(ws1, o, x, y));
            } else {
                assert(ws2[o] == ws1[o]);
                assert(wagon_cell(ws2, o, x, y) == wagon_cell(ws1, o, x, y));
            }
        }
    }
    assert(inside_spec(ws2, inner.0, inner.1) == !inside_spec(ws1, inner.0, inner.1)) by {
        lemma_owner_eq(ws1, ws2, 0, inner.0, inner.1);
        assert(inner.1 - vtop(ws1, k) == i && inner.0 - 2 - offset_of(ws1, k) == j);
        assert(wagon_cell(ws2, k, inner.0, inner.1) == ws2[k].tiles@[i]@[j]);
    }

    // a door's own cell is walkable outside in both states
    assert(is_door_inner_cell(ws1, inner));
    assert(is_door_inner_cell(ws2, inner)) by {
        assert(is_door_at(ws2, k, i, j) && door_inner(ws2, k, i, j) == inner);
    }

    // the door-cell predicates agree away from this door's threshold
    assert forall|c: (int, int)| #[trigger]
        is_door_inner_cell(ws2, c) == is_door_inner_cell(ws1, c) by {
        if is_door_inner_cell(ws1, c) {
            let (k2, i2, j2) = choose|k2: int, i2: int, j2: int|
                is_door_at(ws1, k2, i2, j2) && #[trigger] door_inner(ws1, k2, i2, j2) == c;
            assert(is_door_at(ws2, k2, i2, j2) && door_inner(ws2, k2, i2, j2) == c);
        }
        if is_door_inner_cell(ws2, c) {
            let (k2, i2, j2) = choose|k2: int, i2: int, j2: int|
                is_door_at(ws2, k2, i2, j2) && #[trigger] door_inner(ws2, k2, i2, j2) == c;
            assert(is_door_at(ws1, k2, i2, j2) && door_inner(ws1, k2, i2, j2) == c);
        }
    }
    assert forall|c: (int, int)|
        !(c == outer) implies #[trigger] is_open_door_outer_cell(ws2, c)
        == is_open_door_outer_cell(ws1, c) by {
        if is_open_door_outer_cell(ws1, c) {
            let (k2, i2, j2) = choose|k2: int, i2: int, j2: int|
                is_door_at(ws1, k2, i2, j2) && #[trigger] door_outer(ws1, k2, i2, j2) == c
                    && inside_spec(ws1, door_inner(ws1, k2, i2, j2).0, door_inner(ws1, k2, i2, j2).1);
            assert(!(k2 == k && i2 == i && j2 == j));
            assert(door_inner(ws1, k2, i2, j2) != inner);
            assert(inside_spec(ws2, door_inner(ws1, k2, i2, j2).0, door_inner(ws1, k2, i2, j2).1));
            assert(is_door_at(ws2, k2, i2, j2) && door_outer(ws2, k2, i2, j2) == c);
        }
        if is_open_door_outer_cell(ws2, c) {
            let (k2, i2, j2) = choose|k2: int, i2: int, j2: int|
                is_door_at(ws2, k2, i2, j2) && #[trigger] door_outer(ws2, k2, i2, j2) == c
                    && inside_spec(ws2, door_inner(ws2, k2, i2, j2).0, door_inner(ws2, k2, i2, j2).1);
            assert(is_door_at(ws1, k2, i2, j2) && door_outer(ws1, k2, i2, j2) == c);
            assert(!(k2 == k && i2 == i && j2 == j));
            assert(door_inner(ws1, k2, i2, j2) != inner);
            assert(inside_spec(ws1, door_inner(ws1, k2, i2, j2).0, door_inner(ws1, k2, i2, j2).1));
        }
    }

    // at the threshold cell the rule reads: complement, or the door is open
    assert(is_open_door_outer_cell(ws1, outer) == inside_spec(ws1, inner.0, inner.1)) by {
        if inside_spec(ws1, inner.0, inner.1) {
            assert(is_door_at(ws1, k, i, j) && door_outer(ws1, k, i, j) == outer);
        }
        if is_open_door_outer_cell(ws1, outer) {
            let (k2, i2, j2) = choose|k2: int, i2: int, j2: int|
                is_door_at(ws1, k2, i2, j2) && #[trigger] door_outer(ws1, k2, i2, j2) == outer
                    && inside_spec(ws1, door_inner(ws1, k2, i2, j2).0, door_inner(ws1, k2, i2, j2).1);
            assert(k2 == k && i2 == i && j2 == j);
        }
    }
    assert(is_open_door_outer_cell(ws2, outer) == inside_spec(ws2, inner.0, inner.1)) by {
        if inside_spec(ws2, inner.0, inner.1) {
            assert(is_door_at(ws2, k, i, j) && door_outer(ws2, k, i, j) == outer);
        }
        if is_open_door_outer_cell(ws2, outer) {
            let (k2, i2, j2) = choose|k2: int, i2: int, j2: int|
                is_door_at(ws2, k2, i2, j2) && #[trigger] door_outer(ws2, k2, i2, j2) == outer
                    && inside_spec(ws2, door_inner(ws2, k2, i2, j2).0, door_inner(ws2, k2, i2, j2).1);
            assert(is_door_at(ws1, k2, i2, j2) && door_outer(ws1, k2, i2, j2) == outer);
            assert(k2 == k && i2 == i && j2 == j);
        }
    }
    // no door's own cell coincides with the threshold cell
    assert(!is_door_inner_cell(ws1, outer)) by {
        if is_door_inner_cell(ws1, outer) {
            let (k2, i2, j2) = choose|k2: int, i2: int, j2: int|
                is_door_at(ws1, k2, i2, j2) && #[trigger] door_inner(ws1, k2, i2, j2) == outer;
        }
    }
}

} // verus!
