//! The actor manager: rectangle selection of actors, and the path request
//! dispatcher.  A movement order snapshots the right grid for each selected
//! actor and queues one tagged request per actor; an embedding program runs
//! the requests on workers in any order and posts each completion back; the
//! per-tick drain applies every completed path to its requester.  Results
//! carry their requester's tag, so completion order never changes which
//! actor receives which result.

use vstd::prelude::*;
use std::collections::VecDeque;
use crate::actor::Actor;
use crate::geometry::{Rect, Vec2};
use crate::grid::{PathfindingGrid, rows_eq};
use crate::mover::Pathfinding;

verus! {

/// One queued unit of path work: the requester's tag, the start position,
/// a snapshot of the grid to search, the train's origin and the clicked
/// destination.
pub struct PathRequest {
    pub requester: usize,
    pub start: Vec2,
    pub grid: PathfindingGrid,
    pub train_pos: Vec2,
    pub destination: Vec2,
}

/// Actors, the current rectangle selection, and the dispatcher's two
/// queues: requests not yet taken by a worker, and completions not yet
/// drained.
pub struct ActorManager {
    pub actors: Vec<Actor>,
    pub selected: Vec<usize>,
    pub selection_rect: Rect,
    pub is_selecting: bool,
    pub pending: Vec<PathRequest>,
    pub completed: Vec<(usize, Option<VecDeque<(i32, i32)>>)>,
}

impl ActorManager {
    /// An empty manager.
    pub fn new() -> (r: ActorManager)
        ensures
            r.actors@.len() == 0,
            r.selected@.len() == 0,
            !r.is_selecting,
            r.pending@.len() == 0,
            r.completed@.len() == 0,
            r.selection_rect == (Rect { left: 0, top: 0, width: 0, height: 0 }),
    {
        ActorManager {
            actors: Vec::new(),
            selected: Vec::new(),
            selection_rect: Rect { left: 0, top: 0, width: 0, height: 0 },
            is_selecting: false,
            pending: Vec::new(),
            completed: Vec::new(),
        }
    }

    /// Begins a rectangle selection at the given world position.
    pub fn start_selection(&mut self, coords: Vec2)
        ensures
            final(self).is_selecting,
            final(self).selection_rect == (Rect {
                left: coords.x,
                top: coords.y,
                width: 0,
                height: 0,
            }),
            final(self).actors == old(self).actors,
            final(self).selected == old(self).selected,
            final(self).pending == old(self).pending,
            final(self).completed == old(self).completed,
    {
        self.is_selecting = true;
        self.selection_rect = Rect { left: coords.x, top: coords.y, width: 0, height: 0 };
    }

    /// Stretches the selection rectangle toward the pointer.
    pub fn update_selection_rect(&mut self, mouse_x: i64, mouse_y: i64)
        requires
            old(self).selection_rect.ok(),
            -4_000_000_000_000 <= mouse_x <= 4_000_000_000_000,
            -4_000_000_000_000 <= mouse_y <= 4_000_000_000_000,
        ensures
            (if old(self).is_selecting {
                final(self).selection_rect == (Rect {
                    width: (mouse_x - old(self).selection_rect.left) as i64,
                    height: (mouse_y - old(self).selection_rect.top) as i64,
                    ..old(self).selection_rect
                })
            } else {
                final(self).selection_rect == old(self).selection_rect
            }),
            final(self).is_selecting == old(self).is_selecting,
            final(self).actors == old(self).actors,
            final(self).selected == old(self).selected,
            final(self).pending == old(self).pending,
            final(self).completed == old(self).completed,
    {
        if self.is_selecting {
            self.selection_rect.width = mouse_x - self.selection_rect.left;
            self.selection_rect.height = mouse_y - self.selection_rect.top;
        }
    }

    /// Ends the selection: the selected list becomes exactly the indices of
    /// the actors whose collision box overlaps the selection rectangle, in
    /// ascending order.
    pub fn apply_selection(&mut self)
        requires
            old(self).selection_rect.ok(),
            forall|i: int|
                0 <= i < old(self).actors@.len() ==> (#[trigger] old(self).actors@[i]).agent_wf(),
        ensures
            final(self).actors == old(self).actors,
            final(self).pending == old(self).pending,
            final(self).completed == old(self).completed,
            (if old(self).is_selecting {
                &&& !final(self).is_selecting
                &&& forall|t1: int, t2: int|
                    0 <= t1 < t2 < final(self).selected@.len() ==> #[trigger] final(self).selected@[t1] < #[trigger] final(self).selected@[t2]
                &&& forall|t: int|
                    0 <= t < final(self).selected@.len() ==> {
                        let i = #[trigger] final(self).selected@[t];
                        (i as int) < old(self).actors@.len()
                            && old(self).actors@[i as int].bounds_spec().spec_intersects(
                            old(self).selection_rect,
                        )
                    }
                &&& forall|i: int|
                    0 <= i < old(self).actors@.len() && (#[trigger] old(self).actors@[i]).bounds_spec().spec_intersects(
                        old(self).selection_rect,
                    ) ==> exists|t: int|
                        0 <= t < final(self).selected@.len() && #[trigger] final(self).selected@[t] as int == i
            } else {
                final(self).selected == old(self).selected && final(self).is_selecting == old(self).is_selecting
            }),
    {
        if self.is_selecting {
            self.is_selecting = false;
            self.selected.clear();
            let mut idx: usize = 0;
            while idx < self.actors.len()
                invariant
                    self.selection_rect.ok(),
                    self.selection_rect == old(self).selection_rect,
                    self.is_selecting == false,
                    self.actors == old(self).actors,
                    self.pending == old(self).pending,
                    self.completed == old(self).completed,
                    forall|i: int|
                        0 <= i < self.actors@.len() ==> (#[trigger] self.actors@[i]).agent_wf(),
                    idx <= self.actors@.len(),
                    forall|t: int|
                        0 <= t < self.selected@.len() ==> {
                            let i = #[trigger] self.selected@[t];
                            (i as int) < self.actors@.len()
                                && self.actors@[i as int].bounds_spec().spec_intersects(
                                self.selection_rect,
                            )
                        },
                    forall|t: int| 0 <= t < self.selected@.len() ==> #[trigger] self.selected@[t] < idx,
                    forall|t1: int, t2: int|
                        0 <= t1 < t2 < self.selected@.len() ==> #[trigger] self.selected@[t1]
                            < #[trigger] self.selected@[t2],
                    forall|i: int|
                        0 <= i < idx && (#[trigger] self.actors@[i]).bounds_spec().spec_intersects(
                            self.selection_rect,
                        ) ==> exists|t: int|
                            0 <= t < self.selected@.len() && #[trigger] self.selected@[t] as int
                                == i,
                decreases self.actors@.len() - idx,
            {
                let hit = {
                    let a = &self.actors[idx];
                    let b = a.get_collision_bounds();
                    b.intersects(&self.selection_rect)
                };
                let ghost sel_pre = self.selected@;
                if hit {
                    self.selected.push(idx);
                }
                proof {
                    if hit {
                        assert(self.selected@[self.selected@.len() - 1] as int == idx as int);
                    }
                    assert forall|i: int|
                        0 <= i < idx as int + 1 && (#[trigger] self.actors@[i]).bounds_spec().spec_intersects(
                            self.selection_rect,
                        ) implies exists|t: int|
                        0 <= t < self.selected@.len() && #[trigger] self.selected@[t] as int
                            == i by {
                        if i < idx as int {
                            let t = choose|t: int|
                                0 <= t < sel_pre.len() && #[trigger] sel_pre[t] as int == i;
                            assert(self.selected@[t] == sel_pre[t]);
                        }
                    }
                }
                idx = idx + 1;
            }
        }
    }

    /// Queues one path request per selected actor: each request carries the
    /// actor's position in the selected list as its tag, the actor's current
    /// position, and a snapshot of the inside grid when the actor is inside
    /// the train, else of the outside grid.
    pub fn launch_movement_orders(
        &mut self,
        pfgrid_in: PathfindingGrid,
        pfgrid_out: PathfindingGrid,
        train_pos: Vec2,
        click_pos: Vec2,
    )
        requires
            forall|t: int|
                0 <= t < old(self).selected@.len() ==> (#[trigger] old(self).selected@[t]) < old(self).actors@.len(),
        ensures
            final(self).actors == old(self).actors,
            final(self).selected == old(self).selected,
            final(self).completed == old(self).completed,
            final(self).is_selecting == old(self).is_selecting,
            final(self).pending@.len() == old(self).pending@.len() + old(self).selected@.len(),
            forall|t: int|
                0 <= t < old(self).pending@.len() ==> #[trigger] final(self).pending@[t] == old(self).pending@[t],
            forall|t: int|
                0 <= t < old(self).selected@.len() ==> {
                    let r = #[trigger] final(self).pending@[old(self).pending@.len() + t];
                    let a = old(self).actors@[old(self).selected@[t] as int];
                    &&& r.requester == t
                    &&& r.start == a.position
                    &&& r.train_pos == train_pos
                    &&& r.destination == click_pos
                    &&& rows_eq(
                        r.grid.grid@,
                        if a.inside_wagon {
                            pfgrid_in.grid@
                        } else {
                            pfgrid_out.grid@
                        },
                    )
                    &&& r.grid.padding == (if a.inside_wagon {
                        pfgrid_in.padding
                    } else {
                        pfgrid_out.padding
                    })
                },
    {
        let ghost pending0 = self.pending@;
        let mut idx: usize = 0;
        while idx < self.selected.len()
            invariant
                self.actors == old(self).actors,
                self.selected == old(self).selected,
                self.completed == old(self).completed,
                self.is_selecting == old(self).is_selecting,
                self.selection_rect == old(self).selection_rect,
                forall|t: int|
                    0 <= t < self.selected@.len() ==> (#[trigger] self.selected@[t])
                        < self.actors@.len(),
                idx <= self.selected@.len(),
                self.pending@.len() == pending0.len() + idx,
                forall|t: int|
                    0 <= t < pending0.len() ==> #[trigger] self.pending@[t] == pending0[t],
                forall|t: int|
                    0 <= t < idx ==> {
                        let r = #[trigger] self.pending@[pending0.len() + t];
                        let a = self.actors@[self.selected@[t] as int];
                        &&& r.requester == t
                        &&& r.start == a.position
                        &&& r.train_pos == train_pos
                        &&& r.destination == click_pos
                        &&& rows_eq(
                            r.grid.grid@,
                            if a.inside_wagon {
                                pfgrid_in.grid@
                            } else {
                                pfgrid_out.grid@
                            },
                        )
                        &&& r.grid.padding == (if a.inside_wagon {
                            pfgrid_in.padding
                        } else {
                            pfgrid_out.padding
                        })
                    },
            decreases self.selected@.len() - idx,
        {
            let sa = self.selected[idx];
            let inside = {
                let a = &self.actors[sa];
                a.inside_wagon
            };
            let pfgrid_to_use = if inside {
                pfgrid_in.clone()
            } else {
                pfgrid_out.clone()
            };
            let start = {
                let a = &self.actors[sa];
                a.position
            };
            self.pending.push(
                PathRequest {
                    requester: idx,
                    start,
                    grid: pfgrid_to_use,
                    train_pos,
                    destination: click_pos,
                },
            );
            idx = idx + 1;
        }
    }

    /// Hands the queued requests to the embedding program's workers.
    pub fn take_requests(&mut self) -> (r: Vec<PathRequest>)
        ensures
            r == old(self).pending,
            final(self).pending@.len() == 0,
            final(self).actors == old(self).actors,
            final(self).selected == old(self).selected,
            final(self).completed == old(self).completed,
    {
        let mut out: Vec<PathRequest> = Vec::new();
        std::mem::swap(&mut out, &mut self.pending);
        out
    }

    /// A worker posts one finished request's tag and outcome.
    pub fn post_result(&mut self, requester: usize, result: Option<VecDeque<(i32, i32)>>)
        ensures
            final(self).completed@ == old(self).completed@.push((requester, result)),
            final(self).actors == old(self).actors,
            final(self).selected == old(self).selected,
            final(self).pending == old(self).pending,
    {
        self.completed.push((requester, result));
    }

    /// The completion applies to some still-selected actor and carries a
    /// found path.
    pub open spec fn entry_applies(
        sel: Seq<usize>,
        nacts: int,
        e: (usize, Option<VecDeque<(i32, i32)>>),
    ) -> bool {
        e.1 is Some && (e.0 as int) < sel.len() && (sel[e.0 as int] as int) < nacts
    }

    /// `steps` is the waypoint queue `set_path` builds from `path`: the
    /// tile centers of every cell but the first, against the train origin
    /// with two tiles of padding.
    pub open spec fn steps_match(path: Seq<(i32, i32)>, origin: Vec2, steps: Seq<Vec2>) -> bool {
        &&& steps.len() == (if path.len() >= 1 {
            path.len() - 1
        } else {
            0int
        })
        &&& forall|u: int|
            0 <= u < steps.len() ==> #[trigger] steps[u] == (Vec2 {
                x: crate::coords::cell_center(path[u + 1].0 as int, origin.x as int, 2) as i64,
                y: crate::coords::cell_center(path[u + 1].1 as int, origin.y as int, 2) as i64,
            })
    }

    /// Drains every posted completion: a found path is handed to its
    /// requester as waypoints; a missing path, or a tag that no longer
    /// names a selected actor, leaves every waypoint queue untouched.
    pub fn update_threads(&mut self, train_origin: Vec2)
        requires
            train_origin.ok(),
            forall|t: int, u: int|
                0 <= t < old(self).completed@.len() && (#[trigger] old(self).completed@[t]).1
                    is Some && 0 <= u < old(self).completed@[t].1->Some_0@.len() ==> -100_000 <= (
                #[trigger] old(self).completed@[t].1->Some_0@[u]).0 <= 100_000 && -100_000 <= old(self).completed@[t].1->Some_0@[u].1 <= 100_000,
        ensures
            final(self).completed@.len() == 0,
            final(self).actors@.len() == old(self).actors@.len(),
            final(self).selected == old(self).selected,
            final(self).pending == old(self).pending,
            forall|i: int|
                0 <= i < old(self).actors@.len() ==> (#[trigger] final(self).actors@[i]).position
                    == old(self).actors@[i].position && final(self).actors@[i].inside_wagon == old(self).actors@[i].inside_wagon,
            forall|i: int|
                0 <= i < old(self).actors@.len() && (forall|t: int|
                    !(0 <= t < old(self).completed@.len() && Self::entry_applies(
                        old(self).selected@,
                        old(self).actors@.len() as int,
                        #[trigger] old(self).completed@[t],
                    ) && old(self).selected@[old(self).completed@[t].0 as int] as int == i))
                    ==> #[trigger] final(self).actors@[i] == old(self).actors@[i],
            forall|i: int| #![trigger final(self).actors@[i]]
                0 <= i < old(self).actors@.len() && (exists|t: int|
                    0 <= t < old(self).completed@.len() && Self::entry_applies(
                        old(self).selected@,
                        old(self).actors@.len() as int,
                        #[trigger] old(self).completed@[t],
                    ) && old(self).selected@[old(self).completed@[t].0 as int] as int == i)
                    ==> exists|t: int|
                    0 <= t < old(self).completed@.len() && Self::entry_applies(
                        old(self).selected@,
                        old(self).actors@.len() as int,
                        #[trigger] old(self).completed@[t],
                    ) && old(self).selected@[old(self).completed@[t].0 as int] as int == i
                        && Self::steps_match(
                        old(self).completed@[t].1->Some_0@,
                        train_origin,
                        final(self).actors@[i].move_seq@,
                    ),
    {
        let mut work: Vec<(usize, Option<VecDeque<(i32, i32)>>)> = Vec::new();
        std::mem::swap(&mut work, &mut self.completed);
        let ghost ds = old(self).completed@;
        let ghost nacts = old(self).actors@.len() as int;
        let ghost sel = old(self).selected@;
        while work.len() > 0
            invariant
                train_origin.ok(),
                forall|t2: int, u: int|
                    0 <= t2 < ds.len() && (#[trigger] ds[t2]).1 is Some && 0 <= u
                        < ds[t2].1->Some_0@.len() ==> -100_000 <= (
                    #[trigger] ds[t2].1->Some_0@[u]).0 <= 100_000 && -100_000 <= ds[t2].1->Some_0@[u].1
                        <= 100_000,
                work@ == ds.subrange(0, work@.len() as int),
                work@.len() <= ds.len(),
                self.completed@.len() == 0,
                self.selected == old(self).selected,
                self.pending == old(self).pending,
                self.actors@.len() == old(self).actors@.len(),
                sel == old(self).selected@,
                nacts == old(self).actors@.len() as int,
                forall|i: int|
                    0 <= i < nacts ==> (#[trigger] self.actors@[i]).position == old(self).actors@[i].position && self.actors@[i].inside_wagon == old(self).actors@[i].inside_wagon,
                forall|i: int|
                    0 <= i < nacts && (forall|t: int|
                        !(work@.len() <= t < ds.len() && Self::entry_applies(
                            sel,
                            nacts,
                            #[trigger] ds[t],
                        ) && sel[ds[t].0 as int] as int == i)) ==> #[trigger] self.actors@[i]
                        == old(self).actors@[i],
                forall|i: int| #![trigger self.actors@[i]]
                    0 <= i < nacts && (exists|t: int|
                        work@.len() <= t < ds.len() && Self::entry_applies(
                            sel,
                            nacts,
                            #[trigger] ds[t],
                        ) && sel[ds[t].0 as int] as int == i) ==> exists|t: int|
                        work@.len() <= t < ds.len() && Self::entry_applies(
                            sel,
                            nacts,
                            #[trigger] ds[t],
                        ) && sel[ds[t].0 as int] as int == i && Self::steps_match(
                            ds[t].1->Some_0@,
                            train_origin,
                            self.actors@[i].move_seq@,
                        ),
            decreases work@.len(),
        {
            let ghost m = work@.len() as int;
            let entry = work.pop();
            proof {
                assert(ds.subrange(0, m).drop_last() =~= ds.subrange(0, m - 1));
            }
            if let Some(pair) = entry {
                let recv = pair.0;
                proof {
                    assert(pair == ds[m - 1]);
                }
                if let Some(mut path) = pair.1 {
                    if recv < self.selected.len() {
                        let ai = self.selected[recv];
                        if ai < self.actors.len() {
                            let a = &mut self.actors[ai];
                            a.set_path(&mut path, train_origin);
                            proof {
                                assert(Self::entry_applies(sel, nacts, ds[m - 1]));
                                assert(Self::steps_match(
                                    ds[m - 1].1->Some_0@,
                                    train_origin,
                                    self.actors@[ai as int].move_seq@,
                                ));
                            }
                        }
                    }
                }
            }
        }
    }
}

/// Dispatch content is independent of completion order: when one stream of
/// completions is a reordering of another, every requester finds exactly
/// the same tagged outcomes in both.
pub proof fn lemma_dispatch_content(
    a: Seq<(usize, Option<VecDeque<(i32, i32)>>)>,
    b: Seq<(usize, Option<VecDeque<(i32, i32)>>)>,
    p: Seq<int>,
)
    requires
        p.len() == a.len(),
        b.len() == a.len(),
        forall|t: int| 0 <= t < p.len() ==> 0 <= #[trigger] p[t] < a.len(),
        forall|t: int| 0 <= t < b.len() ==> #[trigger] b[t] == a[p[t]],
        forall|i: int| #![trigger a[i]]
            0 <= i < a.len() ==> exists|t: int| 0 <= t < p.len() && #[trigger] p[t] == i,
    ensures
        forall|pr: (usize, Option<VecDeque<(i32, i32)>>)|
            #[trigger] a.contains(pr) <==> b.contains(pr),
{
    assert forall|pr: (usize, Option<VecDeque<(i32, i32)>>)| #[trigger]
        a.contains(pr) <==> b.contains(pr) by {
        if a.contains(pr) {
            let i = choose|i: int| 0 <= i < a.len() && a[i] == pr;
            let t = choose|t: int| 0 <= t < p.len() && #[trigger] p[t] == i;
            assert(b[t] == pr);
        }
        if b.contains(pr) {
            let t = choose|t: int| 0 <= t < b.len() && b[t] == pr;
            assert(a[p[t]] == pr);
        }
    }
}

} // verus!
