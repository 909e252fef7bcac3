//! Shortest-path search over a walkability grid.
//!
//! Movement is orthogonal: of the eight surrounding cells the four diagonal
//! ones are excluded (no corner cutting), every step costs one, and a step
//! may only enter an in-bounds walkable cell.  The solver returns a path of
//! minimal step count, or reports that no path exists.

use vstd::prelude::*;
use std::collections::VecDeque;
use crate::grid::{PathfindingGrid, PathfindingTile, Walkable, cell_in_bounds, cell_walkable, grid_rect, set_cell, fill_grid};
use crate::geometry::Vec2;
use crate::coords::{cell_coord, world_to_cell};

verus! {

/// `b` is one orthogonal step away from `a`.
pub open spec fn step_adj(a: (int, int), b: (int, int)) -> bool {
    ||| (a.0 == b.0 && (b.1 == a.1 + 1 || b.1 == a.1 - 1))
    ||| (a.1 == b.1 && (b.0 == a.0 + 1 || b.0 == a.0 - 1))
}

/// The cell may be stepped into: in bounds and walkable.
pub open spec fn walk_ok(g: Seq<Vec<PathfindingTile>>, c: (int, int)) -> bool {
    cell_in_bounds(g, c.0, c.1) && cell_walkable(g, c.0, c.1)
}

/// Some walk of exactly `n` orthogonal steps leads from `s` to `c`; every
/// stepped-into cell is in bounds and walkable (the starting cell itself is
/// not required to be).
#[verifier::opaque]
pub open spec fn reach(g: Seq<Vec<PathfindingTile>>, s: (int, int), c: (int, int), n: nat) -> bool
    decreases n,
{
    if n == 0 {
        c == s
    } else {
        walk_ok(g, c) && exists|b: (int, int)|
            #[trigger] step_adj(b, c) && reach(g, s, b, (n - 1) as nat)
    }
}

/// `p` is a walk from `s` to `e`: it starts at `s`, ends at `e`, and each
/// successive cell is one orthogonal step away and may be stepped into.
pub open spec fn is_path(
    g: Seq<Vec<PathfindingTile>>,
    p: Seq<(int, int)>,
    s: (int, int),
    e: (int, int),
) -> bool {
    &&& p.len() >= 1
    &&& p[0] == s
    &&& p.last() == e
    &&& forall|i: int|
        1 <= i < p.len() ==> step_adj(p[i - 1], #[trigger] p[i]) && walk_ok(g, p[i])
}

/// The mathematical reading of a sequence of machine-integer cells.
pub open spec fn path_view(s: Seq<(i32, i32)>) -> Seq<(int, int)> {
    s.map_values(|c: (i32, i32)| (c.0 as int, c.1 as int))
}

/// A walk of `n` steps to `b` extends by one step to a walk of `n + 1`
/// steps to `c`.
pub proof fn lemma_reach_extend(
    g: Seq<Vec<PathfindingTile>>,
    s: (int, int),
    b: (int, int),
    c: (int, int),
    n: nat,
)
    requires
        reach(g, s, b, n),
        step_adj(b, c),
        walk_ok(g, c),
    ensures
        reach(g, s, c, (n + 1) as nat),
{
    reveal(reach);
    assert(step_adj(b, c) && reach(g, s, b, ((n + 1) - 1) as nat));
}

/// Every explicit path witnesses reachability in one step fewer than its
/// cell count.
pub proof fn lemma_path_implies_reach(
    g: Seq<Vec<PathfindingTile>>,
    p: Seq<(int, int)>,
    s: (int, int),
    e: (int, int),
)
    requires
        is_path(g, p, s, e),
    ensures
        reach(g, s, e, (p.len() - 1) as nat),
    decreases p.len(),
{
    reveal(reach);
    if p.len() == 1 {
        assert(e == s);
    } else {
        let q = p.drop_last();
        assert(is_path(g, q, s, p[p.len() - 2]));
        lemma_path_implies_reach(g, q, s, p[p.len() - 2]);
        lemma_reach_extend(g, s, p[p.len() - 2], e, (p.len() - 2) as nat);
    }
}

/// Once a search level adds no cell that an earlier level had not already
/// found, no longer walk finds a new cell either: anything reachable at all
/// is reachable in fewer than `k` steps.
pub proof fn lemma_reach_capped(
    g: Seq<Vec<PathfindingTile>>,
    s: (int, int),
    k: nat,
    c: (int, int),
    n: nat,
)
    requires
        forall|c2: (int, int)| #[trigger]
            reach(g, s, c2, k) ==> exists|m: nat| m < k && #[trigger] reach(g, s, c2, m),
        n >= k,
        reach(g, s, c, n),
    ensures
        exists|m: nat| m < k && #[trigger] reach(g, s, c, m),
    decreases n,
{
    reveal(reach);
    if n == k {
    } else {
        assert(exists|b: (int, int)|
            #[trigger] step_adj(b, c) && reach(g, s, b, (n - 1) as nat));
        let b = choose|b: (int, int)|
            #[trigger] step_adj(b, c) && reach(g, s, b, (n - 1) as nat);
        lemma_reach_capped(g, s, k, b, (n - 1) as nat);
        let m = choose|m: nat| m < k && #[trigger] reach(g, s, b, m);
        lemma_reach_extend(g, s, b, c, m);
        if m + 1 < k {
        } else {
            assert(m + 1 == k);
            assert(reach(g, s, c, k));
        }
    }
}

/// How many cells of one row are marked.
#[verifier::opaque]
pub open spec fn row_trues(r: Seq<bool>) -> int
    decreases r.len(),
{
    if r.len() == 0 {
        0
    } else {
        row_trues(r.drop_last()) + if r.last() {
            1int
        } else {
            0int
        }
    }
}

/// How many cells of the whole map are marked.
#[verifier::opaque]
pub open spec fn grid_trues(g: Seq<Vec<bool>>) -> int
    decreases g.len(),
{
    if g.len() == 0 {
        0
    } else {
        grid_trues(g.drop_last()) + row_trues(g.last()@)
    }
}

proof fn lemma_row_trues_bounds(r: Seq<bool>)
    ensures
        0 <= row_trues(r) <= r.len(),
    decreases r.len(),
{
    reveal(row_trues);
    if r.len() > 0 {
        lemma_row_trues_bounds(r.drop_last());
    }
}

proof fn lemma_row_trues_update(r: Seq<bool>, j: int)
    requires
        0 <= j < r.len(),
        !r[j],
    ensures
        row_trues(r.update(j, true)) == row_trues(r) + 1,
    decreases r.len(),
{
    reveal(row_trues);
    let r2 = r.update(j, true);
    if j == r.len() - 1 {
        assert(r2.drop_last() =~= r.drop_last());
    } else {
        assert(r2.drop_last() =~= r.drop_last().update(j, true));
        lemma_row_trues_update(r.drop_last(), j);
    }
}

proof fn lemma_grid_trues_update(g: Seq<Vec<bool>>, x: int, r2: Vec<bool>)
    requires
        0 <= x < g.len(),
        exists|j: int|
            0 <= j < g[x]@.len() && !g[x]@[j] && r2@ == #[trigger] g[x]@.update(j, true),
    ensures
        grid_trues(g.update(x, r2)) == grid_trues(g) + 1,
    decreases g.len(),
{
    reveal(grid_trues);
    let j = choose|j: int|
        0 <= j < g[x]@.len() && !g[x]@[j] && r2@ == #[trigger] g[x]@.update(j, true);
    let g2 = g.update(x, r2);
    if x == g.len() - 1 {
        assert(g2.drop_last() =~= g.drop_last());
        lemma_row_trues_update(g[x]@, j);
    } else {
        assert(g2.drop_last() =~= g.drop_last().update(x, r2));
        assert(g.drop_last()[x]@ == g[x]@);
        lemma_grid_trues_update(g.drop_last(), x, r2);
    }
}

proof fn lemma_grid_trues_bound(g: Seq<Vec<bool>>, h: int)
    requires
        forall|i: int| 0 <= i < g.len() ==> #[trigger] g[i]@.len() == h,
    ensures
        0 <= grid_trues(g) <= g.len() * h,
    decreases g.len(),
{
    reveal(grid_trues);
    if g.len() > 0 {
        lemma_grid_trues_bound(g.drop_last(), h);
        lemma_row_trues_bounds(g.last()@);
        assert(g.len() * h == (g.len() - 1) * h + h) by (nonlinear_arith);
    }
}

/// The bookkeeping maps of a running search match the grid's dimensions.
spec fn bfs_dims(
    g: Seq<Vec<PathfindingTile>>,
    visited: Seq<Vec<bool>>,
    dist: Seq<Vec<usize>>,
    parent: Seq<Vec<(usize, usize)>>,
) -> bool {
    &&& visited.len() == g.len()
    &&& dist.len() == g.len()
    &&& parent.len() == g.len()
    &&& forall|i: int| 0 <= i < g.len() ==> #[trigger] visited[i]@.len() == g[0]@.len()
    &&& forall|i: int| 0 <= i < g.len() ==> #[trigger] dist[i]@.len() == g[0]@.len()
    &&& forall|i: int| 0 <= i < g.len() ==> #[trigger] parent[i]@.len() == g[0]@.len()
}

/// What holds of one visited cell: its recorded distance witnesses a walk
/// from the start, and away from the start its parent is a visited neighbor
/// one step closer.
#[verifier::opaque]
spec fn cell_props(
    g: Seq<Vec<PathfindingTile>>,
    s: (int, int),
    visited: Seq<Vec<bool>>,
    dist: Seq<Vec<usize>>,
    parent: Seq<Vec<(usize, usize)>>,
    x: int,
    y: int,
    bound: int,
) -> bool {
    &&& dist[x]@[y] as int <= bound
    &&& reach(g, s, (x, y), dist[x]@[y] as nat)
    &&& ((x, y) == s ==> dist[x]@[y] == 0)
    &&& ((x, y) != s ==> {
        let p = parent[x]@[y];
        &&& walk_ok(g, (x, y))
        &&& (p.0 as int) < g.len()
        &&& (p.1 as int) < g[0]@.len()
        &&& visited[p.0 as int]@[p.1 as int]
        &&& step_adj((p.0 as int, p.1 as int), (x, y))
        &&& dist[p.0 as int]@[p.1 as int] as int + 1 == dist[x]@[y] as int
    })
}

/// The start is visited at distance zero and every visited cell satisfies
/// `cell_props` under the given distance bound.
#[verifier::opaque]
spec fn cell_inv(
    g: Seq<Vec<PathfindingTile>>,
    s: (int, int),
    visited: Seq<Vec<bool>>,
    dist: Seq<Vec<usize>>,
    parent: Seq<Vec<(usize, usize)>>,
    bound: int,
) -> bool {
    &&& cell_in_bounds(g, s.0, s.1)
    &&& visited[s.0]@[s.1]
    &&& dist[s.0]@[s.1] == 0
    &&& forall|x: int, y: int|
        0 <= x < g.len() && 0 <= y < g[0]@.len() && #[trigger] visited[x]@[y] ==> cell_props(
            g,
            s,
            visited,
            dist,
            parent,
            x,
            y,
            bound,
        )
}

/// The worklist names cell `c`.
#[verifier::opaque]
spec fn fr_contains(fr: Seq<(usize, usize)>, c: (int, int)) -> bool {
    exists|i: int|
        0 <= i < fr.len() && (#[trigger] fr[i]).0 as int == c.0 && fr[i].1 as int == c.1
}

/// Every worklist cell is in bounds, visited, and recorded at distance `k`.
#[verifier::opaque]
spec fn frontier_inv(
    g: Seq<Vec<PathfindingTile>>,
    visited: Seq<Vec<bool>>,
    dist: Seq<Vec<usize>>,
    fr: Seq<(usize, usize)>,
    k: int,
) -> bool {
    forall|i: int|
        0 <= i < fr.len() ==> {
            let c = #[trigger] fr[i];
            &&& (c.0 as int) < g.len()
            &&& (c.1 as int) < g[0]@.len()
            &&& visited[c.0 as int]@[c.1 as int]
            &&& dist[c.0 as int]@[c.1 as int] as int == k
        }
}

/// Every cell reachable within `k` steps has been visited.
#[verifier::opaque]
spec fn found_all(
    g: Seq<Vec<PathfindingTile>>,
    s: (int, int),
    visited: Seq<Vec<bool>>,
    k: int,
) -> bool {
    forall|c: (int, int), n: nat|
        n <= k && #[trigger] reach(g, s, c, n) ==> cell_in_bounds(g, c.0, c.1)
            && visited[c.0]@[c.1]
}

/// Every cell reachable in exactly `k` steps is on the worklist or already
/// reachable in fewer steps.
#[verifier::opaque]
spec fn frontier_complete(
    g: Seq<Vec<PathfindingTile>>,
    s: (int, int),
    fr: Seq<(usize, usize)>,
    k: int,
) -> bool {
    forall|c: (int, int)| #[trigger]
        reach(g, s, c, k as nat) ==> fr_contains(fr, c) || exists|m: nat|
            m < k && #[trigger] reach(g, s, c, m)
    }

/// No walk of fewer than `k` steps ends at `e`.
#[verifier::opaque]
spec fn not_found_below(g: Seq<Vec<PathfindingTile>>, s: (int, int), e: (int, int), k: int) -> bool {
    forall|n: nat| n < k ==> !#[trigger] reach(g, s, e, n)
}

/// Every neighbor of `f` that could be stepped into has been visited.
#[verifier::opaque]
spec fn neighbors_done(
    g: Seq<Vec<PathfindingTile>>,
    visited: Seq<Vec<bool>>,
    f: (usize, usize),
) -> bool {
    forall|c: (int, int)|
        step_adj((f.0 as int, f.1 as int), c) && #[trigger] walk_ok(g, c) ==> visited[c.0]@[c.1]
}

/// Considers stepping from worklist cell `(fx, fy)` (at distance `k`) into
/// the in-bounds cell `(cx, cy)`.  A walkable, not yet visited candidate is
/// marked visited at distance `k + 1` with `(fx, fy)` as parent and queued
/// on `next`; otherwise nothing changes.
#[verifier::spinoff_prover]
fn bfs_consider(
    g: &Vec<Vec<PathfindingTile>>,
    visited: &mut Vec<Vec<bool>>,
    dist: &mut Vec<Vec<usize>>,
    parent: &mut Vec<Vec<(usize, usize)>>,
    next: &mut Vec<(usize, usize)>,
    fx: usize,
    fy: usize,
    cx: usize,
    cy: usize,
    k: usize,
    Ghost(s): Ghost<(int, int)>,
)
    requires
        grid_rect(g@),
        bfs_dims(g@, old(visited)@, old(dist)@, old(parent)@),
        cell_inv(g@, s, old(visited)@, old(dist)@, old(parent)@, k as int + 1),
        frontier_inv(g@, old(visited)@, old(dist)@, old(next)@, k as int + 1),
        (cx as int) < g@.len(),
        (cy as int) < g@[0]@.len(),
        (fx as int) < g@.len(),
        (fy as int) < g@[0]@.len(),
        step_adj((fx as int, fy as int), (cx as int, cy as int)),
        old(visited)@[fx as int]@[fy as int],
        old(dist)@[fx as int]@[fy as int] as int == k as int,
        (k as int) + 1 <= usize::MAX,
    ensures
        bfs_dims(g@, final(visited)@, final(dist)@, final(parent)@),
        cell_inv(g@, s, final(visited)@, final(dist)@, final(parent)@, k as int + 1),
        frontier_inv(g@, final(visited)@, final(dist)@, final(next)@, k as int + 1),
        forall|x: int, y: int|
            0 <= x < g@.len() && 0 <= y < g@[0]@.len() && #[trigger] old(visited)@[x]@[y]
                ==> final(visited)@[x]@[y],
        forall|x: int, y: int|
            0 <= x < g@.len() && 0 <= y < g@[0]@.len() && #[trigger] old(visited)@[x]@[y]
                ==> final(dist)@[x]@[y] == old(dist)@[x]@[y],
        walk_ok(g@, (cx as int, cy as int)) ==> final(visited)@[cx as int]@[cy as int],
        forall|x: int, y: int|
            0 <= x < g@.len() && 0 <= y < g@[0]@.len() && #[trigger] final(visited)@[x]@[y]
                && !old(visited)@[x]@[y] ==> fr_contains(final(next)@, (x, y)),
        forall|c: (int, int)| #[trigger]
            fr_contains(old(next)@, c) ==> fr_contains(final(next)@, c),
        grid_trues(final(visited)@) == grid_trues(old(visited)@) + final(next)@.len() - old(
            next,
        )@.len(),
        final(next)@.len() >= old(next)@.len(),
{
    if !g[cx][cy].walkable {
        return ;
    }
    let already = {
        let vrow = &visited[cx];
        vrow[cy]
    };
    if already {
        return ;
    }
    let ghost visited_pre = visited@;
    set_cell(visited, cx, cy, true);
    set_cell(dist, cx, cy, k + 1);
    set_cell(parent, cx, cy, (fx, fy));
    next.push((cx, cy));
    proof {
        reveal(cell_inv);
        reveal(cell_props);
        reveal(frontier_inv);
        reveal(fr_contains);
        let gs = g@;
        let c = (cx as int, cy as int);
        let f = (fx as int, fy as int);
        assert(final(next)@.len() == old(next)@.len() + 1);
        assert(cell_props(gs, s, visited_pre, old(dist)@, old(parent)@, f.0, f.1, k as int + 1));
        assert(reach(gs, s, f, old(dist)@[fx as int]@[fy as int] as nat));
        lemma_reach_extend(gs, s, f, c, k as nat);
        // the start cell was already visited, so the fresh cell is not it
        assert(c != s);
        lemma_grid_trues_update(visited_pre, cx as int, final(visited)@[cx as int]);
        assert forall|x: int, y: int|
            0 <= x < gs.len() && 0 <= y < gs[0]@.len() && #[trigger] final(visited)@[x]@[y]
                implies cell_props(
            gs,
            s,
            final(visited)@,
            final(dist)@,
            final(parent)@,
            x,
            y,
            k as int + 1,
        ) by {
            if x == c.0 && y == c.1 {
            } else {
                assert(visited_pre[x]@[y]);
                assert(cell_props(gs, s, visited_pre, old(dist)@, old(parent)@, x, y, k as int + 1));
                if (x, y) != s {
                    let p = old(parent)@[x]@[y];
                    assert(visited_pre[p.0 as int]@[p.1 as int]);
                }
            }
        }
        assert forall|x: int, y: int|
            0 <= x < gs.len() && 0 <= y < gs[0]@.len() && #[trigger] final(visited)@[x]@[y]
                && !old(visited)@[x]@[y] implies fr_contains(final(next)@, (x, y)) by {
            assert(x == c.0 && y == c.1);
            assert((final(next)@[final(next)@.len() - 1]).0 as int == x);
        }
        assert forall|cc: (int, int)| #[trigger]
            fr_contains(old(next)@, cc) implies fr_contains(final(next)@, cc) by {
            let i = choose|i: int|
                0 <= i < old(next)@.len() && (#[trigger] old(next)@[i]).0 as int == cc.0 && old(
                    next,
                )@[i].1 as int == cc.1;
            assert(final(next)@[i] == old(next)@[i]);
        }
    }
}

/// Expands one worklist cell of distance `k`: every walkable unvisited
/// orthogonal neighbor is marked visited at distance `k + 1` and queued on
/// `next`.
#[verifier::rlimit(100)]
#[verifier::spinoff_prover]
fn expand_cell(
    g: &Vec<Vec<PathfindingTile>>,
    visited: &mut Vec<Vec<bool>>,
    dist: &mut Vec<Vec<usize>>,
    parent: &mut Vec<Vec<(usize, usize)>>,
    next: &mut Vec<(usize, usize)>,
    fx: usize,
    fy: usize,
    k: usize,
    Ghost(s): Ghost<(int, int)>,
)
    requires
        grid_rect(g@),
        bfs_dims(g@, old(visited)@, old(dist)@, old(parent)@),
        cell_inv(g@, s, old(visited)@, old(dist)@, old(parent)@, k as int + 1),
        frontier_inv(g@, old(visited)@, old(dist)@, old(next)@, k as int + 1),
        (fx as int) < g@.len(),
        (fy as int) < g@[0]@.len(),
        old(visited)@[fx as int]@[fy as int],
        old(dist)@[fx as int]@[fy as int] as int == k as int,
        (k as int) + 1 <= usize::MAX,
    ensures
        bfs_dims(g@, final(visited)@, final(dist)@, final(parent)@),
        cell_inv(g@, s, final(visited)@, final(dist)@, final(parent)@, k as int + 1),
        frontier_inv(g@, final(visited)@, final(dist)@, final(next)@, k as int + 1),
        neighbors_done(g@, final(visited)@, (fx, fy)),
        forall|x: int, y: int|
            0 <= x < g@.len() && 0 <= y < g@[0]@.len() && #[trigger] old(visited)@[x]@[y]
                ==> final(visited)@[x]@[y],
        forall|x: int, y: int|
            0 <= x < g@.len() && 0 <= y < g@[0]@.len() && #[trigger] old(visited)@[x]@[y]
                ==> final(dist)@[x]@[y] == old(dist)@[x]@[y],
        forall|x: int, y: int|
            0 <= x < g@.len() && 0 <= y < g@[0]@.len() && #[trigger] final(visited)@[x]@[y]
                && !old(visited)@[x]@[y] ==> fr_contains(final(next)@, (x, y)),
        forall|c: (int, int)| #[trigger]
            fr_contains(old(next)@, c) ==> fr_contains(final(next)@, c),
        grid_trues(final(visited)@) == grid_trues(old(visited)@) + final(next)@.len() - old(
            next,
        )@.len(),
        final(next)@.len() >= old(next)@.len(),
{
    let w = g.len();
    let h = {
        let row0 = &g[0];
        row0.len()
    };
    let ghost v1 = visited@;
    if fx + 1 < w {
        bfs_consider(g, visited, dist, parent, next, fx, fy, fx + 1, fy, k, Ghost(s));
    }
    let ghost v2 = visited@;
    if fx > 0 {
        bfs_consider(g, visited, dist, parent, next, fx, fy, fx - 1, fy, k, Ghost(s));
    }
    let ghost v3 = visited@;
    if fy + 1 < h {
        bfs_consider(g, visited, dist, parent, next, fx, fy, fx, fy + 1, k, Ghost(s));
    }
    let ghost v4 = visited@;
    if fy > 0 {
        bfs_consider(g, visited, dist, parent, next, fx, fy, fx, fy - 1, k, Ghost(s));
    }
    proof {
        reveal(neighbors_done);
        let gs = g@;
        let f0 = fx as int;
        let f1 = fy as int;
        assert forall|c: (int, int)|
            step_adj((f0, f1), c) && #[trigger] walk_ok(gs, c)
            implies final(visited)@[c.0]@[c.1] by {
            if c == (f0 + 1, f1) {
                assert(walk_ok(gs, c) ==> v2[c.0]@[c.1]);
            } else if c == (f0 - 1, f1) {
                assert(walk_ok(gs, c) ==> v3[c.0]@[c.1]);
            } else if c == (f0, f1 + 1) {
                assert(walk_ok(gs, c) ==> v4[c.0]@[c.1]);
            } else {
                assert(c == (f0, f1 - 1));
            }
        }
    }
}

/// A search level is complete: re-establishes the global search facts for
/// level `k + 1` from the state the level's expansion left behind.
#[verifier::rlimit(100)]
#[verifier::spinoff_prover]
proof fn lemma_level_advance(
    gs: Seq<Vec<PathfindingTile>>,
    s: (int, int),
    e: (int, int),
    visited0: Seq<Vec<bool>>,
    dist0: Seq<Vec<usize>>,
    parent0: Seq<Vec<(usize, usize)>>,
    visited: Seq<Vec<bool>>,
    dist: Seq<Vec<usize>>,
    parent: Seq<Vec<(usize, usize)>>,
    fr: Seq<(usize, usize)>,
    next: Seq<(usize, usize)>,
    k: int,
)
    requires
        grid_rect(gs),
        k >= 0,
        bfs_dims(gs, visited, dist, parent),
        cell_inv(gs, s, visited0, dist0, parent0, k),
        cell_inv(gs, s, visited, dist, parent, k + 1),
        frontier_inv(gs, visited, dist, next, k + 1),
        frontier_complete(gs, s, fr, k),
        found_all(gs, s, visited, k),
        not_found_below(gs, s, e, k),
        forall|i: int|
            0 <= i < fr.len() ==> !((#[trigger] fr[i]).0 as int == e.0 && fr[i].1 as int == e.1),
        forall|i: int| 0 <= i < fr.len() ==> neighbors_done(gs, visited, #[trigger] fr[i]),
        forall|x: int, y: int|
            0 <= x < gs.len() && 0 <= y < gs[0]@.len() && #[trigger] visited0[x]@[y]
                ==> visited[x]@[y] && dist[x]@[y] == dist0[x]@[y],
        forall|x: int, y: int|
            0 <= x < gs.len() && 0 <= y < gs[0]@.len() && #[trigger] visited[x]@[y]
                && !visited0[x]@[y] ==> fr_contains(next, (x, y)),
    ensures
        frontier_complete(gs, s, next, k + 1),
        found_all(gs, s, visited, k + 1),
        not_found_below(gs, s, e, k + 1),
{
    reveal(cell_inv);
    reveal(cell_props);
    reveal(frontier_inv);
    reveal(fr_contains);
    reveal(found_all);
    reveal(frontier_complete);
    reveal(not_found_below);
    reveal(neighbors_done);
    assert forall|c: (int, int)| #[trigger]
        reach(gs, s, c, (k + 1) as nat) implies fr_contains(next, c) || (exists|m: nat|
        m < k + 1 && #[trigger] reach(gs, s, c, m)) by {
        reveal(reach);
        assert(exists|b: (int, int)| #[trigger] step_adj(b, c) && reach(gs, s, b, k as nat));
        let b = choose|b: (int, int)| #[trigger] step_adj(b, c) && reach(gs, s, b, k as nat);
        if fr_contains(fr, b) {
            let i = choose|i: int|
                0 <= i < fr.len() && (#[trigger] fr[i]).0 as int == b.0 && fr[i].1 as int == b.1;
            assert(neighbors_done(gs, visited, fr[i]));
            assert(visited[c.0]@[c.1]);
            if visited0[c.0]@[c.1] {
                assert(cell_props(gs, s, visited0, dist0, parent0, c.0, c.1, k));
                assert(reach(gs, s, c, dist0[c.0]@[c.1] as nat));
                assert(dist0[c.0]@[c.1] as int <= k < k + 1);
            } else {
                assert(fr_contains(next, c));
            }
        } else {
            let m = choose|m: nat| m < k && #[trigger] reach(gs, s, b, m);
            lemma_reach_extend(gs, s, b, c, m);
        }
    }
    assert forall|c: (int, int), n: nat|
        n <= k + 1 && #[trigger] reach(gs, s, c, n) implies cell_in_bounds(gs, c.0, c.1)
        && visited[c.0]@[c.1] by {
        reveal(reach);
        if n == k + 1 {
            assert(reach(gs, s, c, (k + 1) as nat));
            if fr_contains(next, c) {
                let i = choose|i: int|
                    0 <= i < next.len() && (#[trigger] next[i]).0 as int == c.0 && next[i].1 as int
                        == c.1;
                assert(visited[c.0]@[c.1]);
                assert(walk_ok(gs, c));
            } else {
                let m = choose|m: nat| m < k + 1 && #[trigger] reach(gs, s, c, m);
            }
        }
    }
    assert(!reach(gs, s, e, k as nat)) by {
        if reach(gs, s, e, k as nat) {
            assert(!fr_contains(fr, e));
            assert(exists|m: nat| m < k && #[trigger] reach(gs, s, e, m));
            let m = choose|m: nat| m < k && #[trigger] reach(gs, s, e, m);
            assert(!reach(gs, s, e, m));
        }
    }
    assert forall|n: nat| n < k + 1 implies !#[trigger] reach(gs, s, e, n) by {
        if n == k {
            assert(!reach(gs, s, e, k as nat));
        }
    }
}

/// Walks the parent links back from the goal cell (recorded at distance
/// `k`) and returns the cells start-first.
#[verifier::loop_isolation(false)]
#[verifier::rlimit(100)]
#[verifier::spinoff_prover]
fn rebuild_path(
    visited: &Vec<Vec<bool>>,
    dist: &Vec<Vec<usize>>,
    parent: &Vec<Vec<(usize, usize)>>,
    sx: usize,
    sy: usize,
    fx: usize,
    fy: usize,
    k: usize,
    Ghost(gs): Ghost<Seq<Vec<PathfindingTile>>>,
    Ghost(s): Ghost<(int, int)>,
    Ghost(e): Ghost<(int, int)>,
) -> (out: VecDeque<(i32, i32)>)
    requires
        grid_rect(gs),
        gs.len() <= 30000,
        gs[0]@.len() <= 30000,
        bfs_dims(gs, visited@, dist@, parent@),
        cell_inv(gs, s, visited@, dist@, parent@, k as int + 1),
        s == (sx as int, sy as int),
        e == (fx as int, fy as int),
        (fx as int) < gs.len(),
        (fy as int) < gs[0]@.len(),
        visited@[fx as int]@[fy as int],
        dist@[fx as int]@[fy as int] as int == k as int,
    ensures
        is_path(gs, path_view(out@), s, e),
        out@.len() == k as int + 1,
{
    proof {
        reveal(cell_inv);
        reveal(cell_props);
    }
    let mut out: VecDeque<(i32, i32)> = VecDeque::new();
    out.push_front((fx as i32, fy as i32));
    let mut cx = fx;
    let mut cy = fy;
    proof {
        assert(path_view(out@) =~= seq![(fx as int, fy as int)]);
    }
    while !(cx == sx && cy == sy)
        invariant
            (cx as int) < gs.len(),
            (cy as int) < gs[0]@.len(),
            visited@[cx as int]@[cy as int],
            out@.len() >= 1,
            out@.len() == k as int + 1 - dist@[cx as int]@[cy as int] as int,
            is_path(gs, path_view(out@), (cx as int, cy as int), e),
        decreases dist@[cx as int]@[cy as int] as int,
    {
        proof {
            assert(cell_props(gs, s, visited@, dist@, parent@, cx as int, cy as int, k as int + 1));
        }
        let pc = {
            let prow = &parent[cx];
            prow[cy]
        };
        let ghost old_out = out@;
        out.push_front((pc.0 as i32, pc.1 as i32));
        proof {
            assert(path_view(out@) =~= seq![(pc.0 as int, pc.1 as int)] + path_view(old_out));
        }
        cx = pc.0;
        cy = pc.1;
    }
    proof {
        assert(dist@[cx as int]@[cy as int] == 0);
    }
    out
}

/// Reads one worklist entry's guarantees out of `frontier_inv`.
proof fn lemma_frontier_at(
    gs: Seq<Vec<PathfindingTile>>,
    visited: Seq<Vec<bool>>,
    dist: Seq<Vec<usize>>,
    fr: Seq<(usize, usize)>,
    k: int,
    i: int,
)
    requires
        frontier_inv(gs, visited, dist, fr, k),
        0 <= i < fr.len(),
    ensures
        (fr[i].0 as int) < gs.len(),
        (fr[i].1 as int) < gs[0]@.len(),
        visited[fr[i].0 as int]@[fr[i].1 as int],
        dist[fr[i].0 as int]@[fr[i].1 as int] as int == k,
{
    reveal(frontier_inv);
}

/// One worklist cell has been expanded: carries the level's running facts
/// across the state change the expansion made.
#[verifier::rlimit(100)]
#[verifier::spinoff_prover]
proof fn lemma_iter_advance(
    gs: Seq<Vec<PathfindingTile>>,
    s: (int, int),
    visited0: Seq<Vec<bool>>,
    dist0: Seq<Vec<usize>>,
    va: Seq<Vec<bool>>,
    da: Seq<Vec<usize>>,
    vb: Seq<Vec<bool>>,
    db: Seq<Vec<usize>>,
    na: Seq<(usize, usize)>,
    nb: Seq<(usize, usize)>,
    fr: Seq<(usize, usize)>,
    idx: int,
    k: int,
)
    requires
        0 <= idx < fr.len(),
        frontier_inv(gs, va, da, fr, k),
        found_all(gs, s, va, k),
        forall|i: int| 0 <= i < idx ==> neighbors_done(gs, va, #[trigger] fr[i]),
        neighbors_done(gs, vb, fr[idx]),
        forall|x: int, y: int|
            0 <= x < gs.len() && 0 <= y < gs[0]@.len() && #[trigger] visited0[x]@[y] ==> va[x]@[y]
                && da[x]@[y] == dist0[x]@[y],
        forall|x: int, y: int|
            0 <= x < gs.len() && 0 <= y < gs[0]@.len() && #[trigger] va[x]@[y] && !visited0[x]@[y]
                ==> fr_contains(na, (x, y)),
        forall|x: int, y: int|
            0 <= x < gs.len() && 0 <= y < gs[0]@.len() && #[trigger] va[x]@[y] ==> vb[x]@[y],
        forall|x: int, y: int|
            0 <= x < gs.len() && 0 <= y < gs[0]@.len() && #[trigger] va[x]@[y] ==> db[x]@[y]
                == da[x]@[y],
        forall|x: int, y: int|
            0 <= x < gs.len() && 0 <= y < gs[0]@.len() && #[trigger] vb[x]@[y] && !va[x]@[y]
                ==> fr_contains(nb, (x, y)),
        forall|c: (int, int)| #[trigger] fr_contains(na, c) ==> fr_contains(nb, c),
    ensures
        frontier_inv(gs, vb, db, fr, k),
        found_all(gs, s, vb, k),
        forall|i: int| 0 <= i < idx + 1 ==> neighbors_done(gs, vb, #[trigger] fr[i]),
        forall|x: int, y: int|
            0 <= x < gs.len() && 0 <= y < gs[0]@.len() && #[trigger] visited0[x]@[y] ==> vb[x]@[y]
                && db[x]@[y] == dist0[x]@[y],
        forall|x: int, y: int|
            0 <= x < gs.len() && 0 <= y < gs[0]@.len() && #[trigger] vb[x]@[y] && !visited0[x]@[y]
                ==> fr_contains(nb, (x, y)),
{
    reveal(frontier_inv);
    reveal(found_all);
    reveal(neighbors_done);
    assert forall|i: int| 0 <= i < fr.len() implies {
        let c = #[trigger] fr[i];
        &&& (c.0 as int) < gs.len()
        &&& (c.1 as int) < gs[0]@.len()
        &&& vb[c.0 as int]@[c.1 as int]
        &&& db[c.0 as int]@[c.1 as int] as int == k
    } by {
        let c = fr[i];
        assert(va[c.0 as int]@[c.1 as int]);
    }
    assert forall|c: (int, int), n: nat|
        n <= k && #[trigger] reach(gs, s, c, n) implies cell_in_bounds(gs, c.0, c.1)
        && vb[c.0]@[c.1] by {
        assert(va[c.0]@[c.1]);
    }
    assert forall|i: int| 0 <= i < idx + 1 implies neighbors_done(gs, vb, #[trigger] fr[i]) by {
        if i < idx {
            assert(neighbors_done(gs, va, fr[i]));
            assert forall|c: (int, int)|
                step_adj((fr[i].0 as int, fr[i].1 as int), c) && #[trigger] walk_ok(gs, c)
                implies vb[c.0]@[c.1] by {
                assert(va[c.0]@[c.1]);
            }
        }
    }
    assert forall|x: int, y: int|
        0 <= x < gs.len() && 0 <= y < gs[0]@.len() && #[trigger] vb[x]@[y] && !visited0[x]@[y]
        implies fr_contains(nb, (x, y)) by {
        if va[x]@[y] {
            assert(fr_contains(na, (x, y)));
        }
    }
}

/// The goal cell came off the worklist at distance `k`: returns the walk
/// back to the start, which no shorter walk can beat.
#[verifier::rlimit(100)]
#[verifier::spinoff_prover]
fn finish_found(
    visited: &Vec<Vec<bool>>,
    dist: &Vec<Vec<usize>>,
    parent: &Vec<Vec<(usize, usize)>>,
    sx: usize,
    sy: usize,
    fx: usize,
    fy: usize,
    k: usize,
    Ghost(gs): Ghost<Seq<Vec<PathfindingTile>>>,
) -> (out: VecDeque<(i32, i32)>)
    requires
        grid_rect(gs),
        gs.len() <= 30000,
        gs[0]@.len() <= 30000,
        bfs_dims(gs, visited@, dist@, parent@),
        cell_inv(gs, (sx as int, sy as int), visited@, dist@, parent@, k as int + 1),
        not_found_below(gs, (sx as int, sy as int), (fx as int, fy as int), k as int),
        (fx as int) < gs.len(),
        (fy as int) < gs[0]@.len(),
        visited@[fx as int]@[fy as int],
        dist@[fx as int]@[fy as int] as int == k as int,
    ensures
        is_path(gs, path_view(out@), (sx as int, sy as int), (fx as int, fy as int)),
        forall|q: Seq<(int, int)>|
            is_path(gs, q, (sx as int, sy as int), (fx as int, fy as int)) ==> q.len()
                >= out@.len(),
{
    let ghost s = (sx as int, sy as int);
    let ghost e = (fx as int, fy as int);
    let out = rebuild_path(visited, dist, parent, sx, sy, fx, fy, k, Ghost(gs), Ghost(s), Ghost(e));
    proof {
        reveal(not_found_below);
        assert forall|q: Seq<(int, int)>| is_path(gs, q, s, e) implies q.len() >= out@.len() by {
            lemma_path_implies_reach(gs, q, s, e);
            assert(!(q.len() - 1 < k as int));
        }
    }
    out
}

/// Processes one whole search level: expands every worklist cell of
/// distance `k`.  Returns the finished walk if the goal came off the
/// worklist, else the next level's worklist.
#[verifier::rlimit(100)]
#[verifier::spinoff_prover]
fn run_level(
    g: &Vec<Vec<PathfindingTile>>,
    visited: &mut Vec<Vec<bool>>,
    dist: &mut Vec<Vec<usize>>,
    parent: &mut Vec<Vec<(usize, usize)>>,
    frontier: &Vec<(usize, usize)>,
    sx: usize,
    sy: usize,
    end: (i32, i32),
    k: usize,
) -> (r: (Option<VecDeque<(i32, i32)>>, Vec<(usize, usize)>))
    requires
        grid_rect(g@),
        g@.len() <= 30000,
        g@[0]@.len() <= 30000,
        (sx as int) < g@.len(),
        (sy as int) < g@[0]@.len(),
        bfs_dims(g@, old(visited)@, old(dist)@, old(parent)@),
        cell_inv(g@, (sx as int, sy as int), old(visited)@, old(dist)@, old(parent)@, k as int),
        frontier_inv(g@, old(visited)@, old(dist)@, frontier@, k as int),
        found_all(g@, (sx as int, sy as int), old(visited)@, k as int),
        frontier_complete(g@, (sx as int, sy as int), frontier@, k as int),
        not_found_below(g@, (sx as int, sy as int), (end.0 as int, end.1 as int), k as int),
        frontier@.len() > 0,
        k as int <= grid_trues(old(visited)@),
        0 <= grid_trues(old(visited)@) <= g@.len() * g@[0]@.len(),
    ensures
        (match r.0 {
            Some(p) => {
                &&& is_path(
                    g@,
                    path_view(p@),
                    (sx as int, sy as int),
                    (end.0 as int, end.1 as int),
                )
                &&& forall|q: Seq<(int, int)>|
                    is_path(g@, q, (sx as int, sy as int), (end.0 as int, end.1 as int))
                        ==> q.len() >= p@.len()
            },
            None => {
                &&& bfs_dims(g@, final(visited)@, final(dist)@, final(parent)@)
                &&& cell_inv(
                    g@,
                    (sx as int, sy as int),
                    final(visited)@,
                    final(dist)@,
                    final(parent)@,
                    k as int + 1,
                )
                &&& frontier_inv(g@, final(visited)@, final(dist)@, r.1@, k as int + 1)
                &&& found_all(g@, (sx as int, sy as int), final(visited)@, k as int + 1)
                &&& frontier_complete(g@, (sx as int, sy as int), r.1@, k as int + 1)
                &&& not_found_below(
                    g@,
                    (sx as int, sy as int),
                    (end.0 as int, end.1 as int),
                    k as int + 1,
                )
                &&& grid_trues(final(visited)@) == grid_trues(old(visited)@) + r.1@.len()
                &&& 0 <= grid_trues(final(visited)@) <= g@.len() * g@[0]@.len()
            },
        }),
{
    let ghost gs = g@;
    let ghost s = (sx as int, sy as int);
    let ghost e = (end.0 as int, end.1 as int);
    let ghost visited0 = visited@;
    let ghost dist0 = dist@;
    let ghost parent0 = parent@;
    let ghost trues0 = grid_trues(visited@);
    proof {
        reveal(cell_inv);
        reveal(cell_props);
        reveal(frontier_inv);
        assert forall|x: int, y: int|
            0 <= x < gs.len() && 0 <= y < gs[0]@.len() && #[trigger] visited@[x]@[y]
            implies cell_props(gs, s, visited@, dist@, parent@, x, y, k as int + 1) by {
            assert(cell_props(gs, s, visited@, dist@, parent@, x, y, k as int));
        }
        assert(cell_inv(gs, s, visited@, dist@, parent@, k as int + 1));
        assert(frontier_inv(gs, visited@, dist@, Seq::<(usize, usize)>::empty(), k as int + 1));
        assert(gs.len() * gs[0]@.len() <= 900000000) by (nonlinear_arith)
            requires
                gs.len() <= 30000,
                gs[0]@.len() <= 30000,
        ;
    }
    let mut next: Vec<(usize, usize)> = Vec::new();
    proof {
        assert(next@ =~= Seq::<(usize, usize)>::empty());
    }
    let mut idx: usize = 0;
    while idx < frontier.len()
        invariant
            gs == g@,
            s == (sx as int, sy as int),
            e == (end.0 as int, end.1 as int),
            grid_rect(gs),
            gs.len() <= 30000,
            gs[0]@.len() <= 30000,
            (k as int) + 1 <= usize::MAX,
            cell_inv(gs, s, visited0, dist0, parent0, k as int),
            frontier_complete(gs, s, frontier@, k as int),
            not_found_below(gs, s, e, k as int),
            trues0 == grid_trues(visited0),
            idx <= frontier@.len(),
            bfs_dims(gs, visited@, dist@, parent@),
            cell_inv(gs, s, visited@, dist@, parent@, k as int + 1),
            frontier_inv(gs, visited@, dist@, frontier@, k as int),
            frontier_inv(gs, visited@, dist@, next@, k as int + 1),
            found_all(gs, s, visited@, k as int),
            grid_trues(visited@) == trues0 + next@.len(),
            forall|i: int|
                0 <= i < idx ==> !((#[trigger] frontier@[i]).0 as int == e.0 && frontier@[i].1
                    as int == e.1),
            forall|i: int| 0 <= i < idx ==> neighbors_done(gs, visited@, #[trigger] frontier@[i]),
            forall|x: int, y: int|
                0 <= x < gs.len() && 0 <= y < gs[0]@.len() && #[trigger] visited0[x]@[y]
                    ==> visited@[x]@[y] && dist@[x]@[y] == dist0[x]@[y],
            forall|x: int, y: int|
                0 <= x < gs.len() && 0 <= y < gs[0]@.len() && #[trigger] visited@[x]@[y]
                    && !visited0[x]@[y] ==> fr_contains(next@, (x, y)),
        decreases frontier@.len() - idx,
    {
        proof {
            lemma_frontier_at(gs, visited@, dist@, frontier@, k as int, idx as int);
        }
        let fc = frontier[idx];
        let fx = fc.0;
        let fy = fc.1;
        if fx as i32 == end.0 && fy as i32 == end.1 {
            let out = finish_found(visited, dist, parent, sx, sy, fx, fy, k, Ghost(gs));
            return (Some(out), Vec::new());
        }
        let ghost va = visited@;
        let ghost da = dist@;
        let ghost na = next@;
        expand_cell(g, visited, dist, parent, &mut next, fx, fy, k, Ghost(s));
        proof {
            lemma_iter_advance(
                gs,
                s,
                visited0,
                dist0,
                va,
                da,
                visited@,
                dist@,
                na,
                next@,
                frontier@,
                idx as int,
                k as int,
            );
        }
        idx = idx + 1;
    }
    proof {
        lemma_grid_trues_bound(visited@, gs[0]@.len() as int);
        lemma_level_advance(
            gs,
            s,
            e,
            visited0,
            dist0,
            parent0,
            visited@,
            dist@,
            parent@,
            frontier@,
            next@,
            k as int,
        );
    }
    (None, next)
}

/// One search problem: a grid to walk, a start cell and a goal cell.
pub struct GridSearch<'a> {
    pub grid: &'a PathfindingGrid,
    pub start: (i32, i32),
    pub end: (i32, i32),
}

impl<'a> GridSearch<'a> {
    /// The cells the search walks over.
    pub open spec fn map(self) -> Seq<Vec<PathfindingTile>> {
        self.grid.grid@
    }

    /// The start cell as mathematical integers.
    pub open spec fn s_cell(self) -> (int, int) {
        (self.start.0 as int, self.start.1 as int)
    }

    /// The goal cell as mathematical integers.
    pub open spec fn e_cell(self) -> (int, int) {
        (self.end.0 as int, self.end.1 as int)
    }

    /// Packages a search problem.
    pub fn new(grid: &'a PathfindingGrid, start: (i32, i32), end: (i32, i32)) -> (r: Self)
        ensures
            r.grid == grid,
            r.start == start,
            r.end == end,
    {
        GridSearch { grid, start, end }
    }

    /// The cell the search begins at.
    pub fn start(&self) -> (r: (i32, i32))
        ensures
            r == self.start,
    {
        self.start
    }

    /// True when `p` is the goal cell.
    pub fn is_end(&self, p: &(i32, i32)) -> (r: bool)
        ensures
            r == (p.0 == self.end.0 && p.1 == self.end.1),
    {
        p.0 == self.end.0 && p.1 == self.end.1
    }

    /// The Manhattan distance from `p` to the goal.
    pub fn heuristic(&self, p: &(i32, i32)) -> (r: i32)
        requires
            -1000000 <= p.0 <= 1000000,
            -1000000 <= p.1 <= 1000000,
            -1000000 <= self.end.0 <= 1000000,
            -1000000 <= self.end.1 <= 1000000,
        ensures
            r == (if self.end.0 >= p.0 {
                self.end.0 - p.0
            } else {
                p.0 - self.end.0
            }) + (if self.end.1 >= p.1 {
                self.end.1 - p.1
            } else {
                p.1 - self.end.1
            }),
    {
        let dx = if self.end.0 >= p.0 {
            self.end.0 - p.0
        } else {
            p.0 - self.end.0
        };
        let dy = if self.end.1 >= p.1 {
            self.end.1 - p.1
        } else {
            p.1 - self.end.1
        };
        dx + dy
    }

    /// Runs the search.  Returns a minimal-step walk from the start cell to
    /// the goal cell (the start cell is its first element), or `None`
    /// exactly when no walk exists.
    #[verifier::loop_isolation(false)]
    #[verifier::rlimit(100)]
    #[verifier::spinoff_prover]
    pub fn solve(&self) -> (r: Option<VecDeque<(i32, i32)>>)
        requires
            self.grid.wf(),
            cell_in_bounds(self.map(), self.s_cell().0, self.s_cell().1),
            self.map().len() <= 30000,
            self.map()[0]@.len() <= 30000,
        ensures
            (match r {
                Some(p) => {
                    &&& is_path(self.map(), path_view(p@), self.s_cell(), self.e_cell())
                    &&& forall|q: Seq<(int, int)>|
                        is_path(self.map(), q, self.s_cell(), self.e_cell()) ==> q.len()
                            >= p@.len()
                },
                None => forall|q: Seq<(int, int)>|
                    !is_path(self.map(), q, self.s_cell(), self.e_cell()),
            }),
    {
        let ghost gs = self.grid.grid@;
        let ghost s = self.s_cell();
        let ghost e = self.e_cell();
        let g = &self.grid.grid;
        let w = g.len();
        let h = g[0].len();
        let sx = self.start.0 as usize;
        let sy = self.start.1 as usize;

        let mut visited = fill_grid(w, h, false);
        let mut dist = fill_grid(w, h, 0usize);
        let mut parent = fill_grid(w, h, (0usize, 0usize));
        set_cell(&mut visited, sx, sy, true);
        let mut frontier: Vec<(usize, usize)> = Vec::new();
        frontier.push((sx, sy));
        let mut k: usize = 0;

        proof {
            reveal(reach);
            reveal(cell_inv);
            reveal(cell_props);
            reveal(frontier_inv);
            reveal(found_all);
            reveal(frontier_complete);
            reveal(not_found_below);
            reveal(fr_contains);
            assert(reach(gs, s, s, 0));
            lemma_grid_trues_bound(visited@, h as int);
            assert(frontier@[0] == (sx, sy));
            assert forall|c: (int, int), n: nat|
                n <= 0 && #[trigger] reach(gs, s, c, n) implies cell_in_bounds(gs, c.0, c.1)
                && visited@[c.0]@[c.1] by {
                assert(c == s);
            }
            assert forall|c: (int, int)| #[trigger]
                reach(gs, s, c, 0nat) implies fr_contains(frontier@, c) || (exists|m: nat|
                m < 0 && #[trigger] reach(gs, s, c, m)) by {
                assert(c == s);
                assert((frontier@[0]).0 as int == c.0 && frontier@[0].1 as int == c.1);
            }
        }

        loop
            invariant
                bfs_dims(gs, visited@, dist@, parent@),
                cell_inv(gs, s, visited@, dist@, parent@, k as int),
                frontier_inv(gs, visited@, dist@, frontier@, k as int),
                found_all(gs, s, visited@, k as int),
                frontier_complete(gs, s, frontier@, k as int),
                not_found_below(gs, s, e, k as int),
                frontier@.len() > 0 ==> k as int <= grid_trues(visited@),
                0 <= grid_trues(visited@) <= gs.len() * gs[0]@.len(),
            decreases gs.len() * gs[0]@.len() - grid_trues(visited@) + frontier@.len(),
        {
            if frontier.len() == 0 {
                break ;
            }
            let outcome = run_level(
                g,
                &mut visited,
                &mut dist,
                &mut parent,
                &frontier,
                sx,
                sy,
                self.end,
                k,
            );
            let (found, next) = outcome;
            if let Some(p) = found {
                return Some(p);
            }
            proof {
                assert(gs.len() * gs[0]@.len() <= 900000000) by (nonlinear_arith)
                    requires
                        gs.len() <= 30000,
                        gs[0]@.len() <= 30000,
                ;
            }
            frontier = next;
            k = k + 1;
        }
        proof {
            reveal(frontier_complete);
            reveal(fr_contains);
            reveal(not_found_below);
            assert forall|q: Seq<(int, int)>| !is_path(gs, q, s, e) by {
                if is_path(gs, q, s, e) {
                    lemma_path_implies_reach(gs, q, s, e);
                    let n = (q.len() - 1) as nat;
                    if n < k as int {
                    } else {
                        assert forall|c2: (int, int)| #[trigger]
                            reach(gs, s, c2, (k as int) as nat) implies exists|m: nat|
                            m < (k as int) as nat && #[trigger] reach(gs, s, c2, m) by {
                            assert(!fr_contains(frontier@, c2));
                        }
                        lemma_reach_capped(gs, s, (k as int) as nat, e, n);
                    }
                }
            }
        }
        None
    }
}

/// The list holds cell `c`.
pub open spec fn nb_listed(s: Seq<((i32, i32), i32)>, c: (int, int)) -> bool {
    exists|t: int|
        0 <= t < s.len() && (#[trigger] s[t]).0.0 as int == c.0 && s[t].0.1 as int == c.1
}

impl<'a> GridSearch<'a> {
    /// The walkable in-bounds orthogonal neighbors of `p`, each with unit
    /// step cost: of the eight surrounding cells the four diagonal ones are
    /// excluded, so no corner is ever cut.
    pub fn neighbors(&self, p: &(i32, i32)) -> (r: Vec<((i32, i32), i32)>)
        requires
            self.grid.wf(),
            self.map().len() >= 1,
            self.map().len() <= 30000,
            self.map()[0]@.len() <= 30000,
            -1000000 <= p.0 <= 1000000,
            -1000000 <= p.1 <= 1000000,
        ensures
            forall|t: int|
                0 <= t < r@.len() ==> (#[trigger] r@[t]).1 == 1 && step_adj(
                    (p.0 as int, p.1 as int),
                    (r@[t].0.0 as int, r@[t].0.1 as int),
                ) && walk_ok(self.map(), (r@[t].0.0 as int, r@[t].0.1 as int)),
            forall|c: (int, int)|
                step_adj((p.0 as int, p.1 as int), c) && #[trigger] walk_ok(self.map(), c)
                    ==> nb_listed(r@, c),
            forall|t1: int, t2: int|
                0 <= t1 < t2 < r@.len() ==> (#[trigger] r@[t1]).0 != (#[trigger] r@[t2]).0,
    {
        let g = &self.grid.grid;
        let w = g.len() as i32;
        let h = {
            let row0 = &g[0];
            row0.len() as i32
        };
        let mut out: Vec<((i32, i32), i32)> = Vec::new();
        let px = p.0;
        let py = p.1;
        let mut cx: i32 = px - 1;
        while cx <= px + 1
            invariant
                self.grid.wf(),
                g == &self.grid.grid,
                self.map().len() >= 1,
                self.map().len() <= 30000,
                self.map()[0]@.len() <= 30000,
                w as int == self.map().len(),
                h as int == self.map()[0]@.len(),
                -1000000 <= px <= 1000000,
                -1000000 <= py <= 1000000,
                px - 1 <= cx <= px + 2,
                forall|t: int|
                    0 <= t < out@.len() ==> (#[trigger] out@[t]).1 == 1 && step_adj(
                        (px as int, py as int),
                        (out@[t].0.0 as int, out@[t].0.1 as int),
                    ) && walk_ok(self.map(), (out@[t].0.0 as int, out@[t].0.1 as int)),
                forall|c: (int, int)|
                    step_adj((px as int, py as int), c) && #[trigger] walk_ok(self.map(), c)
                        && c.0 < cx as int ==> nb_listed(out@, c),
                forall|t: int|
                    0 <= t < out@.len() ==> ((#[trigger] out@[t]).0.0 as int) < cx as int,
                forall|t1: int, t2: int|
                    0 <= t1 < t2 < out@.len() ==> (#[trigger] out@[t1]).0 != (
                    #[trigger] out@[t2]).0,
            decreases px + 2 - cx,
        {
            let mut cy: i32 = py - 1;
            while cy <= py + 1
                invariant
                    self.grid.wf(),
                    g == &self.grid.grid,
                    self.map().len() >= 1,
                    self.map().len() <= 30000,
                    self.map()[0]@.len() <= 30000,
                    w as int == self.map().len(),
                    h as int == self.map()[0]@.len(),
                    -1000000 <= px <= 1000000,
                    -1000000 <= py <= 1000000,
                    px - 1 <= cx <= px + 1,
                    py - 1 <= cy <= py + 2,
                    forall|t: int|
                        0 <= t < out@.len() ==> (#[trigger] out@[t]).1 == 1 && step_adj(
                            (px as int, py as int),
                            (out@[t].0.0 as int, out@[t].0.1 as int),
                        ) && walk_ok(self.map(), (out@[t].0.0 as int, out@[t].0.1 as int)),
                    forall|c: (int, int)|
                        step_adj((px as int, py as int), c) && #[trigger] walk_ok(self.map(), c)
                            && (c.0 < cx as int || (c.0 == cx as int && c.1 < cy as int))
                            ==> nb_listed(out@, c),
                    forall|t: int|
                        0 <= t < out@.len() ==> ((#[trigger] out@[t]).0.0 as int) < cx as int || ((
                        out@[t]).0.0 as int == cx as int && ((out@[t]).0.1 as int) < cy as int),
                    forall|t1: int, t2: int|
                        0 <= t1 < t2 < out@.len() ==> (#[trigger] out@[t1]).0 != (
                        #[trigger] out@[t2]).0,
                decreases py + 2 - cy,
            {
                let dx = cx - px;
                let dy = cy - py;
                let ghost out_pre = out@;
                if !(dx == 0 && dy == 0) && !(dx == -1 && dy == -1) && !(dx == -1 && dy == 1)
                    && !(dx == 1 && dy == -1) && !(dx == 1 && dy == 1) && cx >= 0 && cy >= 0 && cx
                    < w && cy < h && g.is_walkable(cx, cy) {
                    out.push(((cx, cy), 1));
                }
                proof {
                    assert forall|c: (int, int)|
                        step_adj((px as int, py as int), c) && #[trigger] walk_ok(self.map(), c)
                            && (c.0 < cx as int || (c.0 == cx as int && c.1 < cy as int + 1))
                            implies nb_listed(out@, c) by {
                        if c.0 < cx as int || (c.0 == cx as int && c.1 < cy as int) {
                            let t = choose|t: int|
                                0 <= t < out_pre.len() && (#[trigger] out_pre[t]).0.0 as int == c.0
                                    && out_pre[t].0.1 as int == c.1;
                            assert(out@[t] == out_pre[t]);
                        } else {
                            assert(c == (cx as int, cy as int));
                            assert((out@[out@.len() - 1]).0.0 as int == c.0);
                        }
                    }
                }
                cy = cy + 1;
            }
            cx = cx + 1;
        }
        out
    }
}

/// Translates the start and goal world positions into grid cells and runs
/// the search over a snapshot of the grid.  Returns `None` when the start
/// cell lies outside the grid or no walk reaches the goal cell.
#[verifier::rlimit(100)]
#[verifier::spinoff_prover]
pub fn compute_path(
    start: Vec2,
    grid: PathfindingGrid,
    train_pos: Vec2,
    click_pos: Vec2,
) -> (r: Option<VecDeque<(i32, i32)>>)
    requires
        grid.wf(),
        grid.grid@.len() <= 30000,
        grid.grid@.len() > 0 ==> grid.grid@[0]@.len() <= 30000,
        grid.padding.0 <= 16,
        grid.padding.2 <= 16,
        start.ok(),
        train_pos.ok(),
        click_pos.ok(),
    ensures
        ({
            let s = (
                cell_coord(start.x as int, train_pos.x as int, grid.padding.2 as int),
                cell_coord(start.y as int, train_pos.y as int, grid.padding.0 as int),
            );
            let e = (
                cell_coord(click_pos.x as int, train_pos.x as int, grid.padding.2 as int),
                cell_coord(click_pos.y as int, train_pos.y as int, grid.padding.0 as int),
            );
            match r {
                Some(p) => cell_in_bounds(grid.grid@, s.0, s.1) && is_path(
                    grid.grid@,
                    path_view(p@),
                    s,
                    e,
                ) && forall|q: Seq<(int, int)>|
                    is_path(grid.grid@, q, s, e) ==> q.len() >= p@.len(),
                None => !cell_in_bounds(grid.grid@, s.0, s.1) || forall|q: Seq<(int, int)>|
                    !is_path(grid.grid@, q, s, e),
            }
        }),
{
    let s_cell = world_to_cell(start, train_pos, grid.padding.2, grid.padding.0);
    let e_cell = world_to_cell(click_pos, train_pos, grid.padding.2, grid.padding.0);
    if s_cell.0 < 0 || s_cell.1 < 0 || (s_cell.0 as usize) >= grid.grid.len() {
        return None;
    }
    let h = {
        let row0 = &grid.grid[0];
        row0.len()
    };
    if (s_cell.1 as usize) >= h {
        return None;
    }
    let ts = GridSearch::new(&grid, s_cell, e_cell);
    proof {
        assert(ts.s_cell() == (
            cell_coord(start.x as int, train_pos.x as int, grid.padding.2 as int),
            cell_coord(start.y as int, train_pos.y as int, grid.padding.0 as int),
        ));
        assert(ts.e_cell() == (
            cell_coord(click_pos.x as int, train_pos.x as int, grid.padding.2 as int),
            cell_coord(click_pos.y as int, train_pos.y as int, grid.padding.0 as int),
        ));
    }
    ts.solve()
}

} // verus!
