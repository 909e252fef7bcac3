//! The walkability grid: a rectangular 2D boolean map with directional
//! padding, indexed as `grid[x][y]` with `x` running along the train and `y`
//! across it.

use vstd::prelude::*;

verus! {

/// One cell of a walkability grid.
#[derive(Copy, Clone, PartialEq, Eq, Structural, Debug)]
pub struct PathfindingTile {
    pub walkable: bool,
}

/// A rectangular walkability map.  `padding` carries the four margins
/// (top, bottom, left, right) in tile units that the composer reserved
/// around the wagon area.
pub struct PathfindingGrid {
    pub grid: Vec<Vec<PathfindingTile>>,
    pub padding: (usize, usize, usize, usize),
}

/// Every row of the map has the same length as the first.
pub open spec fn grid_rect(g: Seq<Vec<PathfindingTile>>) -> bool {
    forall|i: int| 0 <= i < g.len() ==> #[trigger] g[i]@.len() == g[0]@.len()
}

/// The cell `(x, y)` lies inside the map.
pub open spec fn cell_in_bounds(g: Seq<Vec<PathfindingTile>>, x: int, y: int) -> bool {
    0 <= x < g.len() && 0 <= y < g[0]@.len()
}

/// The walkability of cell `(x, y)`.
pub open spec fn cell_walkable(g: Seq<Vec<PathfindingTile>>, x: int, y: int) -> bool {
    g[x]@[y].walkable
}

/// The two maps hold the same cells.
pub open spec fn rows_eq(a: Seq<Vec<PathfindingTile>>, b: Seq<Vec<PathfindingTile>>) -> bool {
    a.len() == b.len() && forall|i: int| 0 <= i < a.len() ==> #[trigger] a[i]@ == b[i]@
}

impl PathfindingGrid {
    /// The map holds equal-length rows.
    pub open spec fn wf(self) -> bool {
        grid_rect(self.grid@)
    }

    /// Builds an empty grid with no padding.
    pub fn new() -> (r: PathfindingGrid)
        ensures
            r.grid@.len() == 0,
            r.padding == (0usize, 0usize, 0usize, 0usize),
            r.wf(),
    {
        PathfindingGrid { grid: Vec::new(), padding: (0, 0, 0, 0) }
    }
}

impl Clone for PathfindingGrid {
    /// Copies the map cell by cell.
    fn clone(&self) -> (r: Self)
        ensures
            rows_eq(r.grid@, self.grid@),
            r.padding == self.padding,
    {
        let mut rows: Vec<Vec<PathfindingTile>> = Vec::new();
        let mut i: usize = 0;
        while i < self.grid.len()
            invariant
                i <= self.grid@.len(),
                rows@.len() == i,
                forall|k: int| 0 <= k < i ==> #[trigger] rows@[k]@ == self.grid@[k]@,
            decreases self.grid@.len() - i,
        {
            let src_row = &self.grid[i];
            let mut row: Vec<PathfindingTile> = Vec::new();
            let mut j: usize = 0;
            while j < src_row.len()
                invariant
                    j <= src_row@.len(),
                    row@ =~= src_row@.subrange(0, j as int),
                decreases src_row@.len() - j,
            {
                row.push(src_row[j]);
                j = j + 1;
            }
            assert(row@ =~= src_row@);
            rows.push(row);
            i = i + 1;
        }
        PathfindingGrid { grid: rows, padding: self.padding }
    }
}

/// Writes one cell of a rectangular map.
pub(crate) fn set_cell<T>(g: &mut Vec<Vec<T>>, x: usize, y: usize, v: T)
    requires
        x < old(g)@.len(),
        y < old(g)@[x as int]@.len(),
    ensures
        final(g)@.len() == old(g)@.len(),
        final(g)@ == old(g)@.update(x as int, final(g)@[x as int]),
        final(g)@[x as int]@ == old(g)@[x as int]@.update(y as int, v),
        forall|i: int| 0 <= i < old(g)@.len() && i != x ==> final(g)@[i] == old(g)@[i],
{
    let row = &mut g[x];
    row.set(y, v);
}

/// Builds a `w` by `h` map with every cell set to `v`.
pub(crate) fn fill_grid<T: Copy>(w: usize, h: usize, v: T) -> (r: Vec<Vec<T>>)
    ensures
        r@.len() == w,
        forall|i: int| 0 <= i < w ==> #[trigger] r@[i]@.len() == h,
        forall|i: int, j: int| 0 <= i < w && 0 <= j < h ==> #[trigger] r@[i]@[j] == v,
{
    let mut r: Vec<Vec<T>> = Vec::new();
    let mut i: usize = 0;
    while i < w
        invariant
            i <= w,
            r@.len() == i,
            forall|a: int| 0 <= a < i ==> #[trigger] r@[a]@.len() == h,
            forall|a: int, b: int| 0 <= a < i && 0 <= b < h ==> #[trigger] r@[a]@[b] == v,
        decreases w - i,
    {
        let mut row: Vec<T> = Vec::new();
        let mut j: usize = 0;
        while j < h
            invariant
                j <= h,
                row@.len() == j,
                forall|b: int| 0 <= b < j ==> #[trigger] row@[b] == v,
            decreases h - j,
        {
            row.push(v);
            j = j + 1;
        }
        r.push(row);
        i = i + 1;
    }
    r
}

/// Bounded lookup of a single cell's walkability.
pub trait Walkable {
    /// The map the lookup reads, as a sequence of columns.
    spec fn map_view(&self) -> Seq<Vec<PathfindingTile>>;

    /// Returns the walkability of cell `(x, y)`, which must be in bounds.
    fn is_walkable(&self, x: i32, y: i32) -> (r: bool)
        requires
            grid_rect(self.map_view()),
            cell_in_bounds(self.map_view(), x as int, y as int),
        ensures
            r == cell_walkable(self.map_view(), x as int, y as int),
    ;
}

impl Walkable for Vec<Vec<PathfindingTile>> {
    open spec fn map_view(&self) -> Seq<Vec<PathfindingTile>> {
        self@
    }

    fn is_walkable(&self, x: i32, y: i32) -> (r: bool) {
        self[x as usize][y as usize].walkable
    }
}

} // verus!
