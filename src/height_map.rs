//! The carved surface of the stock: a grid of heights with a record of the
//! cells written since the renderer last took the changes.
use vstd::prelude::*;

verus! {

/// A rectangle of grid cells: rows `bottom .. bottom + height`, columns
/// `left .. left + width`.
#[derive(Debug, Clone, Copy, PartialEq, Eq, Structural)]
pub struct Region {
    pub left: usize,
    pub bottom: usize,
    pub width: usize,
    pub height: usize,
}

pub open spec fn region_holds(g: Region, cell: (int, int)) -> bool {
    g.bottom <= cell.0 < g.bottom + g.height && g.left <= cell.1 < g.left + g.width
}

/// `r` is the smallest rectangle that holds every cell of `cells` (`None`
/// where there is none).
pub open spec fn bounds_cells(cells: Set<(int, int)>, r: Option<Region>) -> bool {
    match r {
        None => cells == Set::<(int, int)>::empty(),
        Some(g) => {
            &&& g.width > 0
            &&& g.height > 0
            &&& forall|c: (int, int)| cells.contains(c) ==> region_holds(g, c)
            &&& exists|c: (int, int)| cells.contains(c) && c.0 == g.bottom
            &&& exists|c: (int, int)| cells.contains(c) && c.0 == g.bottom + g.height - 1
            &&& exists|c: (int, int)| cells.contains(c) && c.1 == g.left
            &&& exists|c: (int, int)| cells.contains(c) && c.1 == g.left + g.width - 1
        },
    }
}

/// A grid of `rows` by `cols` heights in micrometres.
pub struct HeightMap {
    data: Vec<Vec<i64>>,
    rows: usize,
    cols: usize,
    /// The bounds (first row, last row, first column, last column) of the
    /// cells written since the last `drain_changes`.
    changed: Option<(usize, usize, usize, usize)>,
    changed_cells: Ghost<Set<(int, int)>>,
}

/// What `drain_changes` does: `r` bounds the changes of `before`, and `after`
/// has the same heights and no changes.
pub open spec fn drained(before: HeightMap, after: HeightMap, r: Option<Region>) -> bool {
    &&& after.wf()
    &&& bounds_cells(before.changes(), r)
    &&& after.heights() == before.heights()
    &&& after.num_rows() == before.num_rows()
    &&& after.num_cols() == before.num_cols()
    &&& after.changes() == Set::<(int, int)>::empty()
}

impl HeightMap {
    /// The heights, row by row.
    pub closed spec fn heights(&self) -> Seq<Seq<i64>> {
        self.data@.map_values(|row: Vec<i64>| row@)
    }

    /// The cells written since the last `drain_changes`.
    pub closed spec fn changes(&self) -> Set<(int, int)> {
        self.changed_cells@
    }

    pub closed spec fn num_rows(&self) -> nat {
        self.rows as nat
    }

    pub closed spec fn num_cols(&self) -> nat {
        self.cols as nat
    }

    pub open spec fn in_grid(&self, row: int, col: int) -> bool {
        0 <= row < self.num_rows() && 0 <= col < self.num_cols()
    }

    /// The height of a cell.
    pub open spec fn height_at(&self, row: int, col: int) -> i64 {
        self.heights()[row][col]
    }

    pub closed spec fn wf(&self) -> bool {
        &&& self.data@.len() == self.rows
        &&& forall|i: int| 0 <= i < self.rows ==> (#[trigger] self.data@[i])@.len() == self.cols
        &&& forall|c: (int, int)|
            self.changed_cells@.contains(c) ==> 0 <= c.0 < self.rows && 0 <= c.1 < self.cols
        &&& match self.changed {
            None => self.changed_cells@ == Set::<(int, int)>::empty(),
            Some((r0, r1, c0, c1)) => bounds_cells(
                self.changed_cells@,
                Some(Region { left: c0, bottom: r0, width: (c1 - c0 + 1) as usize, height: (r1 - r0 + 1) as usize }),
            ) && r0 <= r1 < self.rows && c0 <= c1 < self.cols,
        }
    }

    /// The shape of a well-formed map.
    pub proof fn lemma_shape(&self)
        requires
            self.wf(),
        ensures
            self.heights().len() == self.num_rows(),
            forall|i: int| 0 <= i < self.num_rows() ==> (#[trigger] self.heights()[i]).len() == self.num_cols(),
            forall|c: (int, int)| self.changes().contains(c) ==> self.in_grid(c.0, c.1),
    {
    }

    /// A map of `resolution.0` rows by `resolution.2` columns, every cell at
    /// `height`, with no changes recorded.
    pub fn new(resolution: (u32, u32, u32), height: i64) -> (r: Self)
        ensures
            r.wf(),
            r.num_rows() == resolution.0,
            r.num_cols() == resolution.2,
            r.changes() == Set::<(int, int)>::empty(),
            forall|i: int, j: int| r.in_grid(i, j) ==> r.height_at(i, j) == height,
    {
        let rows = resolution.0 as usize;
        let cols = resolution.2 as usize;
        let mut data: Vec<Vec<i64>> = Vec::new();
        let mut i: usize = 0;
        while i < rows
            invariant
                i <= rows,
                data@.len() == i,
                forall|k: int| 0 <= k < i ==> (#[trigger] data@[k])@.len() == cols,
                forall|k: int, j: int| 0 <= k < i && 0 <= j < cols ==> data@[k]@[j] == height,
            decreases rows - i,
        {
            let row: Vec<i64> = vec![height; cols];
            data.push(row);
            i = i + 1;
        }
        HeightMap { data, rows, cols, changed: None, changed_cells: Ghost(Set::empty()) }
    }

    /// The height of cell `index` (row, column).
    pub fn get_height(&self, index: (usize, usize)) -> (r: i64)
        requires
            self.wf(),
            self.in_grid(index.0 as int, index.1 as int),
        ensures
            r == self.height_at(index.0 as int, index.1 as int),
    {
        self.data[index.0][index.1]
    }

    /// Sets cell `index` (row, column) to `height` and records the cell as
    /// changed.
    pub fn write(&mut self, index: (usize, usize), height: i64)
        requires
            old(self).wf(),
            old(self).in_grid(index.0 as int, index.1 as int),
        ensures
            final(self).wf(),
            final(self).num_rows() == old(self).num_rows(),
            final(self).num_cols() == old(self).num_cols(),
            final(self).heights() == old(self).heights().update(
                index.0 as int,
                old(self).heights()[index.0 as int].update(index.1 as int, height),
            ),
            final(self).changes() == old(self).changes().insert((index.0 as int, index.1 as int)),
    {
        let (r, c) = index;
        self.data[r].set(c, height);
        proof {
            assert(self.heights() =~= old(self).heights().update(
                r as int,
                old(self).heights()[r as int].update(c as int, height),
            ));
        }
        let ghost cells = old(self).changed_cells@;
        let ghost cell = (r as int, c as int);
        let ghost new_cells = cells.insert(cell);
        self.changed = match self.changed {
            None => {
                proof {
                    let g = Region { left: c, bottom: r, width: 1, height: 1 };
                    assert(new_cells.contains(cell));
                    assert forall|x: (int, int)| new_cells.contains(x) implies region_holds(g, x) by {
                        assert(x == cell);
                    }
                }
                Some((r, r, c, c))
            },
            Some((r0, r1, c0, c1)) => {
                let n = (
                    if r < r0 { r } else { r0 },
                    if r > r1 { r } else { r1 },
                    if c < c0 { c } else { c0 },
                    if c > c1 { c } else { c1 },
                );
                proof {
                    let g0 = Region { left: c0, bottom: r0, width: (c1 - c0 + 1) as usize, height: (r1 - r0 + 1) as usize };
                    let g = Region { left: n.2, bottom: n.0, width: (n.3 - n.2 + 1) as usize, height: (n.1 - n.0 + 1) as usize };
                    assert forall|x: (int, int)| new_cells.contains(x) implies region_holds(g, x) by {
                        if x != cell {
                            assert(region_holds(g0, x));
                        }
                    }
                    assert(new_cells.contains(cell));
                    let w0 = choose|x: (int, int)| cells.contains(x) && x.0 == g0.bottom;
                    let w1 = choose|x: (int, int)| cells.contains(x) && x.0 == g0.bottom + g0.height - 1;
                    let w2 = choose|x: (int, int)| cells.contains(x) && x.1 == g0.left;
                    let w3 = choose|x: (int, int)| cells.contains(x) && x.1 == g0.left + g0.width - 1;
                    assert(new_cells.contains(w0) && new_cells.contains(w1));
                    assert(new_cells.contains(w2) && new_cells.contains(w3));
                }
                Some(n)
            },
        };
        self.changed_cells = Ghost(new_cells);
    }

    /// Takes the smallest rectangle that holds every cell written since the
    /// last call (`None` where there is none) and forgets those cells.
    pub fn drain_changes(&mut self) -> (r: Option<Region>)
        requires
            old(self).wf(),
        ensures
            drained(*old(self), *final(self), r),
    {
        let r = match self.changed {
            None => None,
            Some((r0, r1, c0, c1)) => Some(
                Region { left: c0, bottom: r0, width: c1 - c0 + 1, height: r1 - r0 + 1 },
            ),
        };
        self.changed = None;
        self.changed_cells = Ghost(Set::empty());
        r
    }

    /// The number of rows.
    pub fn rows(&self) -> (r: usize)
        ensures
            r == self.num_rows(),
    {
        self.rows
    }

    /// The number of columns.
    pub fn cols(&self) -> (r: usize)
        ensures
            r == self.num_cols(),
    {
        self.cols
    }

    /// The heights of the cells of `region`, row by row, for a renderer that
    /// updates only that part of its copy.
    pub fn region_values(&self, region: Region) -> (r: Vec<Vec<i64>>)
        requires
            self.wf(),
            region.bottom + region.height <= self.num_rows(),
            region.left + region.width <= self.num_cols(),
        ensures
            r@.len() == region.height,
            forall|i: int| 0 <= i < region.height ==> (#[trigger] r@[i])@ == self.heights()[region.bottom + i].subrange(
                region.left as int,
                region.left + region.width,
            ),
    {
        let mut out: Vec<Vec<i64>> = Vec::new();
        let mut i: usize = 0;
        while i < region.height
            invariant
                self.wf(),
                region.bottom + region.height <= self.num_rows(),
                region.left + region.width <= self.num_cols(),
                i <= region.height,
                out@.len() == i,
                forall|k: int| 0 <= k < i ==> (#[trigger] out@[k])@ == self.heights()[region.bottom + k].subrange(
                    region.left as int,
                    region.left + region.width,
                ),
            decreases region.height - i,
        {
            let source = &self.data[region.bottom + i];
            let mut row: Vec<i64> = Vec::new();
            let mut j: usize = 0;
            while j < region.width
                invariant
                    self.wf(),
                    region.bottom + region.height <= self.num_rows(),
                    region.left + region.width <= self.num_cols(),
                    i < region.height,
                    *source == self.data@[region.bottom + i],
                    j <= region.width,
                    row@ == source@.subrange(region.left as int, region.left + j),
                decreases region.width - j,
            {
                row.push(source[region.left + j]);
                j = j + 1;
            }
            out.push(row);
            i = i + 1;
        }
        out
    }
}

/// Draining twice in a row with no write between gives nothing the second
/// time and leaves the heights as they were.
pub proof fn lemma_drain_twice(
    h0: HeightMap,
    h1: HeightMap,
    first: Option<Region>,
    h2: HeightMap,
    second: Option<Region>,
)
    requires
        h0.wf(),
        drained(h0, h1, first),
        drained(h1, h2, second),
    ensures
        second is None,
        h2.heights() == h0.heights(),
{
    match second {
        None => {},
        Some(g) => {
            let w = choose|c: (int, int)| h1.changes().contains(c) && c.0 == g.bottom;
        },
    }
}

} // verus!
