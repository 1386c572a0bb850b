//! The grid store: a rectangular array of per-cell material values plus
//! grid geometry (rows, columns, cell size).

use vstd::prelude::*;

verus! {

/// Width of the simulated world, in source units (pixels).
pub const WORLD_WIDTH: usize = 1200;

/// Height of the simulated world, in source units (pixels).
pub const WORLD_HEIGHT: usize = 800;

/// Cell value for an empty cell.
pub const EMPTY: i8 = 0;

/// Cell value for a sand particle. (A value of `2` is reserved for a future
/// water material; it has no behavior and is never produced here.)
pub const SAND: i8 = 1;

/// A sequence of rows forms a well-formed `rows x cols` grid: there are
/// exactly `rows` rows and every row holds exactly `cols` cells.
pub open spec fn grid_dims(g: Seq<Seq<i8>>, rows: int, cols: int) -> bool {
    &&& g.len() == rows
    &&& forall|r: int| 0 <= r < rows ==> (#[trigger] g[r]).len() == cols
}

/// A rectangular `rows x cols` grid of cell material values.
///
/// `cell_size` is the pixel edge length of one cell; it is used only by the
/// external rendering layer and plays no part in the automaton logic.
pub struct ParticleGrid {
    grid: Vec<Vec<i8>>,
    cols: usize,
    rows: usize,
    cell_size: usize,
}

impl View for ParticleGrid {
    type V = Seq<Seq<i8>>;

    closed spec fn view(&self) -> Seq<Seq<i8>> {
        self.grid@.map(|_r: int, row: Vec<i8>| row@)
    }
}

impl ParticleGrid {
    /// The stored number of rows.
    pub closed spec fn spec_rows(&self) -> int {
        self.rows as int
    }

    /// The stored number of columns.
    pub closed spec fn spec_cols(&self) -> int {
        self.cols as int
    }

    /// The stored cell size.
    pub closed spec fn spec_cell_size(&self) -> int {
        self.cell_size as int
    }

    /// The stored geometry is machine-representable, hence nonnegative.
    pub proof fn lemma_dims_nonneg(&self)
        ensures
            self.spec_rows() >= 0,
            self.spec_cols() >= 0,
            self.spec_cell_size() >= 0,
    {
    }

    /// The stored geometry describes the stored cells.
    pub open spec fn wf(&self) -> bool {
        grid_dims(self@, self.spec_rows(), self.spec_cols())
    }

    /// Creates a grid whose dimensions are computed from the fixed world
    /// size: `cols = WORLD_WIDTH / cell_size`, `rows = WORLD_HEIGHT /
    /// cell_size` (integer division), with every cell empty.
    pub fn new_grid(cell_size: usize) -> (g: ParticleGrid)
        requires
            cell_size > 0,
        ensures
            g.wf(),
            g.spec_rows() == WORLD_HEIGHT as int / cell_size as int,
            g.spec_cols() == WORLD_WIDTH as int / cell_size as int,
            g.spec_cell_size() == cell_size as int,
            forall|r: int, c: int|
                0 <= r < g.spec_rows() && 0 <= c < g.spec_cols() ==> g@[r][c] == EMPTY,
    {
        let cols = WORLD_WIDTH / cell_size;
        let rows = WORLD_HEIGHT / cell_size;
        ParticleGrid::new_with_dims(rows, cols, cell_size)
    }

    /// Creates a grid with the given dimensions, with every cell empty.
    pub fn new_with_dims(rows: usize, cols: usize, cell_size: usize) -> (g: ParticleGrid)
        ensures
            g.wf(),
            g.spec_rows() == rows as int,
            g.spec_cols() == cols as int,
            g.spec_cell_size() == cell_size as int,
            forall|r: int, c: int|
                0 <= r < g.spec_rows() && 0 <= c < g.spec_cols() ==> g@[r][c] == EMPTY,
    {
        let mut cells: Vec<Vec<i8>> = Vec::new();
        while cells.len() < rows
            invariant
                cells.len() <= rows,
                forall|r: int| 0 <= r < cells.len() ==> (#[trigger] cells@[r])@.len() == cols,
                forall|r: int, c: int|
                    0 <= r < cells.len() && 0 <= c < cols ==> cells@[r]@[c] == EMPTY,
            decreases rows - cells.len(),
        {
            let mut row: Vec<i8> = Vec::new();
            while row.len() < cols
                invariant
                    row.len() <= cols,
                    forall|c: int| 0 <= c < row.len() ==> row@[c] == EMPTY,
                decreases cols - row.len(),
            {
                row.push(EMPTY);
            }
            cells.push(row);
        }
        ParticleGrid { grid: cells, cols, rows, cell_size }
    }

    /// The number of rows.
    pub fn rows(&self) -> (r: usize)
        ensures
            r == self.spec_rows(),
    {
        self.rows
    }

    /// The number of columns.
    pub fn cols(&self) -> (r: usize)
        ensures
            r == self.spec_cols(),
    {
        self.cols
    }

    /// The pixel edge length of one cell.
    pub fn cell_size(&self) -> (r: usize)
        ensures
            r == self.spec_cell_size(),
    {
        self.cell_size
    }

    /// Reads the value of one cell. Callers are responsible for bounds.
    pub fn get(&self, row: usize, col: usize) -> (v: i8)
        requires
            self.wf(),
            row < self.spec_rows(),
            col < self.spec_cols(),
        ensures
            v == self@[row as int][col as int],
    {
        proof {
            assert(self.grid@.len() == self@.len());
            assert(self.grid@[row as int]@ == self@[row as int]);
        }
        self.grid[row][col]
    }

    /// Writes the value of one cell. Callers are responsible for bounds.
    pub fn set(&mut self, row: usize, col: usize, value: i8)
        requires
            old(self).wf(),
            row < old(self).spec_rows(),
            col < old(self).spec_cols(),
        ensures
            final(self).wf(),
            final(self).spec_rows() == old(self).spec_rows(),
            final(self).spec_cols() == old(self).spec_cols(),
            final(self).spec_cell_size() == old(self).spec_cell_size(),
            final(self)@ == old(self)@.update(
                row as int,
                old(self)@[row as int].update(col as int, value),
            ),
    {
        proof {
            assert(self.grid@.len() == self@.len());
            assert(self.grid@[row as int]@ == self@[row as int]);
        }
        self.grid[row][col] = value;
        assert(self@ =~= old(self)@.update(
            row as int,
            old(self)@[row as int].update(col as int, value),
        ));
    }
}

} // verus!
