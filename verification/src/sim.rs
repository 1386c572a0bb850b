//! The simulation state holder and the per-frame control flow: step the
//! automaton, swap the two grid buffers, and serialize the occupied cells
//! of the new current frame into a transfer object for the renderer.

use vstd::prelude::*;

use crate::grid::EMPTY;
use crate::grid::ParticleGrid;
use crate::grid::SAND;
use crate::grid::WORLD_HEIGHT;
use crate::grid::WORLD_WIDTH;
use crate::grid::grid_dims;
use crate::step::eval_next;
use crate::step::step_grid;

verus! {

/// The fixed pixel edge length of one cell in the two simulation grids.
pub const CELL_SIZE: usize = 4;

/// An error reported to the host bridge.
#[derive(Clone, Copy, Debug, PartialEq, Eq, Structural)]
pub enum SimError {
    /// A placement request referenced a cell outside the grid dimensions.
    OutOfBounds,
    /// An operation was invoked before the simulation state holder exists.
    NotInitialized,
}

/// The transfer object handed to the external rendering layer each frame:
/// the grid dimensions and the coordinates of all occupied cells, in
/// row-major scan order. It is immutable output data, not simulation state.
pub struct JObject {
    pub rows: usize,
    pub cols: usize,
    pub active_particles: Vec<(usize, usize)>,
}

impl JObject {
    /// An empty transfer object for a `rows x cols` grid.
    pub fn new(rows: usize, cols: usize) -> (obj: JObject)
        ensures
            obj.rows == rows,
            obj.cols == cols,
            obj.active_particles@ == Seq::<(usize, usize)>::empty(),
    {
        JObject { rows, cols, active_particles: Vec::new() }
    }
}

/// The coordinates of the sand cells among the first `c` cells of row `r`,
/// in column order.
pub open spec fn row_actives(row: Seq<i8>, r: int, c: int) -> Seq<(usize, usize)>
    decreases c,
{
    if c <= 0 {
        Seq::empty()
    } else {
        row_actives(row, r, c - 1) + (if row[c - 1] == SAND {
            seq![(r as usize, (c - 1) as usize)]
        } else {
            Seq::empty()
        })
    }
}

/// The coordinates of the sand cells of the first `r` rows of `g`, in
/// row-major scan order.
pub open spec fn grid_actives_upto(g: Seq<Seq<i8>>, r: int) -> Seq<(usize, usize)>
    decreases r,
{
    if r <= 0 {
        Seq::empty()
    } else {
        grid_actives_upto(g, r - 1) + row_actives(g[r - 1], r - 1, g[r - 1].len() as int)
    }
}

/// The coordinates of all sand cells of `g`, in row-major scan order.
pub open spec fn active_seq(g: Seq<Seq<i8>>) -> Seq<(usize, usize)> {
    grid_actives_upto(g, g.len() as int)
}

/// Builds the transfer object for one frame: the grid's dimensions and the
/// coordinates of its occupied cells in row-major scan order.
#[verifier::loop_isolation(false)]
pub fn create_json_object(grid: &ParticleGrid) -> (obj: JObject)
    requires
        grid.wf(),
    ensures
        obj.rows == grid.spec_rows(),
        obj.cols == grid.spec_cols(),
        obj.active_particles@ == active_seq(grid@),
{
    let rows = grid.rows();
    let cols = grid.cols();
    let mut obj = JObject::new(rows, cols);
    let mut row: usize = 0;
    while row < rows
        invariant
            row <= rows,
            obj.rows == rows,
            obj.cols == cols,
            obj.active_particles@ == grid_actives_upto(grid@, row as int),
        decreases rows - row,
    {
        let mut col: usize = 0;
        while col < cols
            invariant
                row < rows,
                col <= cols,
                obj.rows == rows,
                obj.cols == cols,
                obj.active_particles@ == grid_actives_upto(grid@, row as int) + row_actives(
                    grid@[row as int],
                    row as int,
                    col as int,
                ),
            decreases cols - col,
        {
            if grid.get(row, col) == SAND {
                obj.active_particles.push((row, col));
            }
            col = col + 1;
        }
        row = row + 1;
    }
    obj
}

/// The simulation state holder: the "current" grid read by placements and
/// serialization, and the "next" buffer the step writes into. The two swap
/// roles every frame; both always have identical dimensions.
pub struct SimState {
    current: ParticleGrid,
    next: ParticleGrid,
}

impl SimState {
    /// The contents of the current buffer.
    pub closed spec fn spec_current(&self) -> Seq<Seq<i8>> {
        self.current@
    }

    /// The number of rows of both buffers.
    pub closed spec fn spec_rows(&self) -> int {
        self.current.spec_rows()
    }

    /// The number of columns of both buffers.
    pub closed spec fn spec_cols(&self) -> int {
        self.current.spec_cols()
    }

    /// Both buffers are well-formed grids of identical dimensions.
    pub closed spec fn wf(&self) -> bool {
        &&& self.current.wf()
        &&& self.next.wf()
        &&& self.next.spec_rows() == self.current.spec_rows()
        &&& self.next.spec_cols() == self.current.spec_cols()
    }

    /// A well-formed state's current buffer has its stated dimensions.
    pub proof fn lemma_wf_dims(&self)
        requires
            self.wf(),
        ensures
            grid_dims(self.spec_current(), self.spec_rows(), self.spec_cols()),
            self.spec_rows() >= 0,
            self.spec_cols() >= 0,
    {
        self.current.lemma_dims_nonneg();
    }

    /// Creates the simulation state holder: two grids of identical
    /// dimensions, sized from the fixed world dimensions and the fixed cell
    /// size, with every cell empty.
    pub fn initialize() -> (s: SimState)
        ensures
            s.wf(),
            s.spec_rows() == WORLD_HEIGHT as int / CELL_SIZE as int,
            s.spec_cols() == WORLD_WIDTH as int / CELL_SIZE as int,
            forall|i: int, j: int|
                0 <= i < s.spec_rows() && 0 <= j < s.spec_cols() ==> s.spec_current()[i][j]
                    == EMPTY,
    {
        SimState {
            current: ParticleGrid::new_grid(CELL_SIZE),
            next: ParticleGrid::new_grid(CELL_SIZE),
        }
    }

    /// Validates `row` and `col` against the grid dimensions; in bounds, it
    /// sets that cell of the current buffer to sand and succeeds; out of
    /// bounds, it fails and leaves the grid unmodified.
    pub fn place_particle(&mut self, row: usize, col: usize) -> (r: Result<(), SimError>)
        requires
            old(self).wf(),
        ensures
            final(self).wf(),
            final(self).spec_rows() == old(self).spec_rows(),
            final(self).spec_cols() == old(self).spec_cols(),
            row < old(self).spec_rows() && col < old(self).spec_cols() ==> {
                &&& r == Ok::<(), SimError>(())
                &&& final(self).spec_current() == old(self).spec_current().update(
                    row as int,
                    old(self).spec_current()[row as int].update(col as int, SAND),
                )
            },
            !(row < old(self).spec_rows() && col < old(self).spec_cols()) ==> {
                &&& r == Err::<(), SimError>(SimError::OutOfBounds)
                &&& final(self).spec_current() == old(self).spec_current()
            },
    {
        if row < self.current.rows() && col < self.current.cols() {
            self.current.set(row, col, SAND);
            Ok(())
        } else {
            Err(SimError::OutOfBounds)
        }
    }

    /// Runs one automaton step from the current buffer into the next buffer,
    /// swaps the two buffers' roles, and serializes the new current buffer
    /// into a transfer object.
    pub fn advance_frame(&mut self) -> (obj: JObject)
        requires
            old(self).wf(),
        ensures
            final(self).wf(),
            final(self).spec_rows() == old(self).spec_rows(),
            final(self).spec_cols() == old(self).spec_cols(),
            final(self).spec_current() == step_grid(
                old(self).spec_current(),
                old(self).spec_rows(),
                old(self).spec_cols(),
            ),
            obj.rows == old(self).spec_rows(),
            obj.cols == old(self).spec_cols(),
            obj.active_particles@ == active_seq(final(self).spec_current()),
    {
        eval_next(&self.current, &mut self.next);
        core::mem::swap(&mut self.current, &mut self.next);
        create_json_object(&self.current)
    }
}

} // verus!
