//! The automaton step: the rule set that decides, for every sand particle of
//! the current frame, where it lies in the next frame.
//!
//! A particle falls straight down when the cell below it is empty, slides to
//! a free lower diagonal when the cell below holds sand (clamped at the two
//! walls, with a tie-break when both diagonals are free), and settles in
//! place otherwise. Every particle of the source grid writes a single `1`
//! into the target grid; when two particles aim at the same target cell the
//! writes coincide, so a cell of the next frame holds sand exactly when some
//! source particle's destination is that cell.

use vstd::prelude::*;

use crate::grid::EMPTY;
use crate::grid::ParticleGrid;
use crate::grid::SAND;

verus! {

/// Tie-break for a particle whose two lower diagonals are both free: `true`
/// sends it below-left, `false` below-right. The choice is a deterministic
/// position-derived parity, uniform over {left, right} across the grid's
/// checkerboard of positions; it is fixed per cell, so the same configuration
/// always steps to the same next frame.
pub open spec fn tie_breaks_left(row: int, col: int) -> bool {
    (row + col) % 2 == 0
}

/// Executable counterpart of [`tie_breaks_left`].
pub fn tie_break_left(row: usize, col: usize) -> (b: bool)
    ensures
        b == tie_breaks_left(row as int, col as int),
{
    row % 2 == col % 2
}

/// Where the sand particle at `(row, col)` of `g` writes its `1` in the next
/// frame. Meaningful when `g[row][col] == SAND`; `None` means the particle
/// writes nowhere (the cell below holds a reserved material value, neither
/// `EMPTY` nor `SAND`).
pub open spec fn sand_dest(g: Seq<Seq<i8>>, rows: int, cols: int, row: int, col: int) -> Option<
    (int, int),
> {
    if row == rows - 1 {
        Some((row, col))
    } else if g[row + 1][col] == EMPTY {
        Some((row + 1, col))
    } else if g[row + 1][col] == SAND {
        if col == 0 {
            if col + 1 < cols && g[row + 1][col + 1] == EMPTY {
                Some((row + 1, col + 1))
            } else {
                Some((row, col))
            }
        } else if col == cols - 1 {
            if g[row + 1][col - 1] == EMPTY {
                Some((row + 1, col - 1))
            } else {
                Some((row, col))
            }
        } else {
            let below_l = g[row + 1][col - 1];
            let below_r = g[row + 1][col + 1];
            if below_l == EMPTY && below_r == EMPTY {
                if tie_breaks_left(row, col) {
                    Some((row + 1, col - 1))
                } else {
                    Some((row + 1, col + 1))
                }
            } else if below_l == EMPTY {
                Some((row + 1, col - 1))
            } else if below_r == EMPTY {
                Some((row + 1, col + 1))
            } else {
                Some((row, col))
            }
        }
    } else {
        None
    }
}

/// The source cell `(r, c)` holds sand whose destination is `(i, j)`.
pub open spec fn writes_to(
    g: Seq<Seq<i8>>,
    rows: int,
    cols: int,
    r: int,
    c: int,
    i: int,
    j: int,
) -> bool {
    &&& 0 <= r < rows
    &&& 0 <= c < cols
    &&& g[r][c] == SAND
    &&& sand_dest(g, rows, cols, r, c) == Some((i, j))
}

/// Cell `(i, j)` receives a particle in the next frame: some source particle
/// has it as its destination.
pub open spec fn next_occupied(g: Seq<Seq<i8>>, rows: int, cols: int, i: int, j: int) -> bool {
    exists|r: int, c: int| #[trigger] writes_to(g, rows, cols, r, c, i, j)
}

/// The value of cell `(i, j)` in the next frame.
pub open spec fn next_cell(g: Seq<Seq<i8>>, rows: int, cols: int, i: int, j: int) -> i8 {
    if next_occupied(g, rows, cols, i, j) {
        SAND
    } else {
        EMPTY
    }
}

/// The full next frame computed from source grid `g`.
pub open spec fn step_grid(g: Seq<Seq<i8>>, rows: int, cols: int) -> Seq<Seq<i8>> {
    Seq::new(rows as nat, |i: int| Seq::new(cols as nat, |j: int| next_cell(g, rows, cols, i, j)))
}

/// The cell `(r, c)` comes strictly before `(r0, c0)` in row-major scan
/// order.
pub open spec fn scan_before(r: int, c: int, r0: int, c0: int) -> bool {
    r < r0 || (r == r0 && c < c0)
}

/// Cell `(i, j)` receives a particle from a source cell scanned strictly
/// before `(r0, c0)` in row-major order.
pub open spec fn next_occupied_upto(
    g: Seq<Seq<i8>>,
    rows: int,
    cols: int,
    r0: int,
    c0: int,
    i: int,
    j: int,
) -> bool {
    exists|r: int, c: int|
        scan_before(r, c, r0, c0) && #[trigger] writes_to(g, rows, cols, r, c, i, j)
}

proof fn lemma_upto_start(g: Seq<Seq<i8>>, rows: int, cols: int, i: int, j: int)
    ensures
        !next_occupied_upto(g, rows, cols, 0, 0, i, j),
{
    if next_occupied_upto(g, rows, cols, 0, 0, i, j) {
        let (r, c) = choose|r: int, c: int|
            scan_before(r, c, 0, 0) && #[trigger] writes_to(g, rows, cols, r, c, i, j);
        assert(false);
    }
}

proof fn lemma_upto_step_other(g: Seq<Seq<i8>>, rows: int, cols: int, r0: int, c0: int, i: int, j: int)
    requires
        g[r0][c0] != SAND || sand_dest(g, rows, cols, r0, c0) != Some((i, j)),
    ensures
        next_occupied_upto(g, rows, cols, r0, c0 + 1, i, j) == next_occupied_upto(
            g,
            rows,
            cols,
            r0,
            c0,
            i,
            j,
        ),
{
    if next_occupied_upto(g, rows, cols, r0, c0 + 1, i, j) {
        let (r, c) = choose|r: int, c: int|
            scan_before(r, c, r0, c0 + 1) && #[trigger] writes_to(g, rows, cols, r, c, i, j);
        assert(scan_before(r, c, r0, c0));
        assert(next_occupied_upto(g, rows, cols, r0, c0, i, j));
    }
    if next_occupied_upto(g, rows, cols, r0, c0, i, j) {
        let (r, c) = choose|r: int, c: int|
            scan_before(r, c, r0, c0) && #[trigger] writes_to(g, rows, cols, r, c, i, j);
        assert(scan_before(r, c, r0, c0 + 1));
        assert(next_occupied_upto(g, rows, cols, r0, c0 + 1, i, j));
    }
}

proof fn lemma_upto_row_end(g: Seq<Seq<i8>>, rows: int, cols: int, r0: int, i: int, j: int)
    ensures
        next_occupied_upto(g, rows, cols, r0, cols, i, j) == next_occupied_upto(
            g,
            rows,
            cols,
            r0 + 1,
            0,
            i,
            j,
        ),
{
    if next_occupied_upto(g, rows, cols, r0, cols, i, j) {
        let (r, c) = choose|r: int, c: int|
            scan_before(r, c, r0, cols) && #[trigger] writes_to(g, rows, cols, r, c, i, j);
        assert(scan_before(r, c, r0 + 1, 0));
        assert(next_occupied_upto(g, rows, cols, r0 + 1, 0, i, j));
    }
    if next_occupied_upto(g, rows, cols, r0 + 1, 0, i, j) {
        let (r, c) = choose|r: int, c: int|
            scan_before(r, c, r0 + 1, 0) && #[trigger] writes_to(g, rows, cols, r, c, i, j);
        assert(scan_before(r, c, r0, cols));
        assert(next_occupied_upto(g, rows, cols, r0, cols, i, j));
    }
}

proof fn lemma_upto_full(g: Seq<Seq<i8>>, rows: int, cols: int, i: int, j: int)
    ensures
        next_occupied_upto(g, rows, cols, rows, 0, i, j) == next_occupied(g, rows, cols, i, j),
{
    if next_occupied_upto(g, rows, cols, rows, 0, i, j) {
        let (r, c) = choose|r: int, c: int|
            scan_before(r, c, rows, 0) && #[trigger] writes_to(g, rows, cols, r, c, i, j);
        assert(next_occupied(g, rows, cols, i, j));
    }
    if next_occupied(g, rows, cols, i, j) {
        let (r, c) = choose|r: int, c: int| #[trigger] writes_to(g, rows, cols, r, c, i, j);
        assert(scan_before(r, c, rows, 0));
        assert(next_occupied_upto(g, rows, cols, rows, 0, i, j));
    }
}

/// Computes the next frame: reads every cell of `grid` and writes into
/// `next`, after clearing it, the destination of every sand particle, in
/// row-major scan order. `grid` is never mutated; `next`'s contents are
/// fully determined by `grid`'s.
#[verifier::loop_isolation(false)]
pub fn eval_next(grid: &ParticleGrid, next: &mut ParticleGrid)
    requires
        grid.wf(),
        old(next).wf(),
        old(next).spec_rows() == grid.spec_rows(),
        old(next).spec_cols() == grid.spec_cols(),
    ensures
        final(next).wf(),
        final(next).spec_rows() == old(next).spec_rows(),
        final(next).spec_cols() == old(next).spec_cols(),
        final(next).spec_cell_size() == old(next).spec_cell_size(),
        final(next)@ == step_grid(grid@, grid.spec_rows(), grid.spec_cols()),
{
    let rows = grid.rows();
    let cols = grid.cols();
    let ghost gs = grid@;

    // Clear the target grid before evaluating the new frame.
    let mut row: usize = 0;
    while row < rows
        invariant
            row <= rows,
            next.wf(),
            next.spec_rows() == old(next).spec_rows(),
            next.spec_cols() == old(next).spec_cols(),
            next.spec_cell_size() == old(next).spec_cell_size(),
            forall|i: int, j: int|
                0 <= i < row && 0 <= j < cols ==> #[trigger] next@[i][j] == EMPTY,
        decreases rows - row,
    {
        let mut col: usize = 0;
        while col < cols
            invariant
                col <= cols,
                row < rows,
                next.wf(),
                next.spec_rows() == old(next).spec_rows(),
                next.spec_cols() == old(next).spec_cols(),
                next.spec_cell_size() == old(next).spec_cell_size(),
                forall|i: int, j: int|
                    0 <= i < row && 0 <= j < cols ==> #[trigger] next@[i][j] == EMPTY,
                forall|j: int| 0 <= j < col ==> #[trigger] next@[row as int][j] == EMPTY,
            decreases cols - col,
        {
            next.set(row, col, EMPTY);
            col = col + 1;
        }
        row = row + 1;
    }

    proof {
        assert forall|i: int, j: int| 0 <= i < rows && 0 <= j < cols implies #[trigger] next@[i][j]
            == (if next_occupied_upto(gs, rows as int, cols as int, 0, 0, i, j) {
            SAND
        } else {
            EMPTY
        }) by {
            lemma_upto_start(gs, rows as int, cols as int, i, j);
        }
    }

    // Scan the source grid and retroactively assign next positions.
    let mut row: usize = 0;
    while row < rows
        invariant
            row <= rows,
            next.wf(),
            next.spec_rows() == old(next).spec_rows(),
            next.spec_cols() == old(next).spec_cols(),
            next.spec_cell_size() == old(next).spec_cell_size(),
            forall|i: int, j: int|
                0 <= i < rows && 0 <= j < cols ==> #[trigger] next@[i][j] == (
                if next_occupied_upto(gs, rows as int, cols as int, row as int, 0, i, j) {
                    SAND
                } else {
                    EMPTY
                }),
        decreases rows - row,
    {
        let mut col: usize = 0;
        while col < cols
            invariant
                col <= cols,
                row < rows,
                next.wf(),
                next.spec_rows() == old(next).spec_rows(),
                next.spec_cols() == old(next).spec_cols(),
                next.spec_cell_size() == old(next).spec_cell_size(),
                forall|i: int, j: int|
                    0 <= i < rows && 0 <= j < cols ==> #[trigger] next@[i][j] == (
                    if next_occupied_upto(gs, rows as int, cols as int, row as int, col as int, i, j) {
                        SAND
                    } else {
                        EMPTY
                    }),
            decreases cols - col,
        {
            let ghost pre = next@;
            let state = grid.get(row, col);
            let mut dest: Option<(usize, usize)> = None;
            if state == SAND {
                // Sand is present in this cell: decide where it goes.
                if row == rows - 1 {
                    // Bottom row: settle in place.
                    dest = Some((row, col));
                } else if grid.get(row + 1, col) == EMPTY {
                    // The cell below is empty: fall straight down.
                    dest = Some((row + 1, col));
                } else if grid.get(row + 1, col) == SAND {
                    // Sand below: try the lower diagonals, clamped at walls.
                    if col == 0 {
                        if col + 1 < cols && grid.get(row + 1, col + 1) == EMPTY {
                            dest = Some((row + 1, col + 1));
                        } else {
                            dest = Some((row, col));
                        }
                    } else if col == cols - 1 {
                        if grid.get(row + 1, col - 1) == EMPTY {
                            dest = Some((row + 1, col - 1));
                        } else {
                            dest = Some((row, col));
                        }
                    } else {
                        let below_l = grid.get(row + 1, col - 1);
                        let below_r = grid.get(row + 1, col + 1);
                        if below_l == EMPTY && below_r == EMPTY {
                            if tie_break_left(row, col) {
                                dest = Some((row + 1, col - 1));
                            } else {
                                dest = Some((row + 1, col + 1));
                            }
                        } else if below_l == EMPTY {
                            dest = Some((row + 1, col - 1));
                        } else if below_r == EMPTY {
                            dest = Some((row + 1, col + 1));
                        } else {
                            // Can't fall further: settle in place.
                            dest = Some((row, col));
                        }
                    }
                }
                // A reserved material value below leaves `dest` as `None`:
                // the particle contributes nothing to the next frame.
            }
            match dest {
                Some(d) => {
                    let (di, dj) = d;
                    proof {
                        assert(state == SAND);
                        assert(sand_dest(gs, rows as int, cols as int, row as int, col as int)
                            == Some((di as int, dj as int)));
                    }
                    next.set(di, dj, SAND);
                    proof {
                        assert(writes_to(
                            gs,
                            rows as int,
                            cols as int,
                            row as int,
                            col as int,
                            di as int,
                            dj as int,
                        ));
                        assert(scan_before(row as int, col as int, row as int, col as int + 1));
                        assert forall|i: int, j: int| 0 <= i < rows && 0 <= j < cols implies #[trigger] next@[i][j]
                            == (if next_occupied_upto(
                            gs,
                            rows as int,
                            cols as int,
                            row as int,
                            col as int + 1,
                            i,
                            j,
                        ) {
                            SAND
                        } else {
                            EMPTY
                        }) by {
                            if i == di as int && j == dj as int {
                                assert(next_occupied_upto(
                                    gs,
                                    rows as int,
                                    cols as int,
                                    row as int,
                                    col as int + 1,
                                    i,
                                    j,
                                ));
                                assert(next@[i][j] == SAND);
                            } else {
                                lemma_upto_step_other(
                                    gs,
                                    rows as int,
                                    cols as int,
                                    row as int,
                                    col as int,
                                    i,
                                    j,
                                );
                                assert(next@[i][j] == pre[i][j]);
                            }
                        }
                    }
                },
                None => {
                    proof {
                        assert forall|i: int, j: int| 0 <= i < rows && 0 <= j < cols implies #[trigger] next@[i][j]
                            == (if next_occupied_upto(
                            gs,
                            rows as int,
                            cols as int,
                            row as int,
                            col as int + 1,
                            i,
                            j,
                        ) {
                            SAND
                        } else {
                            EMPTY
                        }) by {
                            lemma_upto_step_other(
                                gs,
                                rows as int,
                                cols as int,
                                row as int,
                                col as int,
                                i,
                                j,
                            );
                        }
                    }
                },
            }
            col = col + 1;
        }
        proof {
            assert forall|i: int, j: int| 0 <= i < rows && 0 <= j < cols implies #[trigger] next@[i][j]
                == (if next_occupied_upto(gs, rows as int, cols as int, row as int + 1, 0, i, j) {
                SAND
            } else {
                EMPTY
            }) by {
                lemma_upto_row_end(gs, rows as int, cols as int, row as int, i, j);
            }
        }
        row = row + 1;
    }

    proof {
        assert forall|i: int, j: int| 0 <= i < rows && 0 <= j < cols implies #[trigger] next@[i][j]
            == next_cell(gs, rows as int, cols as int, i, j) by {
            lemma_upto_full(gs, rows as int, cols as int, i, j);
        }
        assert forall|i: int| 0 <= i < rows implies next@[i]
            =~= step_grid(gs, rows as int, cols as int)[i] by {
        }
        assert(next@ =~~= step_grid(gs, rows as int, cols as int));
    }
}

} // verus!
