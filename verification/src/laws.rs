//! Laws of the automaton step: proved consequences of the rule set in
//! [`crate::step`] that hold for every well-formed grid.

use vstd::prelude::*;

use crate::grid::EMPTY;
use crate::grid::SAND;
use crate::grid::grid_dims;
use crate::step::next_occupied;
use crate::step::sand_dest;
use crate::step::step_grid;
use crate::step::writes_to;
use vstd::relations::injective_on;
use vstd::set_lib::lemma_len_subset;
use vstd::set_lib::lemma_map_size;
use vstd::set_lib::lemma_map_size_bound;
use vstd::set_lib::lemma_int_range;
use vstd::set_lib::set_int_range;

verus! {

/// Law: a sand particle on the bottom row stays on the bottom row after one
/// step — it settles in place.
pub proof fn lemma_bottom_row_settles(g: Seq<Seq<i8>>, rows: int, cols: int, c: int)
    requires
        grid_dims(g, rows, cols),
        rows >= 1,
        0 <= c < cols,
        g[rows - 1][c] == SAND,
    ensures
        sand_dest(g, rows, cols, rows - 1, c) == Some((rows - 1, c)),
        next_occupied(g, rows, cols, rows - 1, c),
        step_grid(g, rows, cols)[rows - 1][c] == SAND,
{
    assert(writes_to(g, rows, cols, rows - 1, c, rows - 1, c));
}

/// Law: a particle with an empty cell directly below moves straight down,
/// whatever lies on its diagonals.
pub proof fn lemma_free_fall(g: Seq<Seq<i8>>, rows: int, cols: int, r: int, c: int)
    requires
        grid_dims(g, rows, cols),
        0 <= r < rows - 1,
        0 <= c < cols,
        g[r][c] == SAND,
        g[r + 1][c] == EMPTY,
    ensures
        sand_dest(g, rows, cols, r, c) == Some((r + 1, c)),
        next_occupied(g, rows, cols, r + 1, c),
        step_grid(g, rows, cols)[r + 1][c] == SAND,
{
    assert(writes_to(g, rows, cols, r, c, r + 1, c));
}

/// Law: a particle at the leftmost column resting on sand, with its only
/// candidate diagonal (below-right) occupied, stays in place — it cannot
/// fall off the grid to the left.
pub proof fn lemma_wall_clamp_left(g: Seq<Seq<i8>>, rows: int, cols: int, r: int)
    requires
        grid_dims(g, rows, cols),
        0 <= r < rows - 1,
        cols >= 2,
        g[r][0] == SAND,
        g[r + 1][0] == SAND,
        g[r + 1][1] == SAND,
    ensures
        sand_dest(g, rows, cols, r, 0) == Some((r, 0int)),
        next_occupied(g, rows, cols, r, 0),
        step_grid(g, rows, cols)[r][0] == SAND,
{
    assert(writes_to(g, rows, cols, r, 0, r, 0));
}

/// Law: symmetrically, a particle at the rightmost column resting on sand,
/// with below-left occupied, stays in place.
pub proof fn lemma_wall_clamp_right(g: Seq<Seq<i8>>, rows: int, cols: int, r: int)
    requires
        grid_dims(g, rows, cols),
        0 <= r < rows - 1,
        cols >= 2,
        g[r][cols - 1] == SAND,
        g[r + 1][cols - 1] == SAND,
        g[r + 1][cols - 2] == SAND,
    ensures
        sand_dest(g, rows, cols, r, cols - 1) == Some((r, cols - 1)),
        next_occupied(g, rows, cols, r, cols - 1),
        step_grid(g, rows, cols)[r][cols - 1] == SAND,
{
    assert(writes_to(g, rows, cols, r, cols - 1, r, cols - 1));
}

/// Law: an interior particle resting on sand with both lower diagonals free
/// moves to exactly one of {below-left, below-right} — never both, and it
/// never stays in place.
pub proof fn lemma_diagonal_slide(g: Seq<Seq<i8>>, rows: int, cols: int, r: int, c: int)
    requires
        grid_dims(g, rows, cols),
        0 <= r < rows - 1,
        1 <= c < cols - 1,
        g[r][c] == SAND,
        g[r + 1][c] == SAND,
        g[r + 1][c - 1] == EMPTY,
        g[r + 1][c + 1] == EMPTY,
    ensures
        sand_dest(g, rows, cols, r, c) != Some((r, c)),
        sand_dest(g, rows, cols, r, c) == Some((r + 1, c - 1)) || sand_dest(g, rows, cols, r, c)
            == Some((r + 1, c + 1)),
        (sand_dest(g, rows, cols, r, c) == Some((r + 1, c - 1))) <==> !(sand_dest(
            g,
            rows,
            cols,
            r,
            c,
        ) == Some((r + 1, c + 1))),
        next_occupied(g, rows, cols, r + 1, c - 1) || next_occupied(g, rows, cols, r + 1, c + 1),
{
    if sand_dest(g, rows, cols, r, c) == Some((r + 1, c - 1)) {
        assert(writes_to(g, rows, cols, r, c, r + 1, c - 1));
    } else {
        assert(writes_to(g, rows, cols, r, c, r + 1, c + 1));
    }
}

/// The set of coordinates of the occupied (sand) cells of `g`.
pub open spec fn occupied_set(g: Seq<Seq<i8>>, rows: int, cols: int) -> Set<(int, int)> {
    Set::new(|p: (int, int)| 0 <= p.0 < rows && 0 <= p.1 < cols && g[p.0][p.1] == SAND)
}

/// The number of sand particles in `g`.
pub open spec fn particle_count(g: Seq<Seq<i8>>, rows: int, cols: int) -> nat {
    occupied_set(g, rows, cols).len()
}

/// All coordinates of a `rows x cols` grid.
pub open spec fn grid_box(rows: int, cols: int) -> Set<(int, int)> {
    Set::new(|p: (int, int)| 0 <= p.0 < rows && 0 <= p.1 < cols)
}

/// A `rows x cols` box of coordinates is a finite set.
pub proof fn lemma_box_finite(rows: int, cols: int)
    requires
        rows >= 0,
    ensures
        grid_box(rows, cols).finite(),
    decreases rows,
{
    broadcast use vstd::set_lib::lemma_set_union_finite_iff;

    if rows == 0 || cols <= 0 {
        assert(grid_box(rows, cols) =~= Set::<(int, int)>::empty());
    } else {
        lemma_box_finite(rows - 1, cols);
        lemma_int_range(0, cols);
        let f = |c: int| (rows - 1, c);
        let rowset = set_int_range(0, cols).map(f);
        set_int_range(0, cols).lemma_map_finite(f);
        assert forall|c: int| 0 <= c < cols implies #[trigger] rowset.contains((rows - 1, c)) by {
            assert(set_int_range(0, cols).contains(c));
            assert(f(c) == (rows - 1, c));
        }
        assert(grid_box(rows, cols) =~= grid_box(rows - 1, cols).union(rowset));
    }
}

/// Law: a step never creates particles. The count of sand cells in the next
/// frame is at most the count in the source frame (write collisions — two
/// particles aiming at the same cell — may only ever reduce it).
pub proof fn lemma_no_particle_creation(g: Seq<Seq<i8>>, rows: int, cols: int)
    requires
        grid_dims(g, rows, cols),
    ensures
        occupied_set(g, rows, cols).finite(),
        occupied_set(step_grid(g, rows, cols), rows, cols).finite(),
        particle_count(step_grid(g, rows, cols), rows, cols) <= particle_count(g, rows, cols),
{
    broadcast use vstd::set_lib::lemma_set_subset_finite;

    let src = occupied_set(g, rows, cols);
    let tgt = occupied_set(step_grid(g, rows, cols), rows, cols);
    lemma_box_finite(rows, cols);
    assert(src.subset_of(grid_box(rows, cols)));
    assert(tgt.subset_of(grid_box(rows, cols)));

    // Map each source particle to the cell it writes; the occupied cells of
    // the next frame are all images of source particles.
    let f = |p: (int, int)|
        match sand_dest(g, rows, cols, p.0, p.1) {
            Some(q) => q,
            None => p,
        };
    let img = src.map(f);
    lemma_map_size_bound(src, img, f);
    assert forall|p: (int, int)| tgt.contains(p) implies img.contains(p) by {
        assert(step_grid(g, rows, cols)[p.0][p.1] == SAND);
        assert(next_occupied(g, rows, cols, p.0, p.1));
        let (r, c) = choose|r: int, c: int| #[trigger] writes_to(g, rows, cols, r, c, p.0, p.1);
        assert(src.contains((r, c)));
        assert(f((r, c)) == p);
    }
    lemma_len_subset(tgt, img);
}

/// A sand particle's destination always lies within the grid: the rule set
/// only ever aims at the cell itself or at a guarded neighbor below.
pub proof fn lemma_dest_in_bounds(g: Seq<Seq<i8>>, rows: int, cols: int, r: int, c: int, i: int, j: int)
    requires
        grid_dims(g, rows, cols),
        0 <= r < rows,
        0 <= c < cols,
        sand_dest(g, rows, cols, r, c) == Some((i, j)),
    ensures
        0 <= i < rows,
        0 <= j < cols,
{
}

/// Every particle of `g` has a destination, and no two particles share one.
pub open spec fn collision_free(g: Seq<Seq<i8>>, rows: int, cols: int) -> bool {
    &&& forall|r: int, c: int|
        0 <= r < rows && 0 <= c < cols && g[r][c] == SAND ==> (#[trigger] sand_dest(
            g,
            rows,
            cols,
            r,
            c,
        )).is_some()
    &&& forall|r1: int, c1: int, r2: int, c2: int|
        #![trigger sand_dest(g, rows, cols, r1, c1), sand_dest(g, rows, cols, r2, c2)]
        0 <= r1 < rows && 0 <= c1 < cols && 0 <= r2 < rows && 0 <= c2 < cols && g[r1][c1] == SAND
            && g[r2][c2] == SAND && !(r1 == r2 && c1 == c2) ==> sand_dest(g, rows, cols, r1, c1)
            != sand_dest(g, rows, cols, r2, c2)
}

/// Law: in the absence of write collisions the count of sand cells is
/// exactly preserved by a step — no particle is created or destroyed.
pub proof fn lemma_no_collision_preserves_count(g: Seq<Seq<i8>>, rows: int, cols: int)
    requires
        grid_dims(g, rows, cols),
        collision_free(g, rows, cols),
    ensures
        occupied_set(g, rows, cols).finite(),
        occupied_set(step_grid(g, rows, cols), rows, cols).finite(),
        particle_count(step_grid(g, rows, cols), rows, cols) == particle_count(g, rows, cols),
{
    broadcast use vstd::set_lib::lemma_set_subset_finite;

    let src = occupied_set(g, rows, cols);
    let tgt = occupied_set(step_grid(g, rows, cols), rows, cols);
    lemma_box_finite(rows, cols);
    assert(src.subset_of(grid_box(rows, cols)));
    assert(tgt.subset_of(grid_box(rows, cols)));

    let f = |p: (int, int)|
        match sand_dest(g, rows, cols, p.0, p.1) {
            Some(q) => q,
            None => p,
        };
    let img = src.map(f);
    assert forall|p1: (int, int), p2: (int, int)|
        src.contains(p1) && src.contains(p2) && #[trigger] f(p1) == #[trigger] f(p2) implies p1
        == p2 by {
        assert(sand_dest(g, rows, cols, p1.0, p1.1).is_some());
        assert(sand_dest(g, rows, cols, p2.0, p2.1).is_some());
        if !(p1.0 == p2.0 && p1.1 == p2.1) {
            assert(sand_dest(g, rows, cols, p1.0, p1.1) != sand_dest(g, rows, cols, p2.0, p2.1));
        }
    }
    assert(injective_on(f, src));
    lemma_map_size(src, img, f);

    // Each occupied target cell is the image of a source particle, and each
    // source particle's destination is occupied in the target.
    assert forall|p: (int, int)| tgt.contains(p) implies img.contains(p) by {
        assert(step_grid(g, rows, cols)[p.0][p.1] == SAND);
        assert(next_occupied(g, rows, cols, p.0, p.1));
        let (r, c) = choose|r: int, c: int| #[trigger] writes_to(g, rows, cols, r, c, p.0, p.1);
        assert(src.contains((r, c)));
        assert(f((r, c)) == p);
    }
    assert forall|q: (int, int)| img.contains(q) implies tgt.contains(q) by {
        let p = choose|p: (int, int)| src.contains(p) && q == f(p);
        assert(sand_dest(g, rows, cols, p.0, p.1).is_some());
        assert(sand_dest(g, rows, cols, p.0, p.1) == Some(q));
        assert(writes_to(g, rows, cols, p.0, p.1, q.0, q.1));
        lemma_dest_in_bounds(g, rows, cols, p.0, p.1, q.0, q.1);
        assert(next_occupied(g, rows, cols, q.0, q.1));
    }
    assert(tgt =~= img);
}

/// Every cell of `g` holds one of the two defined material values.
pub open spec fn all_cells_binary(g: Seq<Seq<i8>>, rows: int, cols: int) -> bool {
    forall|i: int, j: int|
        0 <= i < rows && 0 <= j < cols ==> (#[trigger] g[i][j] == EMPTY || g[i][j] == SAND)
}

/// Every sand particle of `g` sits on the bottom row.
pub open spec fn fully_settled(g: Seq<Seq<i8>>, rows: int, cols: int) -> bool {
    forall|i: int, j: int|
        0 <= i < rows && 0 <= j < cols && #[trigger] g[i][j] == SAND ==> i == rows - 1
}

/// Law: a configuration where every particle sits on the bottom row is a
/// fixed point of the step — stepping it reproduces the grid exactly.
pub proof fn lemma_settled_fixed_point(g: Seq<Seq<i8>>, rows: int, cols: int)
    requires
        grid_dims(g, rows, cols),
        all_cells_binary(g, rows, cols),
        fully_settled(g, rows, cols),
    ensures
        step_grid(g, rows, cols) == g,
{
    assert forall|i: int, j: int| 0 <= i < rows && 0 <= j < cols implies step_grid(
        g,
        rows,
        cols,
    )[i][j] == g[i][j] by {
        if g[i][j] == SAND {
            assert(i == rows - 1);
            assert(writes_to(g, rows, cols, i, j, i, j));
            assert(next_occupied(g, rows, cols, i, j));
        } else {
            if next_occupied(g, rows, cols, i, j) {
                let (r, c) = choose|r: int, c: int| #[trigger] writes_to(g, rows, cols, r, c, i, j);
                assert(r == rows - 1);
                assert(sand_dest(g, rows, cols, r, c) == Some((r, c)));
                assert(g[i][j] == SAND);
            }
        }
    }
    assert(step_grid(g, rows, cols) =~~= g);
}

/// `g` holds exactly one particle, at `(r, c)`.
pub open spec fn single_particle(g: Seq<Seq<i8>>, rows: int, cols: int, r: int, c: int) -> bool {
    &&& grid_dims(g, rows, cols)
    &&& 0 <= r < rows
    &&& 0 <= c < cols
    &&& g[r][c] == SAND
    &&& forall|i: int, j: int|
        0 <= i < rows && 0 <= j < cols && !(i == r && j == c) ==> #[trigger] g[i][j] == EMPTY
}

/// Law: a lone particle above the bottom row falls straight down by one row,
/// and nothing else appears.
pub proof fn lemma_single_particle_falls(g: Seq<Seq<i8>>, rows: int, cols: int, r: int, c: int)
    requires
        single_particle(g, rows, cols, r, c),
        r < rows - 1,
    ensures
        single_particle(step_grid(g, rows, cols), rows, cols, r + 1, c),
{
    let sg = step_grid(g, rows, cols);
    assert(g[r + 1][c] == EMPTY);
    assert(writes_to(g, rows, cols, r, c, r + 1, c));
    assert(next_occupied(g, rows, cols, r + 1, c));
    assert(sg[r + 1][c] == SAND);
    assert forall|i: int, j: int|
        0 <= i < rows && 0 <= j < cols && !(i == r + 1 && j == c) implies #[trigger] sg[i][j]
        == EMPTY by {
        if next_occupied(g, rows, cols, i, j) {
            let (rr, cc) = choose|rr: int, cc: int| #[trigger] writes_to(g, rows, cols, rr, cc, i, j);
            assert(rr == r && cc == c);
        }
    }
    assert(grid_dims(sg, rows, cols));
}

/// The grid after `n` consecutive steps.
pub open spec fn step_n(g: Seq<Seq<i8>>, rows: int, cols: int, n: nat) -> Seq<Seq<i8>>
    decreases n,
{
    if n == 0 {
        g
    } else {
        step_grid(step_n(g, rows, cols, (n - 1) as nat), rows, cols)
    }
}

/// Law: a lone particle at row `r` with `n <= rows - 1 - r` falls straight
/// down one row per frame; after exactly `rows - 1 - r` frames it sits on
/// the bottom row.
pub proof fn lemma_free_fall_reaches_bottom(
    g: Seq<Seq<i8>>,
    rows: int,
    cols: int,
    r: int,
    c: int,
    n: nat,
)
    requires
        single_particle(g, rows, cols, r, c),
        r + n <= rows - 1,
    ensures
        single_particle(step_n(g, rows, cols, n), rows, cols, r + n, c),
    decreases n,
{
    if n > 0 {
        lemma_free_fall_reaches_bottom(g, rows, cols, r, c, (n - 1) as nat);
        lemma_single_particle_falls(step_n(g, rows, cols, (n - 1) as nat), rows, cols, r + n - 1, c);
    }
}

} // verus!

