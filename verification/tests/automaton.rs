use falling_sand::grid::ParticleGrid;
use falling_sand::grid::EMPTY;
use falling_sand::grid::SAND;
use falling_sand::step::eval_next;
use falling_sand::step::tie_break_left;

fn empty_pair(rows: usize, cols: usize) -> (ParticleGrid, ParticleGrid) {
    (
        ParticleGrid::new_with_dims(rows, cols, 4),
        ParticleGrid::new_with_dims(rows, cols, 4),
    )
}

fn step_once(cur: &mut ParticleGrid, nxt: &mut ParticleGrid) {
    eval_next(cur, nxt);
    std::mem::swap(cur, nxt);
}

fn count_particles(g: &ParticleGrid) -> usize {
    let mut n = 0;
    for r in 0..g.rows() {
        for c in 0..g.cols() {
            if g.get(r, c) == SAND {
                n += 1;
            }
        }
    }
    n
}

fn assert_only_occupied(g: &ParticleGrid, occupied: &[(usize, usize)]) {
    for r in 0..g.rows() {
        for c in 0..g.cols() {
            let expected = if occupied.contains(&(r, c)) { SAND } else { EMPTY };
            assert_eq!(g.get(r, c), expected, "cell ({}, {})", r, c);
        }
    }
}

#[test]
fn new_grid_dimensions() {
    let g = ParticleGrid::new_grid(4);
    assert_eq!(g.rows(), 200);
    assert_eq!(g.cols(), 300);
    assert_eq!(g.cell_size(), 4);
    assert_eq!(g.get(0, 0), EMPTY);
    assert_eq!(g.get(199, 299), EMPTY);
}

#[test]
fn new_grid_uneven_division() {
    let g = ParticleGrid::new_grid(7);
    assert_eq!(g.rows(), 800 / 7);
    assert_eq!(g.cols(), 1200 / 7);
}

#[test]
fn bottom_row_settles() {
    let (mut cur, mut nxt) = empty_pair(2, 3);
    for c in 0..3 {
        cur.set(1, c, SAND);
    }
    step_once(&mut cur, &mut nxt);
    assert_only_occupied(&cur, &[(1, 0), (1, 1), (1, 2)]);
}

#[test]
fn free_fall_each_frame() {
    let (mut cur, mut nxt) = empty_pair(5, 5);
    cur.set(0, 2, SAND);
    for k in 1..=4 {
        step_once(&mut cur, &mut nxt);
        assert_only_occupied(&cur, &[(k, 2)]);
    }
}

#[test]
fn five_by_five_scenario() {
    let (mut cur, mut nxt) = empty_pair(5, 5);
    cur.set(0, 2, SAND);
    for _ in 0..4 {
        step_once(&mut cur, &mut nxt);
    }
    assert_only_occupied(&cur, &[(4, 2)]);
    step_once(&mut cur, &mut nxt);
    assert_only_occupied(&cur, &[(4, 2)]);
}

#[test]
fn wall_clamp_left() {
    let (mut cur, mut nxt) = empty_pair(2, 2);
    cur.set(0, 0, SAND);
    cur.set(1, 0, SAND);
    cur.set(1, 1, SAND);
    step_once(&mut cur, &mut nxt);
    assert_only_occupied(&cur, &[(0, 0), (1, 0), (1, 1)]);
}

#[test]
fn wall_clamp_right() {
    let (mut cur, mut nxt) = empty_pair(2, 2);
    cur.set(0, 1, SAND);
    cur.set(1, 0, SAND);
    cur.set(1, 1, SAND);
    step_once(&mut cur, &mut nxt);
    assert_only_occupied(&cur, &[(0, 1), (1, 0), (1, 1)]);
}

#[test]
fn diagonal_slide_moves_to_exactly_one_side() {
    let (mut cur, mut nxt) = empty_pair(2, 3);
    cur.set(0, 1, SAND);
    cur.set(1, 1, SAND);
    step_once(&mut cur, &mut nxt);
    // The particle must leave (0, 1) and land on exactly one free diagonal.
    assert_eq!(cur.get(0, 1), EMPTY);
    let left = cur.get(1, 0) == SAND;
    let right = cur.get(1, 2) == SAND;
    assert!(left != right, "exactly one diagonal must receive the particle");
    // The position-derived parity at (0, 1) sends it below-right.
    assert_only_occupied(&cur, &[(1, 1), (1, 2)]);
}

#[test]
fn diagonal_slide_left_parity() {
    let (mut cur, mut nxt) = empty_pair(3, 3);
    cur.set(1, 1, SAND);
    cur.set(2, 1, SAND);
    step_once(&mut cur, &mut nxt);
    // The parity at (1, 1) sends the upper particle below-left.
    assert_only_occupied(&cur, &[(2, 0), (2, 1)]);
}

#[test]
fn blocked_left_diagonal_falls_right() {
    let (mut cur, mut nxt) = empty_pair(2, 3);
    cur.set(0, 1, SAND);
    cur.set(1, 0, SAND);
    cur.set(1, 1, SAND);
    step_once(&mut cur, &mut nxt);
    assert_only_occupied(&cur, &[(1, 0), (1, 1), (1, 2)]);
}

#[test]
fn blocked_right_diagonal_falls_left() {
    let (mut cur, mut nxt) = empty_pair(2, 3);
    cur.set(0, 1, SAND);
    cur.set(1, 1, SAND);
    cur.set(1, 2, SAND);
    step_once(&mut cur, &mut nxt);
    assert_only_occupied(&cur, &[(1, 0), (1, 1), (1, 2)]);
}

#[test]
fn interior_settles_when_fully_blocked() {
    let (mut cur, mut nxt) = empty_pair(2, 3);
    cur.set(0, 1, SAND);
    cur.set(1, 0, SAND);
    cur.set(1, 1, SAND);
    cur.set(1, 2, SAND);
    step_once(&mut cur, &mut nxt);
    assert_only_occupied(&cur, &[(0, 1), (1, 0), (1, 1), (1, 2)]);
}

#[test]
fn write_collision_reduces_count() {
    let (mut cur, mut nxt) = empty_pair(2, 3);
    cur.set(0, 0, SAND);
    cur.set(0, 2, SAND);
    cur.set(1, 0, SAND);
    cur.set(1, 2, SAND);
    assert_eq!(count_particles(&cur), 4);
    step_once(&mut cur, &mut nxt);
    // Both upper particles aim at (1, 1); the collision merges them.
    assert_only_occupied(&cur, &[(1, 0), (1, 1), (1, 2)]);
    assert_eq!(count_particles(&cur), 3);
}

#[test]
fn step_never_creates_particles() {
    let (mut cur, mut nxt) = empty_pair(4, 4);
    cur.set(0, 1, SAND);
    cur.set(1, 1, SAND);
    cur.set(2, 1, SAND);
    cur.set(3, 0, SAND);
    let mut before = count_particles(&cur);
    for _ in 0..6 {
        step_once(&mut cur, &mut nxt);
        let after = count_particles(&cur);
        assert!(after <= before);
        before = after;
    }
}

#[test]
fn settled_configuration_is_fixed_point() {
    let (mut cur, mut nxt) = empty_pair(3, 4);
    for c in 0..4 {
        cur.set(2, c, SAND);
    }
    step_once(&mut cur, &mut nxt);
    assert_only_occupied(&cur, &[(2, 0), (2, 1), (2, 2), (2, 3)]);
    step_once(&mut cur, &mut nxt);
    assert_only_occupied(&cur, &[(2, 0), (2, 1), (2, 2), (2, 3)]);
}

#[test]
fn stacked_pair_scenario() {
    let (mut cur, mut nxt) = empty_pair(3, 3);
    cur.set(0, 1, SAND);
    cur.set(1, 1, SAND);
    step_once(&mut cur, &mut nxt);
    // (1, 1) falls straight to the empty (2, 1); (0, 1) sees sand below and
    // both diagonals free, and the parity at (0, 1) sends it to (1, 2).
    assert_only_occupied(&cur, &[(2, 1), (1, 2)]);
    step_once(&mut cur, &mut nxt);
    // The slid particle falls straight down; both are now settled.
    assert_only_occupied(&cur, &[(2, 1), (2, 2)]);
}

#[test]
fn column_collapses_to_bottom() {
    let (mut cur, mut nxt) = empty_pair(3, 3);
    cur.set(0, 1, SAND);
    cur.set(1, 1, SAND);
    cur.set(2, 1, SAND);
    step_once(&mut cur, &mut nxt);
    assert_only_occupied(&cur, &[(1, 2), (2, 0), (2, 1)]);
    step_once(&mut cur, &mut nxt);
    assert_only_occupied(&cur, &[(2, 0), (2, 1), (2, 2)]);
}

#[test]
fn single_column_stack_settles() {
    let (mut cur, mut nxt) = empty_pair(3, 1);
    cur.set(0, 0, SAND);
    cur.set(1, 0, SAND);
    cur.set(2, 0, SAND);
    step_once(&mut cur, &mut nxt);
    assert_only_occupied(&cur, &[(0, 0), (1, 0), (2, 0)]);
}

#[test]
fn zero_sized_grid_steps_without_effect() {
    let (mut cur, mut nxt) = empty_pair(0, 0);
    step_once(&mut cur, &mut nxt);
    assert_eq!(cur.rows(), 0);
    assert_eq!(cur.cols(), 0);
}

#[test]
fn tie_break_parity_values() {
    assert!(tie_break_left(0, 0));
    assert!(!tie_break_left(0, 1));
    assert!(tie_break_left(1, 1));
    assert!(!tie_break_left(2, 3));
    assert!(tie_break_left(2, 4));
}

#[test]
fn set_then_get_round_trip() {
    let mut g = ParticleGrid::new_with_dims(4, 4, 4);
    g.set(2, 3, SAND);
    assert_eq!(g.get(2, 3), SAND);
    assert_eq!(g.get(3, 2), EMPTY);
    g.set(2, 3, EMPTY);
    assert_eq!(g.get(2, 3), EMPTY);
}
