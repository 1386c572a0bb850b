use falling_sand::grid::ParticleGrid;
use falling_sand::grid::SAND;
use falling_sand::sim::create_json_object;
use falling_sand::sim::JObject;
use falling_sand::sim::SimError;
use falling_sand::sim::SimState;

#[test]
fn initialize_gives_empty_world_grid() {
    let mut state = SimState::initialize();
    let obj = state.advance_frame();
    assert_eq!(obj.rows, 200);
    assert_eq!(obj.cols, 300);
    assert!(obj.active_particles.is_empty());
}

#[test]
fn placed_particle_falls_on_next_frame() {
    let mut state = SimState::initialize();
    assert_eq!(state.place_particle(0, 0), Ok(()));
    let obj = state.advance_frame();
    assert_eq!(obj.active_particles, vec![(1, 0)]);
}

#[test]
fn bounds_rejection() {
    let mut state = SimState::initialize();
    assert_eq!(state.place_particle(200, 0), Err(SimError::OutOfBounds));
    assert_eq!(state.place_particle(0, 300), Err(SimError::OutOfBounds));
    assert_eq!(state.place_particle(200, 300), Err(SimError::OutOfBounds));
    // The failed placements left the grid unmodified.
    let obj = state.advance_frame();
    assert!(obj.active_particles.is_empty());
}

#[test]
fn particle_settles_on_bottom_row_of_world() {
    let mut state = SimState::initialize();
    assert_eq!(state.place_particle(199, 5), Ok(()));
    let obj = state.advance_frame();
    assert_eq!(obj.active_particles, vec![(199, 5)]);
    let obj = state.advance_frame();
    assert_eq!(obj.active_particles, vec![(199, 5)]);
}

#[test]
fn error_variants_are_distinct() {
    assert_ne!(SimError::OutOfBounds, SimError::NotInitialized);
}

#[test]
fn jobject_new_is_empty() {
    let obj = JObject::new(3, 7);
    assert_eq!(obj.rows, 3);
    assert_eq!(obj.cols, 7);
    assert!(obj.active_particles.is_empty());
}

#[test]
fn serialization_is_row_major() {
    let mut g = ParticleGrid::new_with_dims(3, 3, 4);
    g.set(2, 0, SAND);
    g.set(0, 1, SAND);
    g.set(1, 1, SAND);
    g.set(0, 2, SAND);
    let obj = create_json_object(&g);
    assert_eq!(obj.rows, 3);
    assert_eq!(obj.cols, 3);
    assert_eq!(obj.active_particles, vec![(0, 1), (0, 2), (1, 1), (2, 0)]);
}

#[test]
fn serialization_of_empty_grid() {
    let g = ParticleGrid::new_with_dims(2, 2, 4);
    let obj = create_json_object(&g);
    assert!(obj.active_particles.is_empty());
}
