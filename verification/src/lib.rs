//! A discrete-time falling-sand cellular automaton on a 2D grid.
//!
//! The library owns the simulation: a grid of per-cell material values
//! (`0` = empty, `1` = sand), a step function that computes the next frame
//! from the current one under simulated gravity, and a simulation state
//! holder that double-buffers two grids and reports the occupied cells of
//! each new frame to a rendering layer.

pub mod grid;
pub mod laws;
pub mod sim;
pub mod step;
