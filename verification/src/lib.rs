//! Conway-style cellular automaton on a fixed, row-major grid of cells,
//! with the geometry needed to paint it and the pause/step control of a
//! frame loop.

pub mod cell;
pub mod control;
pub mod grid;
pub mod life;
pub mod random;
pub mod render;
