//! A falling-material cellular automaton: a dense grid of cells, each holding
//! one material, advanced one tick at a time by per-material rules.
//!
//! Coordinates are `(x, y)` with `x` counting columns from the left and `y`
//! counting rows from the top, so that gravity points to larger `y`.
//!
//! Velocities are fixed-point numbers: `VELOCITY_ONE` units make up a speed of
//! one cell per tick. Random decisions are drawn from a `fastrand::Rng` that the
//! caller passes in.

pub mod material;
pub mod random;
pub mod palette;
pub mod cell;
pub mod grid;
pub mod search;
pub mod movement;
pub mod reaction;
pub mod schedule;
pub mod brush;
pub mod frame;
