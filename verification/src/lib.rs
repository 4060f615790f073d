//! A verified core for Conway's Game of Life on a toroidal (wraparound) grid.
//!
//! The crate provides the simulation engine and its inter-thread protocol:
//! the grid update rule, a wall-clock-driven step scheduler with fixed-point
//! rate arithmetic, and a bidirectional non-blocking channel that carries
//! cell-state diffs outward and control commands inward.

pub mod channel;
pub mod controls;
pub mod engine;
pub mod grid;
