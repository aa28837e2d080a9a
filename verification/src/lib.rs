//! Per-tick update core of a particle-based fluid simulation.
//!
//! All quantities are fixed-point integers: a raw value `v` stands for the
//! real number `v / SCALE`. The core is a set of pure functions: a smoothing
//! kernel turning a distance into a repulsion magnitude, a cell index mapping
//! a position into a uniform spatial grid, a one-dimensional elastic boundary
//! reflector, and the per-particle updater that combines them.

pub mod fixed;
pub mod types;
pub mod kernel;
pub mod simulation;
