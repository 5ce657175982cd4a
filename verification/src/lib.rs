//! A sparse-set simulation engine for Conway's Game of Life.
//!
//! The state of the simulation is a finite set of alive cell coordinates on a
//! conceptually unbounded signed grid: a coordinate is in the set if and only
//! if that cell is alive. The engine offers three operations — toggling one
//! cell, stepping one generation, and trimming cells that drifted far outside
//! the nominal grid bounds — together with read-only queries, and proves each
//! of them against a mathematical model of the rules.

pub mod cells;
pub mod events;
pub mod life;
pub mod rules;
