//! Solver and validator for a fixed-size grid dungeon puzzle.
//!
//! A board is an 8x8 grid of cells (unknown, empty, wall, monster or chest)
//! together with a wall-count target for every row and column.  A solved
//! board satisfies the wall counts, places a monster in every dead end and
//! nowhere else, encloses every chest in a single-entrance treasure room,
//! contains no wide corridors and keeps all non-wall cells connected.  The
//! solver fills the unknown cells by backtracking search, pruning with a
//! relaxed feasibility check.

pub mod board;
pub mod counts;
pub mod rules;
pub mod connect;
pub mod validate;
pub mod solver;
pub mod parse;
pub mod laws;
