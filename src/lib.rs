//! Conway's Game of Life on a toroidal grid, with its rules stated and proved.

pub mod cell;
pub mod rules;
pub mod universe;
pub mod laws;

pub use cell::Cell;
pub use universe::Universe;
