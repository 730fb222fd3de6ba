//! Cells, grids and the automaton that advances them.

pub mod automata;
pub mod cell;
pub mod grid;


pub use automata::Automata;
pub use cell::Cell;
pub use grid::{Generation, Grid, GridModel};
