//! Terminal transition effects driven by cellular automata.
//!
//! Text is drawn into a grid of cells, a cellular automaton rule evolves the
//! grid generation by generation, and each generation is rendered as a frame
//! of glyphs chosen by every cell's decay value.

pub mod color;
pub mod engine;
pub mod fonts;
pub mod glyphs;
pub mod prelude;
pub mod rules;
pub mod strings;
pub mod transition;

pub use transition::{morph, MorphBuilder};
