//! Glyph sets that turn decay values into characters.

pub mod sets;

pub use sets::{GlyphSet, GlyphSetError};
