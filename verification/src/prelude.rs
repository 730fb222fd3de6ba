//! Convenient imports for the common types.

pub use crate::color::{Color, ColorMap};
pub use crate::engine::{Automata, Cell, Grid};
pub use crate::glyphs::GlyphSet;
pub use crate::rules::{Conway, DayAndNight, HighLife, Rule, Seeds};
pub use crate::transition::{Frame, MorphBuilder, Transition};
