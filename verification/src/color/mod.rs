//! Colors and color maps for decay values.

pub mod map;
pub mod rgb;

pub use map::{ColorMap, Matrix, Ocean, TokyoNight};
pub use rgb::Color;
