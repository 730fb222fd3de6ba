//! Bitmap fonts for drawing text.

pub mod bitmap;
pub mod figlet;

pub use bitmap::{BitmapModel, CharBitmap, FontRenderer};

pub use figlet::{FigletFont, FontError};
