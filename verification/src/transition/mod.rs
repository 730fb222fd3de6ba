//! Transition animations and frame generation

pub mod builder;
pub mod colored;
pub mod frame;
pub mod morph;
pub mod text;

pub use builder::{morph, MorphBuilder};
pub use frame::Frame;
pub use morph::Transition;
