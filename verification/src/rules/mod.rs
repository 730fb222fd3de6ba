//! Cellular automata rules

pub mod conway;
pub mod daynight;
pub mod highlife;
pub mod rule;
pub mod seeds;

pub use conway::Conway;
pub use daynight::DayAndNight;
pub use highlife::HighLife;
pub use rule::Rule;
pub use seeds::Seeds;
