//! The turnless timeline: whoever has an empty decision slot may decide.

pub mod clock;
pub mod decision;
pub mod events;
pub mod focus;
pub mod interrupt;
pub mod schedule;
