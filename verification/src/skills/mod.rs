//! Skills: the static catalogue of abilities and how it is built and queried.

pub mod defs;
pub mod registry;
