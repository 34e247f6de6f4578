//! A turnless tactics core: abilities, the decision timeline, the freeze clock and
//! the HUD read-outs derived from them.

pub mod hud;
pub mod skills;
pub mod text;
pub mod timeline;
pub mod units;
