//! What the HUD reads out: short labels, the unit panels' read-outs, the battle log,
//! the threatened cells and the timeline lanes.

pub mod hint;
pub mod labels;
pub mod lanes;
pub mod log;
pub mod panels;
pub mod readout;
pub mod skill_bar;
pub mod snapshot;
pub mod threat;
pub mod unit_panels;
