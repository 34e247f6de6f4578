//! What the timeline tells other domains when it refuses an input.

use vstd::prelude::*;

verus! {

/// Why an input was refused.
#[derive(Debug, Clone, Copy, PartialEq, Eq, Structural)]
pub enum BlockReason {
    /// The decision slot is taken (windup / recovery).
    Busy,
    /// Not enough energy.
    NotEnoughEnergy,
}

/// "This input was not accepted" (written by the declaring systems, read by the HUD).
#[derive(Debug, Clone, Copy, PartialEq, Eq, Structural)]
pub struct ActionBlocked {
    pub reason: BlockReason,
}

impl ActionBlocked {
    /// The decision slot is not free yet.
    pub fn busy() -> (b: ActionBlocked)
        ensures
            b.reason == BlockReason::Busy,
    {
        ActionBlocked { reason: BlockReason::Busy }
    }

    /// Not enough energy.
    pub fn no_energy() -> (b: ActionBlocked)
        ensures
            b.reason == BlockReason::NotEnoughEnergy,
    {
        ActionBlocked { reason: BlockReason::NotEnoughEnergy }
    }
}

} // verus!
