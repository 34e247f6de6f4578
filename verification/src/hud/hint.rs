//! The hint bar above the player's panel: a short sentence when an input is refused,
//! which fades out by itself, and otherwise the preview read-out of what the pointer
//! is aiming at.
//!
//! A refused input outranks the preview (it is immediate feedback), and a refusal of
//! the ground itself outranks a refusal by the timeline. The fade-out runs on real
//! time, so the hint also goes away while the world is frozen; the engine keeps that
//! clock and reports here whether it has run out.

use vstd::prelude::*;

use crate::timeline::events::BlockReason;

use super::labels::{block_message, refusal_text};

verus! {

/// What the bar says when a block edit is refused because the ground there is not
/// loaded.
pub open spec fn no_ground_text() -> Seq<char> {
    "NO GROUND HERE · chunk not loaded"@
}

/// What the hint bar does this frame.
#[derive(Debug, Clone, Copy, PartialEq, Eq)]
pub enum HintShow {
    /// Show this warning and restart the fade-out clock.
    Warn(&'static str),
    /// Show the preview read-out that arrived this frame.
    Preview,
    /// Hide the bar (the preview target went away).
    Hide,
    /// Leave the bar as it is.
    Keep,
}

/// Decide the hint bar for one frame.
///
/// `ground_refused`: a block edit was refused this frame (no ground loaded there);
/// `blocked`: the reason of the last refused input this frame, if any;
/// `faded`: the warning's clock has run out (or no warning was ever shown);
/// `preview`: the last preview read-out of this frame, if any arrived: `Some(true)`
/// with a text to show, `Some(false)` when the preview target went away.
///
/// A refusal always shows, the ground's first; the preview only takes the bar once
/// the warning has faded.
pub fn hint_step(ground_refused: bool, blocked: Option<BlockReason>, faded: bool, preview: Option<
    bool,
>) -> (show: HintShow)
    ensures
        ground_refused ==> (show matches HintShow::Warn(m) && m@ == no_ground_text()),
        !ground_refused && blocked is Some ==> (show matches HintShow::Warn(m) && m@
            == refusal_text(blocked->0)),
        !ground_refused && blocked is None ==> show == if faded {
            match preview {
                Some(true) => HintShow::Preview,
                Some(false) => HintShow::Hide,
                None => HintShow::Keep,
            }
        } else {
            HintShow::Keep
        },
{
    if ground_refused {
        return HintShow::Warn("NO GROUND HERE · chunk not loaded");
    }
    match blocked {
        Some(reason) => HintShow::Warn(block_message(reason)),
        None => {
            if !faded {
                return HintShow::Keep;
            }
            match preview {
                Some(true) => HintShow::Preview,
                Some(false) => HintShow::Hide,
                None => HintShow::Keep,
            }
        },
    }
}

} // verus!
