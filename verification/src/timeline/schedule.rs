//! The cancellation rule carried by an action.

use vstd::prelude::*;

verus! {

/// How an action may be cancelled.
#[derive(Debug, Clone, Copy, PartialEq, Eq, Structural)]
pub enum Cancellable {
    /// Free to undo: nothing was paid, nothing is charged.
    Free,
    /// Undoing refunds `refund` and then charges `penalty` (for actions that paid up
    /// front).
    Cost { refund: u32, penalty: u32 },
    /// Never undone (a jump: once airborne, nobody cuts in).
    Never,
}

impl Default for Cancellable {
    /// By default an action is free to undo.
    fn default() -> (c: Cancellable)
        ensures
            c == Cancellable::Free,
    {
        Cancellable::Free
    }
}

impl Cancellable {
    /// What an undo gives back.
    pub fn refund(self) -> (r: u32)
        ensures
            r == (match self {
                Cancellable::Cost { refund, .. } => refund,
                _ => 0u32,
            }),
    {
        match self {
            Cancellable::Cost { refund, .. } => refund,
            Cancellable::Free | Cancellable::Never => 0,
        }
    }

    /// What an undo itself costs.
    pub fn penalty(self) -> (r: u32)
        ensures
            r == (match self {
                Cancellable::Cost { penalty, .. } => penalty,
                _ => 0u32,
            }),
    {
        match self {
            Cancellable::Cost { penalty, .. } => penalty,
            Cancellable::Free | Cancellable::Never => 0,
        }
    }
}

} // verus!
