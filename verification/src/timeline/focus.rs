//! Focus: a unit's reaction resource. One point buys one declaration with its windup
//! cut to zero. Every unit carries its own pool, so enemies can spend it too.

use vstd::prelude::*;

verus! {

/// Focus cap.
pub const FOCUS_MAX: u32 = 3;

/// A unit's reaction resource: **1 Focus = one declaration with no windup**.
#[derive(Debug, Clone, Copy, PartialEq, Eq, Structural)]
pub struct Focus {
    pub current: u32,
    pub max: u32,
}

impl Default for Focus {
    /// A full pool at the cap.
    fn default() -> (f: Focus)
        ensures
            f.current == FOCUS_MAX,
            f.max == FOCUS_MAX,
    {
        Focus { current: FOCUS_MAX, max: FOCUS_MAX }
    }
}

/// The pool after one point is recovered (capped at `max`).
pub open spec fn recovered(f: Focus) -> Focus {
    Focus {
        current: if f.current + 1 <= f.max {
            (f.current + 1) as u32
        } else {
            f.max
        },
        max: f.max,
    }
}

impl Focus {
    /// Is there a point left?
    pub fn available(&self) -> (r: bool)
        ensures
            r == (self.current > 0),
    {
        self.current > 0
    }

    /// Spend one point; with none left, return `false` and change nothing (the
    /// caller then falls back to the normal windup).
    pub fn spend(&mut self) -> (spent: bool)
        ensures
            spent == (old(self).current > 0),
            spent ==> final(self).current == old(self).current - 1,
            !spent ==> final(self).current == old(self).current,
            final(self).max == old(self).max,
    {
        if !self.available() {
            return false;
        }
        self.current = self.current - 1;
        true
    }

    /// Recover one point, capped at `max`.
    pub fn recover(&mut self)
        requires
            old(self).current < u32::MAX,
        ensures
            *final(self) == recovered(*old(self)),
    {
        let next = self.current + 1;
        self.current = if next <= self.max {
            next
        } else {
            self.max
        };
    }
}

/// Recovery never goes past the cap, and a full pool stays full.
pub proof fn lemma_recover_caps(f: Focus)
    requires
        f.current <= f.max,
    ensures
        recovered(f).current <= f.max,
        recovered(f).current == f.max || recovered(f).current == f.current + 1,
        f.current == f.max ==> recovered(f) == f,
{
}

/// Spending a point and recovering one gives the pool back as it was.
pub proof fn lemma_spend_then_recover_restores(f: Focus)
    requires
        0 < f.current <= f.max,
    ensures
        recovered(Focus { current: (f.current - 1) as u32, max: f.max }) == f,
{
}

/// Did the player ask this frame to pay Focus for the next declaration?
#[derive(Debug, Default, Clone, Copy, PartialEq, Eq, Structural)]
pub struct PendingFocus(pub bool);

impl PendingFocus {
    /// Whether this frame's declaration should be paid with Focus.
    pub fn wants(&self) -> (r: bool)
        ensures
            r == self.0,
    {
        self.0
    }
}

} // verus!
