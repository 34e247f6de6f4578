//! Who may decide (the decision slot and its single entry point), and which pending
//! action an undo takes back.
//!
//! The slot holds a **decision**, not a phase:
//!
//! | state | meaning |
//! | :--- | :--- |
//! | `Idle { intent: None }` | free, may declare |
//! | `Idle { intent: Some(..) }` | decided, not on the timeline yet |
//! | `Executing { until }` | on the timeline, busy until `until` |
//!
//! `until` is a reading of the engine's virtual clock; the slot's own rules never
//! read it, so the clock's representation is the caller's choice (`T`).

use vstd::prelude::*;

use crate::skills::defs::AbilityId;
use crate::units::{Cell, UnitId};

use super::events::{ActionBlocked, BlockReason};

verus! {

/// What an intent aims at (design intent, not geometry).
#[derive(Debug, Clone, Copy, PartialEq, Eq, Structural)]
pub enum Target {
    /// No target (jump; parry finds its own threat).
    Untargeted,
    /// One locked cell (fireball landing, move destination).
    Cell(Cell),
    /// A single unit (the attack a parry is bound to).
    Entity(UnitId),
}

/// A decision that is made but not yet on the timeline.
#[derive(Debug, Clone, Copy, PartialEq, Eq, Structural)]
pub struct Intent {
    /// What this move is.
    pub ability: AbilityId,
    /// Where it goes.
    pub target: Target,
}

/// An actor's decision slot.
#[derive(Debug, Clone, Copy, PartialEq)]
pub enum DecisionSlot<T> {
    /// Free: no intent = not decided yet; an intent = decided, not yet scheduled.
    Idle { intent: Option<Intent> },
    /// This move is on the timeline; `until` = when the actor may decide again.
    Executing { until: T },
}

/// Has this actor already decided (so the world need not wait for it)?
pub open spec fn slot_ready<T>(slot: DecisionSlot<T>) -> bool {
    match slot {
        DecisionSlot::Executing { .. } => true,
        DecisionSlot::Idle { intent } => intent is Some,
    }
}

/// May this actor take the slot now (free **and** no intent yet)?
pub open spec fn slot_idle<T>(slot: DecisionSlot<T>) -> bool {
    slot matches DecisionSlot::Idle { intent: None }
}

impl<T> DecisionSlot<T> {
    /// Born free and undecided: in a turnless model anyone may decide at the start.
    pub fn idle() -> (slot: DecisionSlot<T>)
        ensures
            slot == (DecisionSlot::<T>::Idle { intent: None }),
    {
        DecisionSlot::Idle { intent: None }
    }

    /// Whether this actor **has already decided**: the only thing the awaiting pause
    /// looks at.
    ///
    /// `Executing` → yes (busy with a move); `Idle { Some }` → yes (decided, not
    /// scheduled); `Idle { None }` → no (the world should wait for it).
    pub fn ready(&self) -> (r: bool)
        ensures
            r == slot_ready(*self),
    {
        match self {
            DecisionSlot::Executing { .. } => true,
            DecisionSlot::Idle { intent } => intent.is_some(),
        }
    }

    /// Whether an action may be declared now (= free **and** no intent yet).
    pub fn is_idle(&self) -> (r: bool)
        ensures
            r == slot_idle(*self),
    {
        match self {
            DecisionSlot::Idle { intent: None } => true,
            _ => false,
        }
    }
}

impl<T> Default for DecisionSlot<T> {
    /// Born free and undecided.
    fn default() -> (slot: DecisionSlot<T>)
        ensures
            slot == (DecisionSlot::<T>::Idle { intent: None }),
    {
        DecisionSlot::Idle { intent: None }
    }
}

/// The two predicates answer different questions, and are exact complements:
/// an actor is waited for exactly when it may declare.
pub proof fn lemma_ready_is_not_idle<T>(slot: DecisionSlot<T>)
    ensures
        slot_ready(slot) <==> !slot_idle(slot),
        !slot_ready(DecisionSlot::<T>::Idle { intent: None }),
        slot_idle(DecisionSlot::<T>::Idle { intent: None }),
{
}

/// The index of the first free slot, if any.
pub open spec fn first_idle_index<T>(slots: Seq<DecisionSlot<T>>) -> Option<int>
    decreases slots.len(),
{
    if slots.len() == 0 {
        None
    } else {
        match first_idle_index(slots.drop_last()) {
            Some(i) => Some(i),
            None => if slot_idle(slots.last()) {
                Some(slots.len() - 1)
            } else {
                None
            },
        }
    }
}

/// The single entry point for taking a decision slot: the first actor that is free
/// and undecided; when there is none, the reason the HUD should show
/// ([`ActionBlocked::busy`]).
pub fn first_ready<T>(slots: &[DecisionSlot<T>]) -> (r: Result<usize, ActionBlocked>)
    ensures
        r matches Ok(i) ==> i < slots@.len() && slot_idle(slots@[i as int]) && forall|k: int|
            0 <= k < i ==> !slot_idle(#[trigger] slots@[k]),
        r matches Err(b) ==> b.reason == BlockReason::Busy && forall|k: int|
            0 <= k < slots@.len() ==> !slot_idle(#[trigger] slots@[k]),
{
    let mut i: usize = 0;
    while i < slots.len()
        invariant
            0 <= i <= slots@.len(),
            forall|k: int| 0 <= k < i ==> !slot_idle(#[trigger] slots@[k]),
        decreases slots@.len() - i,
    {
        if slots[i].is_idle() {
            return Ok(i);
        }
        i = i + 1;
    }
    Err(ActionBlocked::busy())
}

/// What the undo system knows about one pending action.
#[derive(Debug, Clone, Copy, PartialEq, Eq, Structural)]
pub struct UndoCandidate {
    /// The action has not come due yet (`now < execute_at`).
    pub pending: bool,
    /// Its actor is driven by player input.
    pub input_driven: bool,
    /// The action does not carry the "never cancel" rule.
    pub cancellable: bool,
}

/// Can this action be taken back by the player?
pub open spec fn undoable(c: UndoCandidate) -> bool {
    c.pending && c.input_driven && c.cancellable
}

/// Which action an undo takes back.
///
/// Two sources ask for an undo: an explicit request (right click) and the player
/// acting this frame (changing their mind). Without either, nothing is undone. With
/// one, the first action that has not come due, belongs to an input-driven actor and
/// may be cancelled is taken back; there is at most one per decision.
pub fn choose_undo(explicit: bool, player_took_over: bool, candidates: &[UndoCandidate]) -> (r:
    Option<usize>)
    ensures
        !explicit && !player_took_over ==> r is None,
        (explicit || player_took_over) ==> (r matches Some(i) ==> i < candidates@.len()
            && undoable(candidates@[i as int]) && forall|k: int|
            0 <= k < i ==> !undoable(#[trigger] candidates@[k])),
        (explicit || player_took_over) ==> (r is None ==> forall|k: int|
            0 <= k < candidates@.len() ==> !undoable(#[trigger] candidates@[k])),
{
    if !explicit && !player_took_over {
        return None;
    }
    let mut i: usize = 0;
    while i < candidates.len()
        invariant
            explicit || player_took_over,
            0 <= i <= candidates@.len(),
            forall|k: int| 0 <= k < i ==> !undoable(#[trigger] candidates@[k]),
        decreases candidates@.len() - i,
    {
        let c = candidates[i];
        if c.pending && c.input_driven && c.cancellable {
            return Some(i);
        }
        i = i + 1;
    }
    None
}

} // verus!
