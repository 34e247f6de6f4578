//! When the world freezes: the set of reasons asserted this frame, the requests that
//! build it, and the one step that turns them into "paused or running".
//!
//! The freeze criterion is a single one: **this frame's reason set is non-empty**
//! (or the player's own manual pause is on). Whoever still wants the world stopped
//! asserts a reason every frame; a reason that is no longer asserted is gone the next
//! frame, so nothing is left frozen by a reason nobody removed, and several reasons
//! (awaiting input / manual / threat) stack without overriding each other.

use vstd::prelude::*;

use crate::text::{text_lt, text_order, lemma_text_lt_asymmetric, lemma_text_lt_irreflexive, lemma_text_lt_transitive, lemma_text_lt_total};

use super::decision::{DecisionSlot, slot_idle};

verus! {

/// A pause request for this frame.
///
/// | variant | timing | written by |
/// | :--- | :--- | :--- |
/// | `Pause(reason)` | asserted **every frame**; not written again, gone next frame | the domains (awaiting a decision / a threat) |
/// | `Toggle` | **flips** the world's freeze state | input (the key the player pressed) |
#[derive(Debug, Clone, Copy, PartialEq, Eq)]
pub enum PauseRequest {
    /// The world should still be stopped this frame, because of `reason`.
    Pause(&'static str),
    /// Flip the world's freeze: frozen → released, running → stopped.
    Toggle,
}

/// Pause reason: the manual pause.
pub const MANUAL: &'static str = "manual";
/// Pause reason: an input-driven actor has **not decided yet**; the world waits.
pub const AWAITING: &'static str = "awaiting";
/// Pause reason: a threat aims at the player.
pub const THREAT: &'static str = "threat";
/// Pause reason: an input-driven actor's decision slot is empty.
pub const SLOT_EMPTY: &'static str = "slot_empty";

/// The texts of a list of labels.
pub open spec fn texts(labels: Seq<&'static str>) -> Seq<Seq<char>> {
    Seq::new(labels.len(), |i: int| labels[i]@)
}

/// Every text comes strictly before the next ones (so none occurs twice).
pub open spec fn strictly_sorted(s: Seq<Seq<char>>) -> bool {
    forall|i: int, j: int| 0 <= i < j < s.len() ==> text_lt(#[trigger] s[i], #[trigger] s[j])
}

/// This frame's pause reasons: the game's single freeze criterion
/// (`frozen ⟺ non-empty`).
///
/// The reasons are kept in label order, so "the same reasons" always read as the
/// same line on the HUD.
pub struct PauseReasons {
    labels: Vec<&'static str>,
}

impl View for PauseReasons {
    type V = Seq<Seq<char>>;

    /// The reasons' texts, in label order.
    closed spec fn view(&self) -> Seq<Seq<char>> {
        texts(self.labels@)
    }
}

/// Inserting a text that is not there yet, at the first place whose text comes after
/// it, keeps a sorted list sorted.
proof fn lemma_sorted_insert(s: Seq<Seq<char>>, p: int, x: Seq<char>)
    requires
        strictly_sorted(s),
        0 <= p <= s.len(),
        forall|k: int| 0 <= k < p ==> text_lt(#[trigger] s[k], x),
        p < s.len() ==> text_lt(x, s[p]),
    ensures
        strictly_sorted(s.insert(p, x)),
{
    let t = s.insert(p, x);
    assert forall|i: int, j: int| 0 <= i < j < t.len() implies text_lt(
        #[trigger] t[i],
        #[trigger] t[j],
    ) by {
        if j < p {
            assert(t[i] == s[i] && t[j] == s[j]);
        } else if j == p {
            assert(t[i] == s[i]);
        } else if i < p {
            assert(t[i] == s[i] && t[j] == s[j - 1]);
            if j - 1 > p {
                lemma_text_lt_transitive(x, s[p], s[j - 1]);
            }
            lemma_text_lt_transitive(s[i], x, s[j - 1]);
        } else if i == p {
            assert(t[j] == s[j - 1]);
            if j - 1 > p {
                lemma_text_lt_transitive(x, s[p], s[j - 1]);
            }
        } else {
            assert(t[i] == s[i - 1] && t[j] == s[j - 1]);
        }
    }
}

/// Removing an element keeps a sorted list sorted.
proof fn lemma_sorted_remove(s: Seq<Seq<char>>, p: int)
    requires
        strictly_sorted(s),
        0 <= p < s.len(),
    ensures
        strictly_sorted(s.remove(p)),
{
    let t = s.remove(p);
    assert forall|i: int, j: int| 0 <= i < j < t.len() implies text_lt(
        #[trigger] t[i],
        #[trigger] t[j],
    ) by {
        if j < p {
            assert(t[i] == s[i] && t[j] == s[j]);
        } else if i < p {
            assert(t[i] == s[i] && t[j] == s[j + 1]);
        } else {
            assert(t[i] == s[i + 1] && t[j] == s[j + 1]);
        }
    }
}

/// Two sorted lists with the same texts are the same list: the view of a
/// [`PauseReasons`] is determined by which reasons it holds.
pub proof fn lemma_sorted_lists_with_same_texts_are_equal(a: Seq<Seq<char>>, b: Seq<Seq<char>>)
    requires
        strictly_sorted(a),
        strictly_sorted(b),
        forall|x: Seq<char>| a.contains(x) <==> b.contains(x),
    ensures
        a == b,
    decreases a.len() + b.len(),
{
    if a.len() == 0 {
        if b.len() > 0 {
            assert(b.contains(b[0]));
        }
        assert(a =~= b);
    } else if b.len() == 0 {
        assert(a.contains(a[0]));
    } else {
        // The first elements are the smallest of each list, so they are equal.
        assert(a.contains(a[0]));
        assert(b.contains(b[0]));
        assert(a[0] == b[0]) by {
            let i = choose|i: int| 0 <= i < b.len() && b[i] == a[0];
            let j = choose|j: int| 0 <= j < a.len() && a[j] == b[0];
            if a[0] != b[0] {
                assert(i > 0 && j > 0);
                lemma_text_lt_asymmetric(a[0], a[j]);
                assert(text_lt(b[0], b[i]));
            }
        }
        let ta = a.drop_first();
        let tb = b.drop_first();
        assert forall|x: Seq<char>| ta.contains(x) <==> tb.contains(x) by {
            if ta.contains(x) {
                let i = choose|i: int| 0 <= i < ta.len() && ta[i] == x;
                assert(a[i + 1] == x);
                assert(a.contains(x));
                assert(text_lt(a[0], a[i + 1]));
                lemma_text_lt_irreflexive(x);
                let j = choose|j: int| 0 <= j < b.len() && b[j] == x;
                assert(j != 0);
                assert(tb[j - 1] == x);
            }
            if tb.contains(x) {
                let i = choose|i: int| 0 <= i < tb.len() && tb[i] == x;
                assert(b[i + 1] == x);
                assert(b.contains(x));
                assert(text_lt(b[0], b[i + 1]));
                lemma_text_lt_irreflexive(x);
                let j = choose|j: int| 0 <= j < a.len() && a[j] == x;
                assert(j != 0);
                assert(ta[j - 1] == x);
            }
        }
        assert(strictly_sorted(ta)) by {
            assert forall|i: int, j: int| 0 <= i < j < ta.len() implies text_lt(
                #[trigger] ta[i],
                #[trigger] ta[j],
            ) by {
                assert(ta[i] == a[i + 1] && ta[j] == a[j + 1]);
            }
        }
        assert(strictly_sorted(tb)) by {
            assert forall|i: int, j: int| 0 <= i < j < tb.len() implies text_lt(
                #[trigger] tb[i],
                #[trigger] tb[j],
            ) by {
                assert(tb[i] == b[i + 1] && tb[j] == b[j + 1]);
            }
        }
        lemma_sorted_lists_with_same_texts_are_equal(ta, tb);
        assert(a =~= seq![a[0]] + ta);
        assert(b =~= seq![b[0]] + tb);
    }
}

impl PauseReasons {
    /// The labels are kept in strict label order.
    #[verifier::type_invariant]
    spec fn sorted(&self) -> bool {
        strictly_sorted(texts(self.labels@))
    }

    /// No reason at all: the world runs.
    pub fn new() -> (r: PauseReasons)
        ensures
            r@.len() == 0,
            strictly_sorted(r@),
    {
        PauseReasons { labels: Vec::new() }
    }

    /// Is the world frozen (is there any reason)?
    pub fn is_frozen(&self) -> (r: bool)
        ensures
            r == (self@.len() > 0),
            strictly_sorted(self@),
    {
        proof {
            use_type_invariant(self);
        }
        self.labels.len() > 0
    }

    /// Is this reason asserted?
    pub fn contains(&self, reason: &str) -> (r: bool)
        ensures
            r == self@.contains(reason@),
    {
        let mut i: usize = 0;
        while i < self.labels.len()
            invariant
                0 <= i <= self.labels@.len(),
                forall|k: int| 0 <= k < i ==> self.labels@[k]@ != reason@,
            decreases self.labels@.len() - i,
        {
            if text_order(self.labels[i], reason) == 0 {
                proof {
                    assert(self@[i as int] == reason@);
                }
                return true;
            }
            i = i + 1;
        }
        proof {
            if self@.contains(reason@) {
                let k = choose|k: int| 0 <= k < self@.len() && self@[k] == reason@;
                assert(self.labels@[k]@ == reason@);
            }
        }
        false
    }

    /// Assert a reason (already there: nothing changes).
    pub fn insert(&mut self, reason: &'static str)
        ensures
            forall|x: Seq<char>|
                final(self)@.contains(x) <==> (old(self)@.contains(x) || x == reason@),
            old(self)@.contains(reason@) ==> final(self)@ == old(self)@,
            strictly_sorted(final(self)@),
    {
        proof {
            use_type_invariant(&*self);
        }
        let mut labels: Vec<&'static str> = Vec::new();
        std::mem::swap(&mut labels, &mut self.labels);
        let ghost before = labels@;
        let mut p: usize = 0;
        while p < labels.len() && text_order(labels[p], reason) < 0
            invariant
                labels@ == before,
                texts(before) == old(self)@,
                strictly_sorted(texts(before)),
                0 <= p <= before.len(),
                forall|k: int| 0 <= k < p ==> text_lt(#[trigger] before[k]@, reason@),
            decreases before.len() - p,
        {
            p = p + 1;
        }
        let ghost s = texts(before);
        if p < labels.len() && text_order(labels[p], reason) == 0 {
            proof {
                assert(s[p as int] == reason@);
                assert(s.contains(reason@));
            }
            self.labels = labels;
            return;
        }
        proof {
            assert forall|k: int| 0 <= k < p implies text_lt(#[trigger] s[k], reason@) by {
                assert(s[k] == before[k]@);
            }
            if p < before.len() {
                lemma_text_lt_total(before[p as int]@, reason@);
                assert(text_lt(reason@, s[p as int]));
            }
            lemma_sorted_insert(s, p as int, reason@);
        }
        labels.insert(p, reason);
        proof {
            assert(texts(labels@) =~= s.insert(p as int, reason@));
            assert forall|x: Seq<char>| #[trigger] texts(labels@).contains(x) <==> (s.contains(x) || x
                == reason@) by {
                let t = s.insert(p as int, reason@);
                if t.contains(x) {
                    let i = choose|i: int| 0 <= i < t.len() && t[i] == x;
                    if i < p {
                        assert(s[i] == x);
                    } else if i > p {
                        assert(s[i - 1] == x);
                    }
                }
                if s.contains(x) {
                    let i = choose|i: int| 0 <= i < s.len() && s[i] == x;
                    if i < p {
                        assert(t[i] == x);
                    } else {
                        assert(t[i + 1] == x);
                    }
                }
                if x == reason@ {
                    assert(t[p as int] == x);
                }
            }
            if s.contains(reason@) {
                let i = choose|i: int| 0 <= i < s.len() && s[i] == reason@;
                if i < p {
                    lemma_text_lt_irreflexive(reason@);
                } else {
                    if i > p {
                        lemma_text_lt_transitive(reason@, s[p as int], s[i]);
                    }
                    lemma_text_lt_irreflexive(reason@);
                }
            }
        }
        self.labels = labels;
    }

    /// Withdraw a reason (absent: nothing changes).
    pub fn remove(&mut self, reason: &str)
        ensures
            forall|x: Seq<char>|
                final(self)@.contains(x) <==> (old(self)@.contains(x) && x != reason@),
            !old(self)@.contains(reason@) ==> final(self)@ == old(self)@,
            strictly_sorted(final(self)@),
    {
        proof {
            use_type_invariant(&*self);
        }
        let mut labels: Vec<&'static str> = Vec::new();
        std::mem::swap(&mut labels, &mut self.labels);
        let ghost before = labels@;
        let ghost s = texts(before);
        let mut i: usize = 0;
        while i < labels.len()
            invariant
                labels@ == before,
                s == texts(before),
                s == old(self)@,
                strictly_sorted(s),
                0 <= i <= before.len(),
                forall|k: int| 0 <= k < i ==> before[k]@ != reason@,
            decreases before.len() - i,
        {
            if text_order(labels[i], reason) == 0 {
                proof {
                    assert(s[i as int] == reason@);
                    assert(s.contains(reason@));
                    lemma_sorted_remove(s, i as int);
                }
                labels.remove(i);
                proof {
                    assert(texts(labels@) =~= s.remove(i as int));
                    assert forall|x: Seq<char>| #[trigger] texts(labels@).contains(x) <==> (
                    s.contains(x) && x != reason@) by {
                        let t = s.remove(i as int);
                        if t.contains(x) {
                            let j = choose|j: int| 0 <= j < t.len() && t[j] == x;
                            if j < i {
                                assert(s[j] == x);
                                lemma_text_lt_irreflexive(x);
                            } else {
                                assert(s[j + 1] == x);
                                assert(text_lt(s[i as int], s[j + 1]));
                                lemma_text_lt_irreflexive(x);
                            }
                        }
                        if s.contains(x) && x != reason@ {
                            let j = choose|j: int| 0 <= j < s.len() && s[j] == x;
                            if j < i {
                                assert(t[j] == x);
                            } else {
                                assert(j != i);
                                assert(t[j - 1] == x);
                            }
                        }
                    }
                }
                self.labels = labels;
                return;
            }
            i = i + 1;
        }
        proof {
            assert forall|x: Seq<char>| #[trigger] s.contains(x) implies x != reason@ by {
                let j = choose|j: int| 0 <= j < s.len() && s[j] == x;
                assert(before[j]@ == x);
            }
        }
        self.labels = labels;
    }

    /// Withdraw every reason (each frame rebuilds from here).
    pub fn clear(&mut self)
        ensures
            final(self)@.len() == 0,
            strictly_sorted(final(self)@),
    {
        self.labels = Vec::new();
    }

    /// The reasons in label order (for the HUD: the same reasons always read the same).
    pub fn labels(&self) -> (r: Vec<&'static str>)
        ensures
            texts(r@) == self@,
            strictly_sorted(texts(r@)),
    {
        proof {
            use_type_invariant(self);
        }
        let mut out: Vec<&'static str> = Vec::new();
        let mut i: usize = 0;
        while i < self.labels.len()
            invariant
                0 <= i <= self.labels@.len(),
                out@ =~= self.labels@.take(i as int),
            decreases self.labels@.len() - i,
        {
            out.push(self.labels[i]);
            i = i + 1;
        }
        proof {
            assert(out@ =~= self.labels@);
            assert(texts(out@) =~= texts(self.labels@));
        }
        out
    }
}

impl Default for PauseReasons {
    /// No reason at all: the world runs.
    fn default() -> (r: PauseReasons)
        ensures
            r@.len() == 0,
    {
        PauseReasons::new()
    }
}

/// The player's manual pause: **one boolean**, kept apart from the reasons (the set
/// only answers "why is **someone else** stopping the clock").
#[derive(Debug, Default, Clone, Copy, PartialEq, Eq, Structural)]
pub struct ManualPause(pub bool);

/// Is an input-driven actor **still undecided**? Then the world stops and waits for it.
///
/// The criterion is "has not decided" (a free, intent-less slot), not "slot empty":
/// once the player declares, the slot is taken and the world must not wait any more.
/// Without input-driven actors nothing is asserted, so the world is not frozen.
///
/// Asserted **every frame** while it holds; once the player acts, the reason simply
/// stops being asserted and leaves the set by itself.
pub fn compute_player_awaiting<T>(slots: &[DecisionSlot<T>]) -> (request: Option<PauseRequest>)
    ensures
        request is Some <==> exists|i: int| 0 <= i < slots@.len() && slot_idle(#[trigger] slots@[i]),
        request matches Some(r) ==> r == PauseRequest::Pause(AWAITING),
{
    let mut i: usize = 0;
    while i < slots.len()
        invariant
            0 <= i <= slots@.len(),
            forall|k: int| 0 <= k < i ==> !slot_idle(#[trigger] slots@[k]),
        decreases slots@.len() - i,
    {
        if slots[i].is_idle() {
            return Some(PauseRequest::Pause(AWAITING));
        }
        i = i + 1;
    }
    None
}

/// Some request of this frame asserts this reason.
pub open spec fn asserted(requests: Seq<PauseRequest>, reason: Seq<char>) -> bool {
    exists|i: int|
        0 <= i < requests.len() && (#[trigger] requests[i] matches PauseRequest::Pause(r) && r@
            == reason)
}

/// Some request of this frame is a toggle.
pub open spec fn toggled(requests: Seq<PauseRequest>) -> bool {
    exists|i: int| 0 <= i < requests.len() && #[trigger] requests[i] is Toggle
}

/// **Pause requests → this frame's freeze state**: the single place that handles
/// them. Returns whether the clock must be stopped.
///
/// 1. **Collect** this frame's assertions into the reason set (others' reasons only).
/// 2. **Toggle** the manual pause, judged by the freeze state **on entry**
///    (`was_frozen`): frozen → the player releases the world (the set is cleared on
///    the spot and the manual pause is off); running → the manual pause goes on.
/// 3. **Stop the clock** exactly when reasons remain or the manual pause is on.
pub fn process_pause_requests(
    requests: &[PauseRequest],
    was_frozen: bool,
    reasons: &mut PauseReasons,
    manual: &mut ManualPause,
) -> (paused: bool)
    ensures
        paused == (final(reasons)@.len() > 0 || final(manual).0),
        toggled(requests@) && was_frozen ==> final(reasons)@.len() == 0 && !final(manual).0
            && !paused,
        toggled(requests@) && !was_frozen ==> final(manual).0 && paused,
        !(toggled(requests@) && was_frozen) ==> forall|x: Seq<char>|
            final(reasons)@.contains(x) <==> asserted(requests@, x),
        !toggled(requests@) ==> *final(manual) == *old(manual),
{
    reasons.clear();
    let mut toggle = false;
    let mut i: usize = 0;
    while i < requests.len()
        invariant
            0 <= i <= requests@.len(),
            forall|x: Seq<char>|
                reasons@.contains(x) <==> exists|k: int|
                    0 <= k < i && (#[trigger] requests@[k] matches PauseRequest::Pause(r) && r@
                        == x),
            toggle <==> exists|k: int| 0 <= k < i && #[trigger] requests@[k] is Toggle,
        decreases requests@.len() - i,
    {
        match requests[i] {
            PauseRequest::Pause(reason) => {
                reasons.insert(reason);
                proof {
                    assert forall|x: Seq<char>| reasons@.contains(x) <==> exists|k: int|
                        0 <= k < i + 1 && (#[trigger] requests@[k] matches PauseRequest::Pause(r)
                            && r@ == x) by {
                        if x == reason@ {
                            assert(requests@[i as int] matches PauseRequest::Pause(r) && r@ == x);
                        }
                    }
                }
            },
            PauseRequest::Toggle => {
                toggle = true;
                proof {
                    assert forall|x: Seq<char>| reasons@.contains(x) <==> exists|k: int|
                        0 <= k < i + 1 && (#[trigger] requests@[k] matches PauseRequest::Pause(r)
                            && r@ == x) by {
                        if exists|k: int|
                            0 <= k < i + 1 && (#[trigger] requests@[k] matches PauseRequest::Pause(
                                r,
                            ) && r@ == x) {
                            let k = choose|k: int|
                                0 <= k < i + 1 && (#[trigger] requests@[k] matches PauseRequest::Pause(
                                    r,
                                ) && r@ == x);
                            assert(k != i);
                        }
                    }
                }
            },
        }
        i = i + 1;
    }
    proof {
        assert(requests@.take(requests@.len() as int) =~= requests@);
    }
    if toggle {
        if was_frozen {
            reasons.clear();
            manual.0 = false;
        } else {
            manual.0 = true;
        }
    }
    reasons.is_frozen() || manual.0
}

} // verus!
