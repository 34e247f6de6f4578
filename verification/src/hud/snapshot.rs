//! The HUD's snapshots: each frame the HUD works out what it would show, compares it
//! with what it showed last, and touches the UI only when something changed (while
//! the world is frozen, nothing does, and no UI node is written at all).

use vstd::prelude::*;

use crate::text::text_order;

use super::skill_bar::CounterHint;

verus! {

/// The texts of a list of strings.
pub open spec fn string_texts(strings: Seq<String>) -> Seq<Seq<char>> {
    Seq::new(strings.len(), |i: int| strings[i]@)
}

/// Two lists of strings read the same.
fn same_texts(a: &Vec<String>, b: &Vec<String>) -> (r: bool)
    ensures
        r == (string_texts(a@) == string_texts(b@)),
{
    if a.len() != b.len() {
        proof {
            assert(string_texts(a@).len() != string_texts(b@).len());
        }
        return false;
    }
    let mut i: usize = 0;
    while i < a.len()
        invariant
            a@.len() == b@.len(),
            0 <= i <= a@.len(),
            forall|k: int| 0 <= k < i ==> a@[k]@ == b@[k]@,
        decreases a@.len() - i,
    {
        if text_order(a[i].as_str(), b[i].as_str()) != 0 {
            proof {
                assert(string_texts(a@)[i as int] != string_texts(b@)[i as int]);
            }
            return false;
        }
        i = i + 1;
    }
    proof {
        assert(string_texts(a@) =~= string_texts(b@));
    }
    true
}

/// The texts a group of labels showed last (the action lines, one per side).
pub struct TextSnapshot {
    texts: Vec<String>,
}

impl View for TextSnapshot {
    type V = Seq<Seq<char>>;

    closed spec fn view(&self) -> Seq<Seq<char>> {
        string_texts(self.texts@)
    }
}

impl TextSnapshot {
    /// Nothing shown yet.
    pub fn new() -> (s: TextSnapshot)
        ensures
            s@.len() == 0,
    {
        TextSnapshot { texts: Vec::new() }
    }

    /// Record this frame's texts; `true` when they differ from the last ones (the
    /// labels must be rewritten), `false` when nothing changed (leave the UI alone).
    pub fn refresh(&mut self, next: Vec<String>) -> (changed: bool)
        ensures
            changed == (old(self)@ != string_texts(next@)),
            final(self)@ == string_texts(next@),
    {
        let same = same_texts(&self.texts, &next);
        self.texts = next;
        !same
    }
}

/// What the skill bar showed last: which slot is selected and hovered, which slots
/// are affordable, and each slot's counter hint.
pub struct SkillBarCache {
    pub selected: usize,
    pub hovered: Option<usize>,
    pub affordable: Vec<bool>,
    pub counters: Vec<CounterHint>,
}

impl SkillBarCache {
    /// The state shown, as plain values.
    pub open spec fn shown(&self) -> (usize, Option<usize>, Seq<bool>, Seq<CounterHint>) {
        (self.selected, self.hovered, self.affordable@, self.counters@)
    }

    /// Record this frame's bar; `true` when it differs from the last one.
    pub fn refresh(&mut self, next: SkillBarCache) -> (changed: bool)
        ensures
            changed == (old(self).shown() != next.shown()),
            final(self).shown() == next.shown(),
    {
        let mut same = self.selected == next.selected && self.hovered == next.hovered
            && self.affordable.len() == next.affordable.len() && self.counters.len()
            == next.counters.len();
        if same {
            let mut i: usize = 0;
            while i < self.affordable.len()
                invariant
                    self.affordable@.len() == next.affordable@.len(),
                    0 <= i <= self.affordable@.len(),
                    same == forall|k: int| 0 <= k < i ==> self.affordable@[k] == next.affordable@[k],
                decreases self.affordable@.len() - i,
            {
                if self.affordable[i] != next.affordable[i] {
                    same = false;
                }
                i = i + 1;
            }
            let mut j: usize = 0;
            while j < self.counters.len()
                invariant
                    self.counters@.len() == next.counters@.len(),
                    0 <= j <= self.counters@.len(),
                    same == ((forall|k: int|
                        0 <= k < self.affordable@.len() ==> self.affordable@[k]
                            == next.affordable@[k]) && forall|k: int|
                        0 <= k < j ==> self.counters@[k] == next.counters@[k]),
                decreases self.counters@.len() - j,
            {
                if self.counters[j] != next.counters[j] {
                    same = false;
                }
                j = j + 1;
            }
            proof {
                if same {
                    assert(self.affordable@ =~= next.affordable@);
                    assert(self.counters@ =~= next.counters@);
                }
            }
        } else {
            proof {
                if self.affordable@.len() != next.affordable@.len() {
                    assert(self.affordable@ != next.affordable@);
                }
                if self.counters@.len() != next.counters@.len() {
                    assert(self.counters@ != next.counters@);
                }
            }
        }
        *self = next;
        !same
    }
}

/// What the log panel showed last: folded or not, and the body text.
pub struct LogCache {
    collapsed: bool,
    body: String,
}

impl LogCache {
    /// The state shown.
    pub closed spec fn shown(&self) -> (bool, Seq<char>) {
        (self.collapsed, self.body@)
    }

    /// Nothing shown yet: unfolded, empty body.
    pub fn new() -> (c: LogCache)
        ensures
            c.shown() == (false, Seq::<char>::empty()),
    {
        proof {
            reveal_strlit("");
        }
        LogCache { collapsed: false, body: String::from_str("") }
    }

    /// Record this frame's panel; `true` when it differs from the last one.
    pub fn refresh(&mut self, collapsed: bool, body: String) -> (changed: bool)
        ensures
            changed == (old(self).shown() != (collapsed, body@)),
            final(self).shown() == (collapsed, body@),
    {
        let same = self.collapsed == collapsed && text_order(self.body.as_str(), body.as_str()) == 0;
        self.collapsed = collapsed;
        self.body = body;
        !same
    }
}

} // verus!
