//! How a skill-bar slot is drawn: which fill, which edge and which badge tone, from
//! whether it is affordable, selected, hovered, and whether it is a counter answer.
//! The palette itself (the colours) belongs to the renderer.

use vstd::prelude::*;

use crate::skills::defs::{AbilityId, CounterCost};
use crate::text::{decimal, unsigned_text};

verus! {

/// Whether a slot is a counter suggestion right now.
///
/// Three states, not a boolean: an unaffordable counter is still drawn (differently),
/// because "I could have rolled, but I lack Focus" is information too.
#[derive(Debug, Clone, Copy, PartialEq, Eq, Structural)]
pub enum CounterHint {
    /// Not a counter suggestion (no threat window, or this move cannot counter).
    Off,
    /// A counter suggestion the player can pay for: highlighted.
    Ready,
    /// A counter suggestion the player cannot pay for: still marked.
    TooExpensive,
}

impl Default for CounterHint {
    fn default() -> (h: CounterHint)
        ensures
            h == CounterHint::Off,
    {
        CounterHint::Off
    }
}

/// A slot's fill.
#[derive(Debug, Clone, Copy, PartialEq, Eq, Structural)]
pub enum SlotFill {
    /// A counter that can be paid for.
    Counter,
    /// A counter that cannot be paid for.
    CounterBlocked,
    /// Not affordable.
    Locked,
    /// The selected move.
    Selected,
    /// Nothing special.
    Plain,
}

/// A slot's edge.
#[derive(Debug, Clone, Copy, PartialEq, Eq, Structural)]
pub enum SlotEdge {
    /// Under the pointer.
    Hover,
    /// A counter that can be paid for.
    Counter,
    /// The selected, affordable move.
    Selected,
    /// Nothing special.
    Plain,
}

/// A slot's fill: **counters first** (when a threat closes in, the player looks for
/// what answers it), then locked, then selected.
pub open spec fn fill_for(affordable: bool, selected: bool, counter: CounterHint) -> SlotFill {
    match counter {
        CounterHint::Ready => SlotFill::Counter,
        CounterHint::TooExpensive => SlotFill::CounterBlocked,
        CounterHint::Off => if !affordable {
            SlotFill::Locked
        } else if selected {
            SlotFill::Selected
        } else {
            SlotFill::Plain
        },
    }
}

/// The fill of a slot.
pub fn slot_fill(affordable: bool, selected: bool, counter: CounterHint) -> (fill: SlotFill)
    ensures
        fill == fill_for(affordable, selected, counter),
        counter == CounterHint::Ready ==> fill == SlotFill::Counter,
        counter == CounterHint::TooExpensive ==> fill == SlotFill::CounterBlocked,
        counter == CounterHint::Off && !affordable ==> fill == SlotFill::Locked,
        counter == CounterHint::Off && affordable && selected ==> fill == SlotFill::Selected,
        counter == CounterHint::Off && affordable && !selected ==> fill == SlotFill::Plain,
{
    match counter {
        CounterHint::Ready => SlotFill::Counter,
        CounterHint::TooExpensive => SlotFill::CounterBlocked,
        CounterHint::Off => {
            if !affordable {
                SlotFill::Locked
            } else if selected {
                SlotFill::Selected
            } else {
                SlotFill::Plain
            }
        },
    }
}

/// A slot's edge: hover first, then an affordable counter, then the selected move if
/// affordable.
pub open spec fn edge_for(hovered: bool, selected: bool, affordable: bool, counter: CounterHint) -> SlotEdge {
    if hovered {
        SlotEdge::Hover
    } else if counter == CounterHint::Ready {
        SlotEdge::Counter
    } else if selected && affordable {
        SlotEdge::Selected
    } else {
        SlotEdge::Plain
    }
}

/// The edge of a slot.
pub fn slot_edge(hovered: bool, selected: bool, affordable: bool, counter: CounterHint) -> (edge:
    SlotEdge)
    ensures
        edge == edge_for(hovered, selected, affordable, counter),
        hovered ==> edge == SlotEdge::Hover,
        !hovered && counter == CounterHint::Ready ==> edge == SlotEdge::Counter,
        !hovered && counter != CounterHint::Ready && selected && affordable ==> edge
            == SlotEdge::Selected,
        !hovered && counter != CounterHint::Ready && !(selected && affordable) ==> edge
            == SlotEdge::Plain,
{
    if hovered {
        SlotEdge::Hover
    } else if counter == CounterHint::Ready {
        SlotEdge::Counter
    } else if selected && affordable {
        SlotEdge::Selected
    } else {
        SlotEdge::Plain
    }
}

/// The precedences the bar promises, for every slot state:
/// - a payable counter always gets the counter fill, an unpayable one always the
///   blocked-counter fill, whatever the slot's affordability and selection (counters
///   first: when a threat closes in, the player looks for what answers it);
/// - without a counter, an unaffordable slot is locked (never shown as selected), an
///   affordable selected slot is selected, any other is plain;
/// - the edge: hover beats everything, then a payable counter, then the selected slot
///   if affordable;
/// - the three counter states are told apart from each other and from a plain slot.
pub proof fn lemma_slot_precedence(
    affordable: bool,
    selected: bool,
    hovered: bool,
    counter: CounterHint,
)
    ensures
        fill_for(affordable, selected, CounterHint::Ready) == SlotFill::Counter,
        fill_for(affordable, selected, CounterHint::TooExpensive) == SlotFill::CounterBlocked,
        fill_for(false, selected, CounterHint::Off) == SlotFill::Locked,
        fill_for(true, true, CounterHint::Off) == SlotFill::Selected,
        fill_for(true, false, CounterHint::Off) == SlotFill::Plain,
        hovered ==> edge_for(hovered, selected, affordable, counter) == SlotEdge::Hover,
        !hovered && counter == CounterHint::Ready ==> edge_for(
            hovered,
            selected,
            affordable,
            counter,
        ) == SlotEdge::Counter,
        !hovered && counter != CounterHint::Ready ==> edge_for(hovered, selected, affordable, counter)
            == if selected && affordable {
            SlotEdge::Selected
        } else {
            SlotEdge::Plain
        },
        fill_for(affordable, selected, CounterHint::TooExpensive) != fill_for(
            affordable,
            selected,
            CounterHint::Ready,
        ),
        fill_for(affordable, selected, CounterHint::TooExpensive) != fill_for(
            true,
            false,
            CounterHint::Off,
        ),
{
}

/// One counter the reaction window suggests: which ability, what it costs as a
/// counter, and whether the player can pay for it now.
#[derive(Debug, Clone, Copy, PartialEq, Eq, Structural)]
pub struct CounterSuggestion {
    pub ability: AbilityId,
    pub cost: CounterCost,
    pub affordable: bool,
}

/// Whether a slot with this energy cost can be paid for (no player on the board: every
/// slot reads as affordable, nothing is greyed out).
pub open spec fn slot_affordable(cost: u32, stamina: Option<u32>) -> bool {
    match stamina {
        Some(stamina) => cost <= stamina,
        None => true,
    }
}

/// Whether each slot can be paid for right now, from the slots' energy costs.
pub fn affordability(costs: &[u32], stamina: Option<u32>) -> (r: Vec<bool>)
    ensures
        r@.len() == costs@.len(),
        forall|i: int| 0 <= i < costs@.len() ==> #[trigger] r@[i] == slot_affordable(costs@[i], stamina),
{
    let mut out: Vec<bool> = Vec::new();
    let mut i: usize = 0;
    while i < costs.len()
        invariant
            0 <= i <= costs@.len(),
            out@.len() == i,
            forall|k: int| 0 <= k < i ==> #[trigger] out@[k] == slot_affordable(costs@[k], stamina),
        decreases costs@.len() - i,
    {
        let ok = match stamina {
            Some(stamina) => costs[i] <= stamina,
            None => true,
        };
        out.push(ok);
        i = i + 1;
    }
    out
}

/// The first suggestion for this ability in the list, if any.
pub open spec fn first_suggestion(list: Seq<CounterSuggestion>, ability: AbilityId) -> Option<
    CounterSuggestion,
>
    decreases list.len(),
{
    if list.len() == 0 {
        None
    } else if list[0].ability == ability {
        Some(list[0])
    } else {
        first_suggestion(list.drop_first(), ability)
    }
}

/// The suggestion looked up is the first one for that ability: it is in the list,
/// for that ability, with none for that ability before it; and there is none when no
/// suggestion in the list is for that ability.
pub proof fn lemma_first_suggestion_is_the_first_match(
    list: Seq<CounterSuggestion>,
    ability: AbilityId,
)
    ensures
        first_suggestion(list, ability) matches Some(s) ==> exists|i: int|
            0 <= i < list.len() && #[trigger] list[i] == s && s.ability == ability && forall|j: int|
                0 <= j < i ==> (#[trigger] list[j]).ability != ability,
        first_suggestion(list, ability) is None ==> forall|i: int|
            0 <= i < list.len() ==> (#[trigger] list[i]).ability != ability,
    decreases list.len(),
{
    if list.len() > 0 {
        let rest = list.drop_first();
        lemma_first_suggestion_is_the_first_match(rest, ability);
        if list[0].ability != ability {
            if let Some(s) = first_suggestion(rest, ability) {
                let i = choose|i: int|
                    0 <= i < rest.len() && #[trigger] rest[i] == s && s.ability == ability
                        && forall|j: int| 0 <= j < i ==> (#[trigger] rest[j]).ability != ability;
                assert(list[i + 1] == s);
                assert forall|j: int| 0 <= j < i + 1 implies (#[trigger] list[j]).ability
                    != ability by {
                    if j > 0 {
                        assert(list[j] == rest[j - 1]);
                    }
                }
            } else {
                assert forall|i: int| 0 <= i < list.len() implies (#[trigger] list[i]).ability
                    != ability by {
                    if i > 0 {
                        assert(list[i] == rest[i - 1]);
                    }
                }
            }
        }
    }
}

/// A slot's counter hint: the slot's catalogue entry is looked up among the
/// suggestions; a slot without an entry (a dispatch rule rather than an ability) is
/// never a counter, and neither is any slot while no window is open.
pub open spec fn hint_for(entry: Option<AbilityId>, suggestions: Option<Seq<CounterSuggestion>>) -> CounterHint {
    match (entry, suggestions) {
        (Some(ability), Some(list)) => match first_suggestion(list, ability) {
            Some(s) => if s.affordable {
                CounterHint::Ready
            } else {
                CounterHint::TooExpensive
            },
            None => CounterHint::Off,
        },
        _ => CounterHint::Off,
    }
}

/// Whether each slot is a counter suggestion (`None`: no window open, or no player),
/// from each slot's catalogue entry.
pub fn counter_hints(entries: &[Option<AbilityId>], suggestions: Option<&[CounterSuggestion]>) -> (r: Vec<
    CounterHint,
>)
    ensures
        r@.len() == entries@.len(),
        forall|i: int|
            0 <= i < entries@.len() ==> #[trigger] r@[i] == hint_for(
                entries@[i],
                match suggestions {
                    Some(list) => Some(list@),
                    None => None,
                },
            ),
{
    let ghost window = match suggestions {
        Some(list) => Some(list@),
        None => None,
    };
    let mut out: Vec<CounterHint> = Vec::new();
    let mut i: usize = 0;
    while i < entries.len()
        invariant
            0 <= i <= entries@.len(),
            out@.len() == i,
            window == match suggestions {
                Some(list) => Some(list@),
                None => None,
            },
            forall|k: int| 0 <= k < i ==> #[trigger] out@[k] == hint_for(entries@[k], window),
        decreases entries@.len() - i,
    {
        let hint = match (entries[i], suggestions) {
            (Some(ability), Some(list)) => {
                let mut found: Option<CounterSuggestion> = None;
                let mut k: usize = 0;
                proof {
                    assert(list@.skip(0) =~= list@);
                }
                while found.is_none() && k < list.len()
                    invariant
                        0 <= k <= list@.len(),
                        found is None ==> first_suggestion(list@, ability) == first_suggestion(
                            list@.skip(k as int),
                            ability,
                        ),
                        found matches Some(s) ==> first_suggestion(list@, ability) == Some(s),
                    decreases list@.len() - k,
                {
                    proof {
                        assert(list@.skip(k as int)[0] == list@[k as int]);
                        assert(list@.skip(k as int).drop_first() =~= list@.skip(k + 1));
                    }
                    if list[k].ability == ability {
                        found = Some(list[k]);
                    }
                    k = k + 1;
                }
                proof {
                    if found is None {
                        assert(list@.skip(k as int).len() == 0);
                    }
                }
                match found {
                    Some(suggestion) => if suggestion.affordable {
                        CounterHint::Ready
                    } else {
                        CounterHint::TooExpensive
                    },
                    None => CounterHint::Off,
                }
            },
            _ => CounterHint::Off,
        };
        out.push(hint);
        i = i + 1;
    }
    out
}

/// What a slot's badge reads: its energy cost, or nothing for a slot beyond the bar.
pub fn badge_text(costs: &[u32], index: usize) -> (r: String)
    ensures
        index < costs@.len() ==> r@ == decimal(costs@[index as int] as int),
        index >= costs@.len() ==> r@ == Seq::<char>::empty(),
{
    if index < costs.len() {
        unsigned_text(costs[index] as u64)
    } else {
        proof {
            reveal_strlit("");
        }
        String::from_str("")
    }
}

} // verus!
