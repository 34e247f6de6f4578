//! The battle log: the most recent lines, oldest first, and the panel body built from
//! its tail.

use std::collections::VecDeque;

use vstd::prelude::*;

use crate::text::{decimal, signed_text};
use crate::units::Faction;

use super::labels::{faction_label, side_label};

verus! {

/// How many lines the log keeps.
pub const LOG_CAPACITY: usize = 16;

/// How many of the latest lines the log panel shows.
pub const LOG_LINES: usize = 8;

/// The texts of a list of lines.
pub open spec fn line_texts(lines: Seq<String>) -> Seq<Seq<char>> {
    Seq::new(lines.len(), |i: int| lines[i]@)
}

/// The log after one more line: when full, the oldest line makes room.
pub open spec fn pushed(lines: Seq<Seq<char>>, line: Seq<char>, max: nat) -> Seq<Seq<char>> {
    if lines.len() >= max && lines.len() > 0 {
        lines.drop_first().push(line)
    } else {
        lines.push(line)
    }
}

/// The battle log (keeps the most recent lines, dropping the oldest).
pub struct BattleLog {
    entries: VecDeque<String>,
    max: usize,
}

impl View for BattleLog {
    type V = Seq<Seq<char>>;

    /// The lines, oldest first.
    closed spec fn view(&self) -> Seq<Seq<char>> {
        line_texts(self.entries@)
    }
}

impl BattleLog {
    /// Never more lines than the capacity.
    #[verifier::type_invariant]
    spec fn bounded(&self) -> bool {
        &&& self.max == LOG_CAPACITY
        &&& self.entries@.len() <= self.max
    }

    /// An empty log that keeps the last [`LOG_CAPACITY`] lines.
    pub fn new() -> (log: BattleLog)
        ensures
            log@.len() == 0,
    {
        BattleLog { entries: VecDeque::with_capacity(LOG_CAPACITY), max: LOG_CAPACITY }
    }

    /// How many lines are kept (never more than [`LOG_CAPACITY`]).
    pub fn len(&self) -> (n: usize)
        ensures
            n == self@.len(),
            n <= LOG_CAPACITY,
    {
        proof {
            use_type_invariant(self);
        }
        self.entries.len()
    }

    /// Append a line (when full, the oldest line is dropped).
    pub fn push(&mut self, message: String)
        ensures
            final(self)@ == pushed(old(self)@, message@, LOG_CAPACITY as nat),
            final(self)@.len() == if old(self)@.len() < LOG_CAPACITY {
                old(self)@.len() + 1nat
            } else {
                LOG_CAPACITY as nat
            },
            final(self)@.last() == message@,
            final(self)@.drop_last() == old(self)@.subrange(
                old(self)@.len() - (final(self)@.len() - 1),
                old(self)@.len() as int,
            ),
    {
        proof {
            use_type_invariant(&*self);
            lemma_pushed_keeps_the_latest(old(self)@, message@, LOG_CAPACITY as nat);
        }
        let mut entries: VecDeque<String> = VecDeque::new();
        std::mem::swap(&mut entries, &mut self.entries);
        let ghost before = entries@;
        if entries.len() >= self.max {
            let _oldest = entries.pop_front();
        }
        entries.push_back(message);
        proof {
            if before.len() >= LOG_CAPACITY && before.len() > 0 {
                assert(line_texts(entries@) =~= line_texts(before).drop_first().push(message@));
            } else {
                assert(line_texts(entries@) =~= line_texts(before).push(message@));
            }
        }
        self.entries = entries;
    }

    /// The lines, oldest first.
    pub fn entries(&self) -> (lines: Vec<&str>)
        ensures
            lines@.len() == self@.len(),
            forall|i: int| 0 <= i < lines@.len() ==> #[trigger] lines@[i]@ == self@[i],
    {
        let mut lines: Vec<&str> = Vec::new();
        let mut i: usize = 0;
        while i < self.entries.len()
            invariant
                0 <= i <= self.entries@.len(),
                lines@.len() == i,
                forall|k: int| 0 <= k < i ==> #[trigger] lines@[k]@ == self.entries@[k]@,
            decreases self.entries@.len() - i,
        {
            lines.push(self.entries[i].as_str());
            i = i + 1;
        }
        lines
    }
}

impl Default for BattleLog {
    /// An empty log that keeps the last [`LOG_CAPACITY`] lines.
    fn default() -> (log: BattleLog)
        ensures
            log@.len() == 0,
    {
        BattleLog::new()
    }
}

/// The log keeps what it promised: one line more until it is full, then exactly full
/// (only the oldest line makes room); the new line last, and before it the most
/// recent lines that were already there, in order.
pub proof fn lemma_pushed_keeps_the_latest(lines: Seq<Seq<char>>, line: Seq<char>, max: nat)
    requires
        max > 0,
        lines.len() <= max,
    ensures
        pushed(lines, line, max).len() == if lines.len() < max {
            lines.len() + 1nat
        } else {
            max
        },
        pushed(lines, line, max).last() == line,
        pushed(lines, line, max).drop_last() == lines.subrange(
            lines.len() - (pushed(lines, line, max).len() - 1),
            lines.len() as int,
        ),
{
    let p = pushed(lines, line, max);
    if lines.len() >= max && lines.len() > 0 {
        assert(p.drop_last() =~= lines.subrange(1, lines.len() as int));
    } else {
        assert(p.drop_last() =~= lines.subrange(0, lines.len() as int));
    }
}

/// Lines joined by line breaks.
pub open spec fn joined(lines: Seq<Seq<char>>) -> Seq<char>
    decreases lines.len(),
{
    if lines.len() == 0 {
        Seq::empty()
    } else if lines.len() == 1 {
        lines[0]
    } else {
        joined(lines.drop_last()) + "\n"@ + lines.last()
    }
}

/// The log panel's body: the last [`LOG_LINES`] lines joined by line breaks, or a
/// placeholder while there is nothing to show.
pub open spec fn log_body_text(lines: Seq<Seq<char>>) -> Seq<char> {
    let start = if lines.len() > LOG_LINES {
        lines.len() - LOG_LINES
    } else {
        0
    };
    let tail = joined(lines.subrange(start, lines.len() as int));
    if tail.len() == 0 {
        "(nothing yet)"@
    } else {
        tail
    }
}

/// The body the log panel shows.
pub fn log_body(log: &BattleLog) -> (body: String)
    ensures
        body@ == log_body_text(log@),
{
    let lines = log.entries();
    let n = lines.len();
    let start = if n > LOG_LINES {
        n - LOG_LINES
    } else {
        0
    };
    let ghost texts = log@;
    let mut body = String::new();
    let mut i = start;
    while i < n
        invariant
            n == lines@.len(),
            n == texts.len(),
            forall|k: int| 0 <= k < n ==> #[trigger] lines@[k]@ == texts[k],
            start <= i <= n,
            body@ == joined(texts.subrange(start as int, i as int)),
        decreases n - i,
    {
        proof {
            let before = texts.subrange(start as int, i as int);
            let after = texts.subrange(start as int, i + 1);
            assert(after.drop_last() =~= before);
            assert(after.last() == texts[i as int]);
        }
        if i > start {
            body.append("\n");
        } else {
            proof {
                assert(body@ =~= Seq::<char>::empty());
            }
        }
        body.append(lines[i]);
        proof {
            let after = texts.subrange(start as int, i + 1);
            if i > start {
                assert(body@ =~= joined(after.drop_last()) + "\n"@ + after.last());
            } else {
                assert(body@ =~= after[0]);
            }
        }
        i = i + 1;
    }
    if body.as_str().is_empty() {
        String::from_str("(nothing yet)")
    } else {
        body
    }
}

/// How a log line names the unit or attack behind an entity: its side, or `单位`
/// when the entity carries none.
pub open spec fn who_text(side: Option<Faction>) -> Seq<char> {
    match side {
        Some(faction) => side_label(faction),
        None => "单位"@,
    }
}

/// A hit, in the order "who struck, whom, how much": the attacker's side first, then
/// the side that was hit, then the damage. Environmental damage has no attacker and
/// names only the side that was hit.
pub open spec fn damage_sentence(attacker: Option<Faction>, target: Option<Faction>, amount: i32) -> Seq<
    char,
> {
    match attacker {
        Some(side) => side_label(side) + " 命中 "@ + who_text(target) + "，造成 "@ + decimal(
            amount as int,
        ) + " 点伤害"@,
        None => who_text(target) + " 受到 "@ + decimal(amount as int) + " 点伤害"@,
    }
}

/// A death: who fell, and to which side; a death without a killer is a plain one.
pub open spec fn death_sentence(victim: Option<Faction>, killer: Option<Faction>) -> Seq<char> {
    match killer {
        Some(side) => who_text(victim) + " 被"@ + side_label(side) + "击杀"@,
        None => who_text(victim) + " 阵亡"@,
    }
}

/// The name of the side behind an entity, or `单位`.
fn who(side: Option<Faction>) -> (r: &'static str)
    ensures
        r@ == who_text(side),
{
    match side {
        Some(faction) => faction_label(&faction),
        None => "单位",
    }
}

/// The log line of a hit: `敌人 命中 玩家，造成 12 点伤害`.
///
/// `attacker` is the side of the attack that landed (an arrow, a sweep, a fireball
/// carries its thrower's side), `target` the side of the unit hit.
pub fn damage_text(attacker: Option<Faction>, target: Option<Faction>, amount: i32) -> (r: String)
    ensures
        r@ == damage_sentence(attacker, target, amount),
{
    let number = signed_text(amount as i64);
    match attacker {
        Some(side) => {
            let mut text = String::from_str(faction_label(&side));
            text.append(" 命中 ");
            text.append(who(target));
            text.append("，造成 ");
            text.append(number.as_str());
            text.append(" 点伤害");
            proof {
                assert(text@ =~= damage_sentence(attacker, target, amount));
            }
            text
        },
        None => {
            let mut text = String::from_str(who(target));
            text.append(" 受到 ");
            text.append(number.as_str());
            text.append(" 点伤害");
            proof {
                assert(text@ =~= damage_sentence(attacker, target, amount));
            }
            text
        },
    }
}

/// The log line of a death: `玩家 被敌人击杀`, or `玩家 阵亡` without a killer.
pub fn death_text(victim: Option<Faction>, killer: Option<Faction>) -> (r: String)
    ensures
        r@ == death_sentence(victim, killer),
{
    let mut text = String::from_str(who(victim));
    match killer {
        Some(side) => {
            text.append(" 被");
            text.append(faction_label(&side));
            text.append("击杀");
        },
        None => {
            text.append(" 阵亡");
        },
    }
    proof {
        assert(text@ =~= death_sentence(victim, killer));
    }
    text
}

} // verus!
