//! The unit panels' read-outs that are plain text: which slot a panel is, what it is
//! called, and the insight line on an enemy's panel.

use vstd::prelude::*;

use crate::text::{decimal, signed_text, unsigned_text};
use crate::units::{Faction, Tactic};

use super::labels::{tactic_label, tactic_name};

verus! {

/// How many enemy rows the panel column draws (the row pool and the model both use it).
pub const MAX_ENEMY_ROWS: usize = 3;

/// One panel: the player has one, every enemy gets its own.
///
/// An enemy panel carries its rank (`0` = nearest to the player).
#[derive(Debug, Clone, Copy, PartialEq, Eq, Hash, Structural)]
pub enum PanelSlot {
    Player,
    /// The `index`-th enemy (`0` = nearest to the player).
    Enemy(usize),
}

impl PanelSlot {
    /// The side this panel belongs to (colour and distance read depend on it).
    pub fn faction(self) -> (f: Faction)
        ensures
            f == (match self {
                PanelSlot::Player => Faction::Player,
                PanelSlot::Enemy(_) => Faction::Enemy,
            }),
    {
        match self {
            PanelSlot::Player => Faction::Player,
            PanelSlot::Enemy(_) => Faction::Enemy,
        }
    }
}

/// A panel's displayed name: `PLAYER`, or `ENEMY n` counted from 1.
pub open spec fn panel_title(slot: PanelSlot) -> Seq<char> {
    match slot {
        PanelSlot::Player => "PLAYER"@,
        PanelSlot::Enemy(index) => "ENEMY "@ + decimal(index + 1),
    }
}

/// The name shown on a panel, so that several enemies can be told apart.
pub fn panel_name(slot: PanelSlot) -> (r: String)
    requires
        slot matches PanelSlot::Enemy(index) ==> index < usize::MAX,
    ensures
        r@ == panel_title(slot),
{
    match slot {
        PanelSlot::Player => String::from_str("PLAYER"),
        PanelSlot::Enemy(index) => {
            let number = unsigned_text((index + 1) as u64);
            String::from_str("ENEMY ").concat(number.as_str())
        },
    }
}

/// A panel's entity-name prefix: `Player`, or `Enemy n` counted from 1.
pub open spec fn panel_prefix(slot: PanelSlot) -> Seq<char> {
    match slot {
        PanelSlot::Player => "Player"@,
        PanelSlot::Enemy(index) => "Enemy"@ + decimal(index + 1),
    }
}

/// The entity-name prefix of a panel's nodes (`PlayerInfo`, `Enemy2Info`, ...).
pub fn slot_prefix(slot: PanelSlot) -> (r: String)
    requires
        slot matches PanelSlot::Enemy(index) ==> index < usize::MAX,
    ensures
        r@ == panel_prefix(slot),
{
    match slot {
        PanelSlot::Player => String::from_str("Player"),
        PanelSlot::Enemy(index) => {
            let number = unsigned_text((index + 1) as u64);
            String::from_str("Enemy").concat(number.as_str())
        },
    }
}

/// An enemy's insight read-out: what it can reach, how hard its current move is to
/// break, and what it is up to.
#[derive(Debug, Clone, Copy, PartialEq, Eq, Structural)]
pub struct Insight {
    /// Reach (cells): how far its attack goes.
    pub range_cells: u32,
    /// Interrupt resistance of the move in windup (`None` = no move in windup).
    pub interrupt_resist: Option<i32>,
    /// The tactic it is following.
    pub tactic: Option<Tactic>,
}

/// The insight read-out, or nothing when there is nothing to read (no reach, no move
/// in windup, no tactic).
pub fn insight_of(
    range_cells: Option<u32>,
    interrupt_resist: Option<i32>,
    tactic: Option<Tactic>,
) -> (r: Option<Insight>)
    ensures
        (range_cells is None && interrupt_resist is None && tactic is None) ==> r is None,
        !(range_cells is None && interrupt_resist is None && tactic is None) ==> r == Some(
            Insight {
                range_cells: match range_cells {
                    Some(c) => c,
                    None => 0u32,
                },
                interrupt_resist,
                tactic,
            },
        ),
{
    if range_cells.is_none() && interrupt_resist.is_none() && tactic.is_none() {
        return None;
    }
    let cells = match range_cells {
        Some(c) => c,
        None => 0,
    };
    Some(Insight { range_cells: cells, interrupt_resist, tactic })
}

/// The insight line: `range 1 · break 3 · approach`; absent readings leave no segment.
pub open spec fn insight_text(insight: Insight) -> Seq<char> {
    let range = "range "@ + decimal(insight.range_cells as int);
    let with_break = match insight.interrupt_resist {
        Some(resist) => range + " · break "@ + decimal(resist as int),
        None => range,
    };
    match insight.tactic {
        Some(tactic) => with_break + " · "@ + tactic_name(tactic),
        None => with_break,
    }
}

impl Insight {
    /// One line of read-outs; every number answers a concrete question (where is it
    /// safe to stand, should I dodge or break its move, what is it after).
    pub fn line(&self) -> (r: String)
        ensures
            r@ == insight_text(*self),
    {
        let mut line = String::from_str("range ");
        let cells = unsigned_text(self.range_cells as u64);
        line.append(cells.as_str());
        match self.interrupt_resist {
            Some(resist) => {
                line.append(" · break ");
                let number = signed_text(resist as i64);
                line.append(number.as_str());
            },
            None => {},
        }
        match self.tactic {
            Some(tactic) => {
                line.append(" · ");
                line.append(tactic_label(tactic));
            },
            None => {},
        }
        proof {
            let range = "range "@ + decimal(self.range_cells as int);
            match self.interrupt_resist {
                Some(resist) => {
                    assert(range + " · break "@ + decimal(resist as int) =~= "range "@ + decimal(
                        self.range_cells as int,
                    ) + " · break "@ + decimal(resist as int));
                },
                None => {},
            }
        }
        line
    }
}

} // verus!
