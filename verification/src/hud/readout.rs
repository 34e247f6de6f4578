//! The timeline hover read-out: put on a block, it says whose move it is, what it
//! is, where it lands, how long is left and whether it can be broken.

use vstd::prelude::*;

use crate::skills::defs::{AbilityId, CombatTags, ability_label};
use crate::text::{decimal, signed_text};
use crate::units::{Cell, Faction};

use super::labels::interrupt_label;

verus! {

/// The side's name on the read-out.
pub open spec fn side_caps(faction: Faction) -> Seq<char> {
    match faction {
        Faction::Player => "PLAYER"@,
        Faction::Enemy => "ENEMY"@,
    }
}

/// The counter tags as the read-out says them (the interrupt gate's reading).
pub open spec fn gate_text(tags: CombatTags) -> Seq<char> {
    if !tags.interruptible || tags.super_armor {
        "super armor"@
    } else {
        "interruptible"@
    }
}

/// One read-out line: `ENEMY · fireball → cell (3,1) · 0.4s · interruptible`; the
/// landing cell and the time left are left out entirely when there are none.
pub open spec fn readout_text(
    faction: Faction,
    payload: Seq<char>,
    target: Option<Cell>,
    remaining: Option<Seq<char>>,
    tags: CombatTags,
) -> Seq<char> {
    let head = side_caps(faction) + " · "@ + payload;
    let with_target = match target {
        Some(cell) => head + " → cell ("@ + decimal(cell.x as int) + ","@ + decimal(cell.z as int)
            + ")"@,
        None => head,
    };
    let with_time = match remaining {
        Some(t) => with_target + " · "@ + t + "s"@,
        None => with_target,
    };
    with_time + " · "@ + gate_text(tags)
}

/// The read-out line of a hovered move.
///
/// `remaining` is the windup time left, already written out, and only while the move
/// has not landed yet: the two numbers the player reads ahead are how long is left
/// (can I still get away?) and whether it can be broken (get away, or strike first?).
pub fn readout_line(
    faction: Faction,
    payload: &str,
    target: Option<Cell>,
    remaining: Option<&str>,
    tags: CombatTags,
) -> (line: String)
    ensures
        line@ == readout_text(
            faction,
            payload@,
            target,
            match remaining {
                Some(t) => Some(t@),
                None => None,
            },
            tags,
        ),
{
    let mut line = match faction {
        Faction::Player => String::from_str("PLAYER"),
        Faction::Enemy => String::from_str("ENEMY"),
    };
    line.append(" · ");
    line.append(payload);
    let ghost head = line@;
    match target {
        Some(cell) => {
            line.append(" → cell (");
            let x = signed_text(cell.x as i64);
            line.append(x.as_str());
            line.append(",");
            let z = signed_text(cell.z as i64);
            line.append(z.as_str());
            line.append(")");
            proof {
                assert(line@ =~= head + " → cell ("@ + decimal(cell.x as int) + ","@ + decimal(
                    cell.z as int,
                ) + ")"@);
            }
        },
        None => {},
    }
    let ghost with_target = line@;
    match remaining {
        Some(t) => {
            line.append(" · ");
            line.append(t);
            line.append("s");
            proof {
                assert(line@ =~= with_target + " · "@ + t@ + "s"@);
            }
        },
        None => {},
    }
    let ghost with_time = line@;
    line.append(" · ");
    line.append(interrupt_label(tags));
    proof {
        assert(line@ =~= with_time + " · "@ + gate_text(tags));
        assert(head =~= side_caps(faction) + " · "@ + payload@);
    }
    line
}

/// The name of an action's payload on its unit's action line; a payload without a
/// name of its own (waiting, or none known) reads `action`.
pub open spec fn payload_text(payload: Option<AbilityId>) -> Seq<char> {
    match payload {
        Some(AbilityId::Wait) | None => "action"@,
        Some(id) => ability_label(id),
    }
}

/// An action's payload name.
pub fn payload_name(payload: Option<AbilityId>) -> (r: &'static str)
    ensures
        r@ == payload_text(payload),
{
    match payload {
        Some(AbilityId::Wait) | None => "action",
        Some(id) => id.label(),
    }
}

/// A unit's action line: `down` when the side has no unit on the board, `act: -`
/// when it has nothing pending, `act: fireball`, and while the windup runs the time
/// left: `act: fireball (windup 0.2s)`.
pub open spec fn action_line_text(
    on_board: bool,
    action: Option<Seq<char>>,
    windup_left: Option<Seq<char>>,
) -> Seq<char> {
    if !on_board {
        "down"@
    } else {
        match action {
            None => "act: -"@,
            Some(name) => match windup_left {
                Some(t) => "act: "@ + name + " (windup "@ + t + "s)"@,
                None => "act: "@ + name,
            },
        }
    }
}

/// The action line of a side's panel. `windup_left` is the windup time left, already
/// written out, and only while the action has not landed.
pub fn action_line(on_board: bool, action: Option<&str>, windup_left: Option<&str>) -> (line: String)
    ensures
        line@ == action_line_text(
            on_board,
            match action {
                Some(a) => Some(a@),
                None => None,
            },
            match windup_left {
                Some(t) => Some(t@),
                None => None,
            },
        ),
{
    if !on_board {
        return String::from_str("down");
    }
    match action {
        None => String::from_str("act: -"),
        Some(name) => {
            let mut line = String::from_str("act: ");
            line.append(name);
            match windup_left {
                Some(t) => {
                    line.append(" (windup ");
                    line.append(t);
                    line.append("s)");
                    proof {
                        assert(line@ =~= "act: "@ + name@ + " (windup "@ + t@ + "s)"@);
                    }
                },
                None => {},
            }
            line
        },
    }
}

} // verus!
