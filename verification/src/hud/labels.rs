//! The short labels the HUD and the log use for sides, tactics, counter tags and
//! refused inputs.

use vstd::prelude::*;

use crate::skills::defs::CombatTags;
use crate::timeline::events::BlockReason;
use crate::units::{Faction, Tactic};

verus! {

/// How the log names each side.
pub open spec fn side_label(faction: Faction) -> Seq<char> {
    match faction {
        Faction::Player => "玩家"@,
        Faction::Enemy => "敌人"@,
    }
}

/// The side's name in the battle log (one place, so every line says it the same way).
pub fn faction_label(faction: &Faction) -> (r: &'static str)
    ensures
        r@ == side_label(*faction),
{
    match faction {
        Faction::Player => "玩家",
        Faction::Enemy => "敌人",
    }
}

/// The one-letter side mark used by timeline blocks, lanes and staging chips.
pub open spec fn side_letter(faction: Faction) -> Seq<char> {
    match faction {
        Faction::Player => "P"@,
        Faction::Enemy => "E"@,
    }
}

/// The side letter (`P` / `E`).
pub fn faction_letter(faction: Faction) -> (r: &'static str)
    ensures
        r@ == side_letter(faction),
{
    match faction {
        Faction::Player => "P",
        Faction::Enemy => "E",
    }
}

/// Lane sort weight: the player always takes the top lane.
pub open spec fn side_rank(faction: Faction) -> u8 {
    match faction {
        Faction::Player => 0u8,
        Faction::Enemy => 1u8,
    }
}

/// Lane sort weight of a side.
pub fn faction_rank(faction: Faction) -> (r: u8)
    ensures
        r == side_rank(faction),
{
    match faction {
        Faction::Player => 0,
        Faction::Enemy => 1,
    }
}

/// Entity-name prefix of a side's panel (`PlayerPanel` / `EnemyPanel`).
pub open spec fn side_prefix(faction: Faction) -> Seq<char> {
    match faction {
        Faction::Player => "Player"@,
        Faction::Enemy => "Enemy"@,
    }
}

/// The side's panel-name prefix.
pub fn faction_prefix(faction: Faction) -> (r: &'static str)
    ensures
        r@ == side_prefix(faction),
{
    match faction {
        Faction::Player => "Player",
        Faction::Enemy => "Enemy",
    }
}

/// The readable name of an enemy tactic.
pub open spec fn tactic_name(tactic: Tactic) -> Seq<char> {
    match tactic {
        Tactic::Idle => "idle"@,
        Tactic::Approach => "approach"@,
        Tactic::Melee => "melee"@,
        Tactic::Shoot => "shoot"@,
        Tactic::Retreat => "retreat"@,
        Tactic::Dodge => "dodge"@,
    }
}

/// The readable label of an enemy tactic.
pub fn tactic_label(tactic: Tactic) -> (r: &'static str)
    ensures
        r@ == tactic_name(tactic),
{
    match tactic {
        Tactic::Idle => "idle",
        Tactic::Approach => "approach",
        Tactic::Melee => "melee",
        Tactic::Shoot => "shoot",
        Tactic::Retreat => "retreat",
        Tactic::Dodge => "dodge",
    }
}

/// The interrupt gate is shut: the move is not interruptible, or it has super armour.
pub open spec fn interrupt_gate_closed(tags: CombatTags) -> bool {
    !tags.interruptible || tags.super_armor
}

/// The counter tags as one word, read by the same gate as the interrupt rule: a
/// read-out that says "interruptible" for a move that cannot be broken would be worse
/// than no read-out.
pub fn interrupt_label(tags: CombatTags) -> (r: &'static str)
    ensures
        interrupt_gate_closed(tags) ==> r@ == "super armor"@,
        !interrupt_gate_closed(tags) ==> r@ == "interruptible"@,
{
    if !tags.interruptible || tags.super_armor {
        "super armor"
    } else {
        "interruptible"
    }
}

/// What the hint bar says when an input is refused.
pub open spec fn refusal_text(reason: BlockReason) -> Seq<char> {
    match reason {
        BlockReason::Busy => "CAN'T ACT YET · still busy"@,
        BlockReason::NotEnoughEnergy => "NOT ENOUGH ENERGY"@,
    }
}

/// The hint bar's sentence for a refused input.
pub fn block_message(reason: BlockReason) -> (r: &'static str)
    ensures
        r@ == refusal_text(reason),
{
    match reason {
        BlockReason::Busy => "CAN'T ACT YET · still busy",
        BlockReason::NotEnoughEnergy => "NOT ENOUGH ENERGY",
    }
}

/// What a unit's panel shows as its state: a defence mark first, then ready / busy.
pub open spec fn defense_text(dodging: bool, parrying: bool, ready: bool) -> Seq<char> {
    if dodging {
        "dodging"@
    } else if parrying {
        "parrying"@
    } else if ready {
        "ready"@
    } else {
        "busy"@
    }
}

/// Defence / readiness state of a unit: defence marks take precedence.
pub fn defense_label(dodging: bool, parrying: bool, ready: bool) -> (r: &'static str)
    ensures
        r@ == defense_text(dodging, parrying, ready),
{
    if dodging {
        "dodging"
    } else if parrying {
        "parrying"
    } else if ready {
        "ready"
    } else {
        "busy"
    }
}

} // verus!
