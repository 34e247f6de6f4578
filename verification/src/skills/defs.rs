//! What one ability definition looks like: identity, category, targeting intent,
//! the combat tags that gate counters, and what it costs to use as a counter.
//!
//! Only data lives here: no entities, handles, closures or runtime state, so an
//! [`AbilityDef`] stays a plain, serialisable catalogue entry.

use vstd::prelude::*;

verus! {

/// The identity of an ability (the key of the catalogue).
#[derive(Debug, Clone, Copy, PartialEq, Eq, Hash, Structural)]
pub enum AbilityId {
    /// Step one cell.
    Move,
    /// Jump in place.
    Jump,
    /// Step back one cell with invulnerability frames.
    Roll,
    /// Loose an arrow in a direction.
    Shoot,
    /// Melee sweep in front.
    Melee,
    /// Cell-locked area attack.
    Fireball,
    /// Parry the bound attack and answer it.
    Parry,
    /// Hold the decision slot for a short while ("I want to stop for a moment").
    Wait,
}

/// The short English label of each ability, as HUD and log show it.
pub open spec fn ability_label(id: AbilityId) -> Seq<char> {
    match id {
        AbilityId::Move => "move"@,
        AbilityId::Jump => "jump"@,
        AbilityId::Roll => "roll"@,
        AbilityId::Shoot => "shoot"@,
        AbilityId::Melee => "melee"@,
        AbilityId::Fireball => "fireball"@,
        AbilityId::Parry => "parry"@,
        AbilityId::Wait => "wait"@,
    }
}

/// The full ability list, in catalogue order.
pub open spec fn all_abilities() -> Seq<AbilityId> {
    seq![
        AbilityId::Move,
        AbilityId::Jump,
        AbilityId::Roll,
        AbilityId::Shoot,
        AbilityId::Melee,
        AbilityId::Fireball,
        AbilityId::Parry,
        AbilityId::Wait,
    ]
}

impl AbilityId {
    /// Every ability (the catalogue checks its completeness against it).
    pub const ALL: [AbilityId; 8] = [
        AbilityId::Move,
        AbilityId::Jump,
        AbilityId::Roll,
        AbilityId::Shoot,
        AbilityId::Melee,
        AbilityId::Fireball,
        AbilityId::Parry,
        AbilityId::Wait,
    ];

    /// Short English name for the HUD and the log.
    pub fn label(self) -> (r: &'static str)
        ensures
            r@ == ability_label(self),
    {
        proof {
            reveal_strlit("move");
            reveal_strlit("jump");
            reveal_strlit("roll");
            reveal_strlit("shoot");
            reveal_strlit("melee");
            reveal_strlit("fireball");
            reveal_strlit("parry");
            reveal_strlit("wait");
        }
        match self {
            AbilityId::Move => "move",
            AbilityId::Jump => "jump",
            AbilityId::Roll => "roll",
            AbilityId::Shoot => "shoot",
            AbilityId::Melee => "melee",
            AbilityId::Fireball => "fireball",
            AbilityId::Parry => "parry",
            AbilityId::Wait => "wait",
        }
    }
}

/// The category of an ability: it carries the condition shared by all of its members.
#[derive(Debug, Clone, Copy, PartialEq, Eq, Structural)]
pub enum AbilityCategory {
    /// Displacement: move / jump / roll.
    Movement,
    /// Plain attacks: sweep / arrow.
    Attack,
    /// Spells: fireball.
    Spell,
    /// Postures: actions that do not strike first, such as parry.
    Posture,
}

/// The short English label of each category.
pub open spec fn category_label(category: AbilityCategory) -> Seq<char> {
    match category {
        AbilityCategory::Movement => "movement"@,
        AbilityCategory::Attack => "attack"@,
        AbilityCategory::Spell => "spell"@,
        AbilityCategory::Posture => "posture"@,
    }
}

/// A condition an ability needs before it can be used.
///
/// Only conditions that are really checked are listed: energy, for now.
#[derive(Debug, Clone, Copy, PartialEq, Eq, Structural)]
pub enum Requirement {
    /// Enough energy for the ability's `cost`.
    EnoughEnergy,
}

/// The condition every member of a category must meet, if any.
pub open spec fn category_requirement(category: AbilityCategory) -> Option<Requirement> {
    match category {
        AbilityCategory::Movement => Some(Requirement::EnoughEnergy),
        _ => None,
    }
}

impl AbilityCategory {
    /// Short English name for the HUD and the log.
    pub fn label(self) -> (r: &'static str)
        ensures
            r@ == category_label(self),
    {
        proof {
            reveal_strlit("movement");
            reveal_strlit("attack");
            reveal_strlit("spell");
            reveal_strlit("posture");
        }
        match self {
            AbilityCategory::Movement => "movement",
            AbilityCategory::Attack => "attack",
            AbilityCategory::Spell => "spell",
            AbilityCategory::Posture => "posture",
        }
    }

    /// The condition that **every** ability of this category must meet.
    ///
    /// Only movement has one (moving needs energy); attacks, spells and postures
    /// state their costs in their own requirements.
    pub fn shared_requirement(self) -> (r: Option<Requirement>)
        ensures
            r == category_requirement(self),
    {
        match self {
            AbilityCategory::Movement => Some(Requirement::EnoughEnergy),
            AbilityCategory::Attack | AbilityCategory::Spell | AbilityCategory::Posture => None,
        }
    }
}

/// What an ability needs as a target (design intent, not geometry).
#[derive(Debug, Clone, Copy, PartialEq, Eq, Structural)]
pub enum TargetSelector {
    /// No target (jump; parry finds its own threat).
    SelfOnly,
    /// A direction (arrow).
    Direction,
    /// One locked cell (fireball landing, move destination).
    TargetCell,
    /// The arc in front (sweep).
    MeleeArc,
    /// A specific entity (the attack a parry is bound to).
    TargetEntity,
}

/// Whether an ability can be countered: a design fact written on the definition.
///
/// `interruptible && !super_armor` decides whether an interrupt **may** happen;
/// the dice decide whether **this one** lands.
#[derive(Debug, Clone, Copy, PartialEq, Eq, Structural)]
pub struct CombatTags {
    /// Can be interrupted during its windup.
    pub interruptible: bool,
    /// Super armour: immune to interrupts.
    pub super_armor: bool,
    /// Can be parried.
    pub parryable: bool,
    /// Can be blocked.
    pub blockable: bool,
}

impl CombatTags {
    /// A plain strike: can be interrupted, parried and blocked.
    pub fn strike() -> (t: CombatTags)
        ensures
            t == (CombatTags {
                interruptible: true,
                super_armor: false,
                parryable: true,
                blockable: true,
            }),
    {
        CombatTags { interruptible: true, super_armor: false, parryable: true, blockable: true }
    }

    /// Committed from the first frame (jump, roll, parry): no interrupt gets in.
    pub fn committed() -> (t: CombatTags)
        ensures
            t == (CombatTags {
                interruptible: false,
                super_armor: true,
                parryable: false,
                blockable: false,
            }),
    {
        CombatTags { interruptible: false, super_armor: true, parryable: false, blockable: false }
    }
}

/// What using an ability **as a counter** costs (`None` on the definition = not a counter).
#[derive(Debug, Clone, Copy, PartialEq, Eq, Structural)]
pub enum CounterCost {
    /// Free: the counter is inserted, the original decision stays.
    Free,
    /// Spend this much of the counter resource; the original decision stays.
    Resource(u32),
    /// Trade the original decision for it: the decision leaves the timeline.
    CancelDecision,
}

/// One ability definition: static data.
///
/// The rhythm (`timing`) is a type parameter: it is the payload's own windup /
/// recovery / interrupt resistance, measured on the engine's clock, and nothing in
/// the catalogue reads it.
#[derive(Debug, Clone, Copy, PartialEq)]
pub struct AbilityDef<T> {
    pub id: AbilityId,
    pub category: AbilityCategory,
    /// Windup / recovery / interrupt resistance (the values belong to each domain).
    pub timing: T,
    pub targeting: TargetSelector,
    /// Energy cost.
    pub cost: u32,
    /// Conditions beyond the category's shared one.
    pub requirements: &'static [Requirement],
    /// Whether it can be countered.
    pub combat: CombatTags,
    /// Whether it can be used as a counter, and at what cost (`None` = it cannot).
    pub counter: Option<CounterCost>,
    /// Rough power (for display; real damage lives in each payload).
    pub power: i32,
}

/// `AbilityId::ALL` lists every ability exactly once.
pub proof fn lemma_every_ability_listed_once(id: AbilityId)
    ensures
        AbilityId::ALL@ == all_abilities(),
        all_abilities().contains(id),
        all_abilities().len() == 8,
        forall|i: int, j: int|
            0 <= i < j < all_abilities().len() ==> all_abilities()[i] != all_abilities()[j],
{
    let s = all_abilities();
    assert(AbilityId::ALL@ =~= s);
    match id {
        AbilityId::Move => assert(s[0] == id),
        AbilityId::Jump => assert(s[1] == id),
        AbilityId::Roll => assert(s[2] == id),
        AbilityId::Shoot => assert(s[3] == id),
        AbilityId::Melee => assert(s[4] == id),
        AbilityId::Fireball => assert(s[5] == id),
        AbilityId::Parry => assert(s[6] == id),
        AbilityId::Wait => assert(s[7] == id),
    }
}

} // verus!
