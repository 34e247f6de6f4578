use timeline_tactics::skills::defs::{
    AbilityCategory, AbilityDef, AbilityId, CombatTags, TargetSelector,
};
use timeline_tactics::skills::registry::SkillRegistry;

/// The rhythm a catalogue entry carries: windup, recovery, interrupt resistance.
type Timing = (f32, f32, i32);

fn def(id: AbilityId, cost: u32) -> AbilityDef<Timing> {
    AbilityDef {
        id,
        category: AbilityCategory::Movement,
        timing: (0.1, 0.2, 1),
        targeting: TargetSelector::SelfOnly,
        cost,
        requirements: &[],
        combat: CombatTags::committed(),
        counter: None,
        power: 0,
    }
}

/// Definitions handed in can be looked up afterwards.
#[test]
fn published_definitions_become_lookups() {
    let mut registry: SkillRegistry<Timing> = SkillRegistry::new();
    assert!(registry.is_empty());

    registry.register(def(AbilityId::Move, 0));

    assert_eq!(
        registry.get(AbilityId::Move).map(|def| def.id),
        Some(AbilityId::Move)
    );
    assert_eq!(registry.get(AbilityId::Jump), None, "没交上来的查不到");
}

/// Registering again overwrites the content and keeps the menu order.
#[test]
fn re_registering_keeps_the_menu_order() {
    let mut registry: SkillRegistry<Timing> = SkillRegistry::new();
    registry.register(def(AbilityId::Move, 0));
    registry.register(def(AbilityId::Jump, 0));

    registry.register(def(AbilityId::Move, 2));

    let order: Vec<AbilityId> = registry.all().iter().map(|def| def.id).collect();
    assert_eq!(order, vec![AbilityId::Move, AbilityId::Jump]);
    assert_eq!(registry.expect(AbilityId::Move).cost, 2, "覆盖应当生效");
}

/// Affordability only looks at the cost.
#[test]
fn affordability_filters_by_cost() {
    let mut registry: SkillRegistry<Timing> = SkillRegistry::new();
    registry.register(def(AbilityId::Melee, 0));
    registry.register(def(AbilityId::Roll, 1));
    registry.register(def(AbilityId::Fireball, 2));

    let free: Vec<AbilityId> = registry.affordable(0).iter().map(|def| def.id).collect();
    assert_eq!(free, vec![AbilityId::Melee]);
    let all: Vec<AbilityId> = registry.affordable(9).iter().map(|def| def.id).collect();
    assert_eq!(all.len(), 3);
}

#[test]
fn a_new_id_goes_to_the_end_and_the_catalogue_never_holds_an_id_twice() {
    let mut registry: SkillRegistry<Timing> = SkillRegistry::new();
    for id in AbilityId::ALL {
        registry.register(def(id, 1));
    }
    for id in AbilityId::ALL {
        registry.register(def(id, 3));
    }
    let order: Vec<AbilityId> = registry.all().iter().map(|def| def.id).collect();
    assert_eq!(order, AbilityId::ALL.to_vec());
    assert!(registry.all().iter().all(|def| def.cost == 3));
    assert_eq!(registry.affordable(2).len(), 0);
}
