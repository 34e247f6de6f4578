use timeline_tactics::skills::defs::{AbilityCategory, AbilityId, CombatTags, Requirement};

#[test]
fn every_ability_is_listed_once() {
    for id in AbilityId::ALL {
        assert_eq!(
            AbilityId::ALL.iter().filter(|other| **other == id).count(),
            1,
            "{} 在 ALL 里出现了不止一次",
            id.label()
        );
    }
}

/// The two tag presets are the design intent: a plain strike can be countered,
/// a committed move cannot.
#[test]
fn the_two_tag_presets_say_what_they_mean() {
    let presets = [CombatTags::strike(), CombatTags::committed()];
    let (strike, committed) = (presets[0], presets[1]);
    assert!(strike.interruptible && strike.parryable && strike.blockable);
    assert!(!strike.super_armor, "普通攻击不豁免打断");
    assert!(!committed.interruptible, "起手之后不再受打断影响");
    assert!(committed.super_armor);
}

#[test]
fn labels_are_the_short_english_names() {
    let labels: Vec<&str> = AbilityId::ALL.iter().map(|id| id.label()).collect();
    assert_eq!(
        labels,
        vec!["move", "jump", "roll", "shoot", "melee", "fireball", "parry", "wait"]
    );
    assert_eq!(AbilityCategory::Movement.label(), "movement");
    assert_eq!(AbilityCategory::Attack.label(), "attack");
    assert_eq!(AbilityCategory::Spell.label(), "spell");
    assert_eq!(AbilityCategory::Posture.label(), "posture");
}

#[test]
fn only_movement_shares_a_requirement() {
    assert_eq!(
        AbilityCategory::Movement.shared_requirement(),
        Some(Requirement::EnoughEnergy)
    );
    assert_eq!(AbilityCategory::Attack.shared_requirement(), None);
    assert_eq!(AbilityCategory::Spell.shared_requirement(), None);
    assert_eq!(AbilityCategory::Posture.shared_requirement(), None);
}
