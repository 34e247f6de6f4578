use timeline_tactics::hud::log::{damage_text, death_text, BattleLog};
use timeline_tactics::units::Faction;

/// The engine stamps each line with the virtual second it happened at.
fn stamped(at: f32, text: &str) -> String {
    format!("[{at:.1}s] {text}")
}

fn logged(line: String) -> String {
    let mut log = BattleLog::new();
    log.push(line);
    log.entries().last().map(|s| s.to_string()).unwrap_or_default()
}

#[test]
fn a_hit_names_the_side_that_struck() {
    let text = damage_text(Some(Faction::Enemy), Some(Faction::Player), 12);
    assert_eq!(
        logged(stamped(3.5, &text)),
        "[3.5s] 敌人 命中 玩家，造成 12 点伤害",
        "前缀是命中时刻，语序 = 出手方 → 受击方 → 数值"
    );
}

#[test]
fn a_line_is_stamped_with_the_moment_it_happened() {
    let text = damage_text(Some(Faction::Enemy), Some(Faction::Player), 7);
    let line = logged(stamped(12.3, &text));
    assert!(line.starts_with("[12.3s]"), "命中行要带那一刻的虚拟时刻，实际：{line}");
}

#[test]
fn the_two_side_labels_are_never_glued_together() {
    for attacker in [Faction::Player, Faction::Enemy] {
        for target in [Faction::Player, Faction::Enemy] {
            let text = damage_text(Some(attacker), Some(target), 1);
            for glued in ["敌人玩家", "玩家敌人", "玩家玩家", "敌人敌人"] {
                assert!(!text.contains(glued), "两方标签贴在一起了（{glued}）：{text}");
            }
        }
    }
}

#[test]
fn environmental_damage_has_no_attacker() {
    let text = damage_text(None, Some(Faction::Player), 3);
    assert!(text.contains("玩家"), "{text}");
    assert!(!text.contains("敌人"), "没有来源时不该凭空写一个出手方：{text}");
    assert_eq!(text, "玩家 受到 3 点伤害");
}

#[test]
fn a_target_without_a_side_is_a_unit() {
    assert_eq!(damage_text(Some(Faction::Player), None, -4), "玩家 命中 单位，造成 -4 点伤害");
    assert_eq!(death_text(None, None), "单位 阵亡");
}

#[test]
fn a_death_names_the_killer() {
    let text = death_text(Some(Faction::Player), Some(Faction::Enemy));
    assert_eq!(logged(stamped(8.0, &text)), "[8.0s] 玩家 被敌人击杀", "死亡行也要带致命一击的时刻");
}

#[test]
fn a_death_without_a_killer_stays_plain() {
    let text = death_text(Some(Faction::Player), None);
    assert!(text.contains("阵亡"));
    assert_eq!(text, "玩家 阵亡");
}

#[test]
fn numbers_read_as_decimals_at_every_size() {
    for amount in [i32::MIN, -10, -1, 0, 7, 10, 99, 100, i32::MAX] {
        assert_eq!(
            damage_text(None, Some(Faction::Enemy), amount),
            format!("敌人 受到 {amount} 点伤害")
        );
    }
}
