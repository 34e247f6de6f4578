use timeline_tactics::hud::log::{log_body, BattleLog};
use timeline_tactics::hud::readout::{action_line, payload_name};
use timeline_tactics::hud::skill_bar::{affordability, CounterHint};
use timeline_tactics::hud::snapshot::{LogCache, SkillBarCache, TextSnapshot};
use timeline_tactics::skills::defs::AbilityId;

/// The engine's side of the action line: the windup left, written only while pending.
fn line(on_board: bool, action: Option<AbilityId>, execute_at: f32, now: f32) -> String {
    let name = action.map(|a| payload_name(Some(a)));
    let left = (now < execute_at).then(|| format!("{:.1}", (execute_at - now).max(0.0)));
    action_line(on_board, name, left.as_deref())
}

#[test]
fn idle_unit_shows_a_dash() {
    assert_eq!(line(true, None, 0.0, 0.0), "act: -");
}

#[test]
fn missing_unit_shows_down() {
    assert_eq!(line(false, None, 0.0, 0.0), "down");
    assert_eq!(line(false, Some(AbilityId::Move), 1.0, 0.0), "down");
}

#[test]
fn pending_action_is_named_and_windups_show_the_time_left() {
    let shown = line(true, Some(AbilityId::Move), 0.15, 0.0);
    assert!(shown.starts_with("act: move (windup"), "{shown}");
    assert!(shown.ends_with("s)"), "前摇读数要带剩余秒数与单位：{shown}");
    assert_eq!(shown, "act: move (windup 0.2s)");
    assert_eq!(line(true, Some(AbilityId::Move), 0.15, 1.0), "act: move");
}

#[test]
fn the_windup_readout_counts_down_as_time_passes() {
    let seconds = |text: String| -> f32 {
        text.rsplit_once("windup ")
            .and_then(|(_, rest)| rest.trim_end_matches(['s', ')']).parse().ok())
            .unwrap_or_else(|| panic!("读不出前摇剩余秒数：{text}"))
    };
    let before = seconds(line(true, Some(AbilityId::Fireball), 0.6, 0.0));
    let after = seconds(line(true, Some(AbilityId::Fireball), 0.6, 0.3));
    assert!(after < before, "时间前进了，前摇剩余应当变小：{before} → {after}");
}

#[test]
fn a_waiting_payload_reads_as_an_action() {
    assert_eq!(payload_name(Some(AbilityId::Wait)), "action");
    assert_eq!(payload_name(None), "action");
    assert_eq!(payload_name(Some(AbilityId::Parry)), "parry");
}

#[test]
fn action_labels_are_left_alone_when_nothing_changes() {
    let mut cache = TextSnapshot::new();
    assert!(cache.refresh(vec![line(true, None, 0.0, 0.0), line(false, None, 0.0, 0.0)]));
    assert!(
        !cache.refresh(vec!["act: -".to_string(), "down".to_string()]),
        "数据没变就不该被系统盖回去"
    );
    let shown = line(true, Some(AbilityId::Jump), 0.2, 0.0);
    assert!(shown.starts_with("act: jump (windup"), "换了行动就必须重写：{shown}");
    assert!(cache.refresh(vec![shown, "down".to_string()]));
}

#[test]
fn log_body_is_left_alone_when_the_log_has_not_changed() {
    let mut log = BattleLog::default();
    let mut cache = LogCache::new();
    assert_eq!(log_body(&log), "(nothing yet)");
    assert!(cache.refresh(false, log_body(&log)));
    assert!(!cache.refresh(false, log_body(&log)), "没有新日志就不该重建正文");
    log.push("玩家 受到 10 点物理伤害".to_string());
    assert!(log_body(&log).contains("物理伤害"));
    assert!(cache.refresh(false, log_body(&log)), "有了新日志就必须刷新");
    assert!(cache.refresh(true, log_body(&log)), "折叠也要重画");
}

#[test]
fn skill_bar_is_left_alone_when_nothing_changes() {
    let costs = [0u32, 1, 2, 3];
    let bar = |stamina: u32| SkillBarCache {
        selected: 2,
        hovered: None,
        affordable: affordability(&costs, Some(stamina)),
        counters: vec![CounterHint::Off; costs.len()],
    };
    let mut cache = SkillBarCache { selected: 0, hovered: None, affordable: vec![], counters: vec![] };
    assert!(cache.refresh(bar(5)));
    assert!(!cache.refresh(bar(5)), "数据没变就不该重写槽位");
    assert!(cache.refresh(bar(0)), "精力清零 → 2 精力的技能变不可负担，必须重画");
    assert!(!cache.affordable[2]);
}
