use timeline_tactics::hud::labels::{
    block_message, defense_label, faction_label, faction_letter, faction_prefix, faction_rank,
    interrupt_label, tactic_label,
};
use timeline_tactics::hud::lanes::{lane_roster, staging_lanes, timeline_state_line, LANE_POOL};
use timeline_tactics::hud::log::{log_body, BattleLog, LOG_LINES};
use timeline_tactics::hud::panels::{insight_of, panel_name, slot_prefix, PanelSlot, MAX_ENEMY_ROWS};
use timeline_tactics::hud::skill_bar::{slot_edge, slot_fill, CounterHint, SlotEdge, SlotFill};
use timeline_tactics::hud::threat::sorted_unique_cells;
use timeline_tactics::skills::defs::CombatTags;
use timeline_tactics::timeline::events::ActionBlocked;
use timeline_tactics::units::{
    armor_for, enemy_spawn_cells, player_spawn_cell, Cell, Faction, Tactic, UnitId,
};

#[test]
fn the_insight_line_carries_range_break_resistance_and_tactic() {
    let insight = insight_of(Some(2), Some(3), Some(Tactic::Approach)).unwrap();
    let line = insight.line();
    assert!(line.contains("range 2"), "{line}");
    assert!(
        line.contains("break 3"),
        "打断抗性是「该不该抢一手」的关键数：{line}"
    );
    assert!(line.contains("approach"), "{line}");
    assert_eq!(line, "range 2 · break 3 · approach");
}

#[test]
fn missing_insight_readings_are_left_out_entirely() {
    let bare = insight_of(Some(1), None, None).unwrap();
    assert_eq!(bare.line(), "range 1", "没有前摇就没有打断抗性可读");
    assert_eq!(insight_of(None, None, None), None);
    assert_eq!(
        insight_of(None, Some(-2), None).unwrap().line(),
        "range 0 · break -2"
    );
}

#[test]
fn the_interrupt_readout_matches_the_gate() {
    assert_eq!(interrupt_label(CombatTags::strike()), "interruptible");
    assert_eq!(
        interrupt_label(CombatTags {
            super_armor: true,
            ..CombatTags::strike()
        }),
        "super armor",
        "霸体是「打断不了」，不是「比较难打断」"
    );
    assert_eq!(
        interrupt_label(CombatTags {
            interruptible: false,
            ..CombatTags::strike()
        }),
        "super armor",
        "不可打断与霸体在读数上是同一件事（都断不掉）"
    );
}

#[test]
fn each_refusal_has_its_own_sentence() {
    assert!(block_message(ActionBlocked::no_energy().reason).contains("ENERGY"));
    assert!(block_message(ActionBlocked::busy().reason).contains("CAN'T ACT"));
}

#[test]
fn panel_names_tell_enemies_apart() {
    assert_eq!(panel_name(PanelSlot::Player), "PLAYER");
    assert_eq!(panel_name(PanelSlot::Enemy(0)), "ENEMY 1");
    assert_eq!(panel_name(PanelSlot::Enemy(1)), "ENEMY 2");
    assert_eq!(slot_prefix(PanelSlot::Enemy(2)), "Enemy3");
    assert_eq!(slot_prefix(PanelSlot::Player), "Player");
    assert_eq!(PanelSlot::Enemy(MAX_ENEMY_ROWS - 1).faction(), Faction::Enemy);
    assert_eq!(PanelSlot::Player.faction(), Faction::Player);
}

#[test]
fn short_labels() {
    assert_eq!(faction_label(&Faction::Player), "玩家");
    assert_eq!(faction_label(&Faction::Enemy), "敌人");
    assert_eq!(faction_letter(Faction::Enemy), "E");
    assert_eq!(faction_prefix(Faction::Player), "Player");
    assert!(faction_rank(Faction::Player) < faction_rank(Faction::Enemy));
    assert_eq!(tactic_label(Tactic::Retreat), "retreat");
    assert_eq!(defense_label(true, true, true), "dodging", "防御标记优先");
    assert_eq!(defense_label(false, true, true), "parrying");
    assert_eq!(defense_label(false, false, true), "ready");
    assert_eq!(defense_label(false, false, false), "busy");
}

#[test]
fn the_cells_are_deduped_and_sorted_for_a_stable_pool() {
    let cells = sorted_unique_cells(&[
        Cell::new(3, 1),
        Cell::new(1, 2),
        Cell::new(3, 1),
        Cell::new(1, 1),
    ]);
    assert_eq!(
        cells,
        vec![Cell::new(1, 1), Cell::new(1, 2), Cell::new(3, 1)],
        "去重 + 按格坐标升序：同一局面每帧必须得到同一个顺序（池位才不会跳）"
    );
}

#[test]
fn the_log_keeps_only_the_most_recent_entries() {
    let mut log = BattleLog::default();
    for i in 0..20 {
        log.push(format!("第 {i} 条"));
    }
    let entries: Vec<&str> = log.entries();
    assert_eq!(entries.len(), 16, "上限是 16 条");
    assert_eq!(entries.last(), Some(&"第 19 条"), "留下的是最近的");
    assert_eq!(entries.first(), Some(&"第 4 条"), "最旧的被丢掉");
}

#[test]
fn body_shows_only_the_tail() {
    let mut log = BattleLog::default();
    assert_eq!(log_body(&log), "(nothing yet)");
    for index in 0..(LOG_LINES + 3) {
        log.push(format!("line {index}"));
    }
    let shown = log_body(&log);
    assert_eq!(shown.lines().count(), LOG_LINES);
    assert!(shown.contains(&format!("line {}", LOG_LINES + 2)), "{shown}");
    assert!(!shown.contains("line 0\n"), "最早的几行应当被截掉：{shown}");
}

fn unit(index: u32) -> UnitId {
    UnitId {
        index,
        generation: 0,
    }
}

#[test]
fn the_player_always_takes_the_top_lane() {
    let (enemy_first, enemy_second, player) = (unit(0), unit(1), unit(2));
    let roster = [
        (enemy_first, Faction::Enemy),
        (enemy_second, Faction::Enemy),
        (player, Faction::Player),
    ];
    let lanes = lane_roster(&roster);
    let factions: Vec<Option<Faction>> = lanes.iter().map(|lane| lane.map(|(_, f)| f)).collect();
    assert_eq!(factions.len(), LANE_POOL);
    assert_eq!(factions[0], Some(Faction::Player));
    assert_eq!(factions[1], Some(Faction::Enemy));
    assert_eq!(factions[2], Some(Faction::Enemy));
    assert_eq!(factions[3], None, "空位留 None");
    assert_eq!(lanes[1].map(|(id, _)| id), Some(enemy_first));
}

#[test]
fn only_idle_actors_without_a_schedule_stand_in_staging() {
    let (idle, busy) = (unit(0), unit(1));
    let lanes = lane_roster(&[(idle, Faction::Player), (busy, Faction::Enemy)]);
    // `busy` is free too, but already has a block on its lane.
    let lane_busy = [false, true, false, false];
    assert_eq!(
        staging_lanes(&lanes, &[idle, busy], &lane_busy),
        vec![0],
        "只有既空闲又没排期的人候场"
    );
}

#[test]
fn the_state_line_reads_the_freeze_reasons() {
    assert_eq!(timeline_state_line(None), "TIMELINE · RUNNING");
    let labels: [&str; 2] = ["manual", "threat"];
    assert_eq!(
        timeline_state_line(Some(&labels)),
        "TIMELINE · FROZEN · manual + threat"
    );
}

#[test]
fn both_factions_carry_armor() {
    for faction in [Faction::Player, Faction::Enemy] {
        let armor = armor_for(faction);
        assert!(
            armor >= 0,
            "{faction:?} 的护甲不该是负数（负护甲会让伤害反而变高）"
        );
    }
}

#[test]
fn the_player_is_tougher_than_the_enemy_for_now() {
    assert!(
        armor_for(Faction::Player) >= armor_for(Faction::Enemy),
        "占位设定里玩家不该比敌人脆"
    );
}

#[test]
fn spawn_cells_are_separate() {
    assert_eq!(player_spawn_cell(), Cell::new(1, 0));
    assert_eq!(enemy_spawn_cells(), vec![Cell::new(3, 3), Cell::new(3, 5)]);
}

#[test]
fn the_three_slot_tints_are_distinct_and_locked_wins() {
    assert_ne!(
        slot_fill(true, false, CounterHint::Off),
        slot_fill(true, true, CounterHint::Off)
    );
    assert_ne!(
        slot_fill(true, false, CounterHint::Off),
        slot_fill(false, false, CounterHint::Off)
    );
    assert_eq!(
        slot_fill(false, true, CounterHint::Off),
        slot_fill(false, false, CounterHint::Off),
        "买不起时不该还显示选中色"
    );
}

#[test]
fn hovering_outranks_selection_for_the_border() {
    assert_eq!(slot_edge(true, true, true, CounterHint::Off), SlotEdge::Hover);
    assert_eq!(slot_edge(false, true, true, CounterHint::Off), SlotEdge::Selected);
    assert_eq!(slot_edge(false, false, true, CounterHint::Off), SlotEdge::Plain);
    assert_eq!(
        slot_edge(false, true, false, CounterHint::Off),
        SlotEdge::Plain,
        "选中但付不起：不画金色描边"
    );
}

#[test]
fn a_counter_suggestion_outranks_the_selected_slot() {
    assert_ne!(
        slot_fill(true, false, CounterHint::Ready),
        slot_fill(true, true, CounterHint::Off),
        "能当反制的手不该与普通选中项同色"
    );
    assert_eq!(
        slot_edge(false, true, true, CounterHint::Ready),
        SlotEdge::Counter,
        "既是选中又能反制：画反制色（青色）而不是选中色（金色）"
    );
    assert_eq!(
        slot_edge(true, true, true, CounterHint::Ready),
        SlotEdge::Hover,
        "但悬停仍然最优先"
    );
}

#[test]
fn an_unaffordable_counter_is_still_drawn_differently() {
    let ready = slot_fill(true, false, CounterHint::Ready);
    let blocked = slot_fill(false, false, CounterHint::TooExpensive);
    let plain = slot_fill(true, false, CounterHint::Off);
    assert_ne!(ready, blocked, "付得起与付不起必须可分辨");
    assert_ne!(blocked, plain, "付不起的反制仍要标出来，不能退回普通底色");
    assert_eq!(blocked, SlotFill::CounterBlocked);
}
