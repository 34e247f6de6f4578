use timeline_tactics::hud::panels::{insight_of, PanelSlot, MAX_ENEMY_ROWS};
use timeline_tactics::hud::skill_bar::{
    affordability, badge_text, counter_hints, CounterHint, CounterSuggestion,
};
use timeline_tactics::hud::unit_panels::{Gauge, UnitPanels, UnitRow};
use timeline_tactics::skills::defs::{AbilityId, CounterCost};
use timeline_tactics::timeline::decision::DecisionSlot;
use timeline_tactics::units::{Cell, Faction, Tactic};

type Position = [f32; 3];

fn distance(a: Position, b: Position) -> f32 {
    let dx = a[0] - b[0];
    let dy = a[1] - b[1];
    let dz = a[2] - b[2];
    (dx * dx + dy * dy + dz * dz).sqrt()
}

fn gauge(max: i32) -> Gauge {
    Gauge { current: max, max }
}

/// A row as the engine reads it, with the distance key taken against `player_at`
/// (the bit pattern of a non-negative `f32` orders as the value does).
fn row(faction: Faction, cell: Cell, position: Position) -> UnitRow<Position, f32> {
    UnitRow {
        faction,
        health: gauge(50),
        stamina: Some(gauge(3)),
        ammo: Some(gauge(3)),
        cell,
        position,
        distance_key: distance(position, [0.0, 0.0, 0.0]).to_bits(),
        slot: DecisionSlot::Idle { intent: None },
        dodging: false,
        parrying: false,
        airborne: false,
        tactic: None,
        armor: Some(1),
        insight: None,
    }
}

fn distance_text(panels: &UnitPanels<Position, f32>, slot: PanelSlot) -> Option<String> {
    let row = panels.of(slot)?;
    let player = panels.player_position()?;
    Some(format!("{:.1}", distance(row.position, player)))
}

fn state_line(panels: &UnitPanels<Position, f32>, slot: PanelSlot) -> String {
    let text = distance_text(panels, slot);
    panels.state_line(slot, text.as_deref())
}

#[test]
fn model_state_line_carries_defense_and_intent() {
    let mut enemy = row(Faction::Enemy, Cell::new(3, 3), [0.0, 0.0, 0.0]);
    enemy.slot = DecisionSlot::Executing { until: f32::INFINITY };
    enemy.dodging = true;
    enemy.tactic = Some(Tactic::Approach);

    let distance = format!("{:.1}", 7.12f32);
    let line = enemy.state_line("ENEMY 1", Some(&distance));
    assert!(line.contains("ENEMY 1"), "名字由调用方给：{line}");
    assert!(line.contains("dodging"), "防御标记优先于 ready/busy：{line}");
    assert!(line.contains("cell ( 3, 3)"), "{line}");
    assert!(line.contains("dist 7.1"), "{line}");
    assert!(line.contains("approach"), "{line}");
}

#[test]
fn the_state_line_carries_the_effective_armor() {
    let mut unit = row(Faction::Player, Cell::new(0, 0), [0.0, 0.0, 0.0]);
    unit.armor = Some(3);
    assert!(
        unit.state_line("PLAYER", None).contains("arm 3"),
        "面板要显示有效护甲：{}",
        unit.state_line("PLAYER", None)
    );

    let mut without = row(Faction::Enemy, Cell::new(0, 0), [0.0, 0.0, 0.0]);
    without.armor = None;
    assert!(!without.state_line("ENEMY 1", None).contains("arm"), "缺组件就不显示");
}

#[test]
fn the_state_line_carries_the_ammo() {
    let mut unit = row(Faction::Player, Cell::new(0, 0), [0.0, 0.0, 0.0]);
    unit.ammo = Some(Gauge { current: 3, max: 3 });
    assert!(
        unit.state_line("PLAYER", None).contains("ammo 3/3"),
        "面板要显示弹药：{}",
        unit.state_line("PLAYER", None)
    );

    let mut without = row(Faction::Enemy, Cell::new(0, 0), [0.0, 0.0, 0.0]);
    without.ammo = None;
    assert!(!without.state_line("ENEMY 1", None).contains("ammo"), "缺组件就不显示");
}

#[test]
fn the_state_line_reads_in_a_fixed_order() {
    let mut unit = row(Faction::Enemy, Cell::new(-2, 10), [0.0, 0.0, 0.0]);
    unit.airborne = true;
    unit.slot = DecisionSlot::Executing { until: 1.0 };
    unit.ammo = Some(Gauge { current: 2, max: 3 });
    unit.tactic = Some(Tactic::Retreat);
    assert_eq!(
        unit.state_line("ENEMY 2", Some("4.0")),
        "ENEMY 2 · busy · air · cell (-2,10) · ammo 2/3 · arm 1 · dist 4.0 · retreat"
    );
    unit.parrying = true;
    unit.airborne = false;
    unit.ammo = None;
    unit.armor = None;
    unit.tactic = None;
    assert_eq!(unit.state_line("ENEMY 2", None), "ENEMY 2 · parrying · cell (-2,10)");
}

#[test]
fn only_the_enemy_line_carries_the_distance_to_the_player() {
    let panels = UnitPanels::from_rows(&[
        row(Faction::Player, Cell::new(0, 0), [0.0, 0.0, 0.0]),
        row(Faction::Enemy, Cell::new(3, 0), [6.0, 0.0, 0.0]),
    ]);

    let player_line = panels.state_line(PanelSlot::Player, Some("9.9"));
    let enemy_line = state_line(&panels, PanelSlot::Enemy(0));
    assert!(!player_line.contains("dist"), "{player_line}");
    assert!(enemy_line.contains("dist 6.0"), "{enemy_line}");
}

#[test]
fn without_a_player_no_line_carries_a_distance() {
    let panels = UnitPanels::from_rows(&[row(Faction::Enemy, Cell::new(3, 0), [6.0, 0.0, 0.0])]);
    let line = panels.state_line(PanelSlot::Enemy(0), Some("6.0"));
    assert_eq!(line, "ENEMY 1 · ready · cell ( 3, 0) · ammo 3/3 · arm 1");
}

#[test]
fn a_missing_slot_reads_as_empty() {
    let panels = UnitPanels::from_rows(&[row(Faction::Player, Cell::new(0, 0), [0.0, 0.0, 0.0])]);

    let empty = PanelSlot::Enemy(0);
    assert_eq!(state_line(&panels, empty), "");
    assert_eq!(panels.hp_text(empty), "");
    assert_eq!(panels.stamina_text(empty), "");
    assert_eq!(panels.insight_line(empty), "");
    assert!(panels.of(empty).is_none());
    assert_eq!(state_line(&panels, PanelSlot::Enemy(99)), "");
    assert_eq!(panels.hp_text(PanelSlot::Player), "HP 50 / 50");
    assert_eq!(panels.stamina_text(PanelSlot::Player), "EN 3 / 3");
}

#[test]
fn a_unit_without_stamina_shows_a_dash() {
    let mut without = row(Faction::Player, Cell::new(0, 0), [0.0, 0.0, 0.0]);
    without.stamina = None;
    let panels = UnitPanels::from_rows(&[without]);

    assert_eq!(panels.stamina_text(PanelSlot::Player), "EN -");
}

#[test]
fn every_enemy_gets_a_row_ordered_by_distance_whatever_the_iteration_order() {
    let player = row(Faction::Player, Cell::new(0, 0), [0.0, 0.0, 0.0]);
    let near = row(Faction::Enemy, Cell::new(1, 0), [2.0, 0.0, 0.0]);
    let far = row(Faction::Enemy, Cell::new(5, 0), [10.0, 0.0, 0.0]);

    for order in [vec![player, near, far], vec![player, far, near], vec![far, near, player]] {
        let panels = UnitPanels::from_rows(&order);
        assert_eq!(panels.enemies.len(), 2, "两个敌人都该有行");
        assert_eq!(
            panels.enemies[0].cell,
            Cell::new(1, 0),
            "第 0 行必须是离玩家**最近**的那个（与遍历顺序无关）"
        );
        assert_eq!(panels.enemies[1].cell, Cell::new(5, 0), "远的那行在后");
        assert_eq!(panels.name(PanelSlot::Enemy(0)), "ENEMY 1");
        assert_eq!(panels.name(PanelSlot::Enemy(1)), "ENEMY 2");
        assert_eq!(panels.player.map(|p| p.cell), Some(Cell::new(0, 0)));
    }
}

#[test]
fn equidistant_enemies_are_broken_by_cell_order_not_iteration() {
    let player = row(Faction::Player, Cell::new(0, 0), [0.0, 0.0, 0.0]);
    let east = row(Faction::Enemy, Cell::new(2, 0), [4.0, 0.0, 0.0]);
    let west = row(Faction::Enemy, Cell::new(-2, 0), [-4.0, 0.0, 0.0]);

    let a = UnitPanels::from_rows(&[player, east, west]);
    let b = UnitPanels::from_rows(&[player, west, east]);
    assert_eq!(
        a.enemies.iter().map(|row| row.cell).collect::<Vec<_>>(),
        b.enemies.iter().map(|row| row.cell).collect::<Vec<_>>(),
        "并列时两种顺序必须给出同一个次序"
    );
    assert_eq!(a.enemies[0].cell, Cell::new(-2, 0));
}

#[test]
fn a_single_enemy_is_still_shown() {
    let panels = UnitPanels::from_rows(&[
        row(Faction::Player, Cell::new(0, 0), [0.0, 0.0, 0.0]),
        row(Faction::Enemy, Cell::new(3, 0), [6.0, 0.0, 0.0]),
    ]);
    assert_eq!(panels.enemies.len(), 1);
    assert_eq!(panels.of(PanelSlot::Enemy(0)).map(|row| row.cell), Some(Cell::new(3, 0)));
}

#[test]
fn enemies_beyond_the_row_pool_are_dropped_by_rank() {
    let player = row(Faction::Player, Cell::new(0, 0), [0.0, 0.0, 0.0]);
    let mut rows = vec![player];
    for index in 0..MAX_ENEMY_ROWS + 2 {
        let distance = (index + 1) as f32 * 2.0;
        rows.push(row(Faction::Enemy, Cell::new(index as i32 + 1, 0), [distance, 0.0, 0.0]));
    }
    rows.reverse();

    let panels = UnitPanels::from_rows(&rows);
    assert_eq!(panels.enemies.len(), MAX_ENEMY_ROWS, "最多画 {MAX_ENEMY_ROWS} 行");
    for (index, enemy) in panels.enemies.iter().enumerate() {
        assert_eq!(
            enemy.position[0],
            (index + 1) as f32 * 2.0,
            "第 {index} 行应当是按距离排的第 {index} 个敌人"
        );
    }
}

#[test]
fn the_panel_reads_the_insight_of_an_enemy_row() {
    let mut enemy = row(Faction::Enemy, Cell::new(3, 0), [6.0, 0.0, 0.0]);
    enemy.insight = insight_of(Some(2), Some(3), Some(Tactic::Approach));
    let panels = UnitPanels::from_rows(&[enemy]);
    assert_eq!(panels.insight_line(PanelSlot::Enemy(0)), "range 2 · break 3 · approach");
    assert_eq!(panels.insight_line(PanelSlot::Player), "");
    assert_eq!(panels.player_position(), None);
}

#[test]
fn the_first_player_row_takes_the_player_panel() {
    let mut first = row(Faction::Player, Cell::new(1, 1), [0.0, 0.0, 0.0]);
    first.health = Gauge { current: 25, max: 50 };
    let second = row(Faction::Player, Cell::new(2, 2), [0.0, 0.0, 0.0]);
    let panels = UnitPanels::from_rows(&[first, second]);
    assert_eq!(panels.player.map(|p| p.cell), Some(Cell::new(1, 1)));
    assert_eq!(panels.hp_text(PanelSlot::Player), "HP 25 / 50");
    assert!(panels.enemies.is_empty());
}

#[test]
fn counter_hints_map_suggestions_onto_slots() {
    // The bar: a dispatch rule without a catalogue entry, then roll.
    let entries = [None, Some(AbilityId::Roll), Some(AbilityId::Fireball)];
    let roll_index = 1;
    let attack_index = 0;

    let hints = counter_hints(
        &entries,
        Some(&[CounterSuggestion {
            ability: AbilityId::Roll,
            cost: CounterCost::Free,
            affordable: true,
        }]),
    );
    assert_eq!(hints[roll_index], CounterHint::Ready);
    assert_eq!(
        hints[attack_index],
        CounterHint::Off,
        "「攻击」是派发规则、没有目录项，不该被当成反制"
    );
    assert_eq!(hints[2], CounterHint::Off);

    let broke = counter_hints(
        &entries,
        Some(&[CounterSuggestion {
            ability: AbilityId::Roll,
            cost: CounterCost::Resource(1),
            affordable: false,
        }]),
    );
    assert_eq!(broke[roll_index], CounterHint::TooExpensive);

    assert!(
        counter_hints(&entries, None).iter().all(|hint| *hint == CounterHint::Off),
        "没开窗口时不该有任何反制提示"
    );
}

#[test]
fn the_first_suggestion_for_an_ability_decides_its_hint() {
    let entries = [Some(AbilityId::Parry)];
    let hints = counter_hints(
        &entries,
        Some(&[
            CounterSuggestion {
                ability: AbilityId::Roll,
                cost: CounterCost::Free,
                affordable: true,
            },
            CounterSuggestion {
                ability: AbilityId::Parry,
                cost: CounterCost::CancelDecision,
                affordable: false,
            },
            CounterSuggestion {
                ability: AbilityId::Parry,
                cost: CounterCost::Free,
                affordable: true,
            },
        ]),
    );
    assert_eq!(hints, vec![CounterHint::TooExpensive]);
}

#[test]
fn affordability_follows_the_energy_cost() {
    let costs = [0u32, 1, 2, 5];
    let rich = affordability(&costs, Some(u32::MAX));
    assert!(rich.iter().all(|ok| *ok), "精力充足时全部可负担");

    let broke = affordability(&costs, Some(0));
    for (index, ok) in broke.iter().enumerate() {
        assert_eq!(*ok, costs[index] == 0, "{index} 的可用性应当只取决于它的消耗");
    }

    let none = affordability(&costs, None);
    assert!(none.iter().all(|ok| *ok), "场上没玩家时不做灰化");

    assert_eq!(affordability(&costs, Some(2)), vec![true, true, true, false]);
}

#[test]
fn out_of_range_slots_read_empty() {
    let costs = [1u32, 12];
    assert_eq!(badge_text(&costs, costs.len()), "");
    assert_eq!(badge_text(&costs, 1), "12");
    assert_eq!(badge_text(&costs, 0), "1");
}

#[test]
fn badges_read_every_cost_as_a_decimal() {
    let costs = [0u32, 9, 10, 1234, u32::MAX];
    for (index, cost) in costs.iter().enumerate() {
        assert_eq!(badge_text(&costs, index), cost.to_string());
    }
}
