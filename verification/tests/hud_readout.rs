use timeline_tactics::hud::readout::readout_line;
use timeline_tactics::skills::defs::CombatTags;
use timeline_tactics::units::{Cell, Faction};

/// The engine's side of the read-out: the time left shows only while it is pending.
fn line(tags: CombatTags, target: Option<Cell>, remaining: f32) -> String {
    let left = (remaining > 0.0).then(|| format!("{remaining:.1}"));
    readout_line(Faction::Enemy, "fireball", target, left.as_deref(), tags)
}

#[test]
fn the_line_carries_who_what_where_how_long_and_how_to_answer() {
    let line = line(CombatTags::strike(), Some(Cell::new(3, 1)), 0.4);
    assert!(line.starts_with("ENEMY · fireball"), "{line}");
    assert!(line.contains("cell (3,1)"), "落点要在读数里：{line}");
    assert!(line.contains("0.4s"), "剩余时间要在读数里：{line}");
    assert!(line.contains("interruptible"), "对抗标签要在读数里：{line}");
    assert_eq!(line, "ENEMY · fireball → cell (3,1) · 0.4s · interruptible");
}

#[test]
fn empty_fields_are_left_out_entirely() {
    let line = line(CombatTags::committed(), None, 0.0);
    assert!(!line.contains("cell"), "没有落点就不该出现落点段：{line}");
    assert!(!line.contains("0.0s") && !line.contains("· 0."), "已经落地就不该出现倒计时：{line}");
    assert!(line.ends_with("super armor"), "{line}");
    assert_eq!(line, "ENEMY · fireball · super armor");
}

#[test]
fn the_remaining_seconds_only_show_while_the_windup_is_still_pending() {
    let pending = line(CombatTags::strike(), None, 0.25);
    assert!(pending.contains("0.2s"), "倒计时显示一位小数：{pending}");
    let landed = line(CombatTags::strike(), None, 0.0);
    assert!(!landed.contains("0.0s"), "{landed}");
}

#[test]
fn the_player_side_and_negative_cells_read_plainly() {
    let line = readout_line(Faction::Player, "move", Some(Cell::new(-1, 0)), None, CombatTags::strike());
    assert_eq!(line, "PLAYER · move → cell (-1,0) · interruptible");
}
