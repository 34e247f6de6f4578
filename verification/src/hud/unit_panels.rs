//! The unit panels' model: the player's panel, one row per enemy (nearest to the
//! player first), and the texts each panel shows.
//!
//! The inputs are plain readings of one frame ([`UnitRow`]); the outputs are the rows
//! to draw and their texts, so "what the state line says" and "which enemy gets which
//! row" depend on the data alone, never on the order in which units were visited.

use vstd::prelude::*;

use crate::text::{decimal, signed_text};
use crate::timeline::decision::{DecisionSlot, slot_idle};
use crate::units::{Cell, Faction, Tactic};

use super::labels::{defense_label, defense_text, tactic_label, tactic_name};
use super::panels::{Insight, PanelSlot, MAX_ENEMY_ROWS, insight_text, panel_name, panel_title};

verus! {

/// A gauge as a panel reads it: how much is left out of how much.
#[derive(Debug, Clone, Copy, PartialEq, Eq, Structural)]
pub struct Gauge {
    pub current: i32,
    pub max: i32,
}

/// One unit's readings for one frame: every panel text is derived from it.
#[derive(Debug, Clone, Copy)]
pub struct UnitRow<P, T> {
    pub faction: Faction,
    pub health: Gauge,
    /// `None`: the unit has no energy pool.
    pub stamina: Option<Gauge>,
    /// `None`: the unit carries no ammunition.
    pub ammo: Option<Gauge>,
    pub cell: Cell,
    /// Where the unit stands in the world (the renderer's coordinates, carried through).
    pub position: P,
    /// The distance to the player as an order key: a larger key is farther, an equal
    /// key equally far; every row has the same key when there is no player.
    pub distance_key: u32,
    /// The decision slot: a slot that is free to decide now reads as `ready`, any
    /// other as `busy`.
    pub slot: DecisionSlot<T>,
    pub dodging: bool,
    pub parrying: bool,
    pub airborne: bool,
    pub tactic: Option<Tactic>,
    /// Effective armour (base plus equipment); `None`: the unit has no armour.
    pub armor: Option<i32>,
    /// What can be read off an enemy; `None` on the player's panel.
    pub insight: Option<Insight>,
}

/// Enemy order: nearer to the player first; equally near, the smaller cell (by
/// column, then row) first. The cell only breaks ties, so the result never depends
/// on iteration order.
pub open spec fn nearer<P, T>(a: UnitRow<P, T>, b: UnitRow<P, T>) -> bool {
    a.distance_key < b.distance_key || (a.distance_key == b.distance_key && (a.cell.x < b.cell.x
        || (a.cell.x == b.cell.x && a.cell.z < b.cell.z)))
}

/// `a` may stand before `b`: `b` is not nearer.
pub open spec fn not_farther<P, T>(a: UnitRow<P, T>, b: UnitRow<P, T>) -> bool {
    !nearer(b, a)
}

/// Put `x` into a ranked list after every row that is not farther (a stable insertion).
pub open spec fn rank_insert<P, T>(s: Seq<UnitRow<P, T>>, x: UnitRow<P, T>) -> Seq<UnitRow<P, T>>
    decreases s.len(),
{
    if s.len() == 0 {
        seq![x]
    } else if nearer(x, s.last()) {
        rank_insert(s.drop_last(), x).push(s.last())
    } else {
        s.push(x)
    }
}

/// The rows ranked nearest first (stable: rows with the same key keep their order).
pub open spec fn rank_order<P, T>(s: Seq<UnitRow<P, T>>) -> Seq<UnitRow<P, T>>
    decreases s.len(),
{
    if s.len() == 0 {
        Seq::empty()
    } else {
        rank_insert(rank_order(s.drop_last()), s.last())
    }
}

/// Ranked: no row is nearer than one before it.
pub open spec fn rank_sorted<P, T>(s: Seq<UnitRow<P, T>>) -> bool {
    forall|i: int, j: int| 0 <= i < j < s.len() ==> not_farther(#[trigger] s[i], #[trigger] s[j])
}

/// The enemies' rows, in input order.
pub open spec fn enemy_rows<P, T>(rows: Seq<UnitRow<P, T>>) -> Seq<UnitRow<P, T>>
    decreases rows.len(),
{
    if rows.len() == 0 {
        Seq::empty()
    } else {
        let earlier = enemy_rows(rows.drop_last());
        if rows.last().faction == Faction::Enemy {
            earlier.push(rows.last())
        } else {
            earlier
        }
    }
}

/// The first row of the player's side, if any.
pub open spec fn first_player<P, T>(rows: Seq<UnitRow<P, T>>) -> Option<UnitRow<P, T>>
    decreases rows.len(),
{
    if rows.len() == 0 {
        None
    } else {
        match first_player(rows.drop_last()) {
            Some(row) => Some(row),
            None => if rows.last().faction == Faction::Player {
                Some(rows.last())
            } else {
                None
            },
        }
    }
}

/// The enemy rows the panel column shows: nearest first, at most [`MAX_ENEMY_ROWS`].
pub open spec fn shown_enemies<P, T>(rows: Seq<UnitRow<P, T>>) -> Seq<UnitRow<P, T>> {
    let ranked = rank_order(enemy_rows(rows));
    if ranked.len() <= MAX_ENEMY_ROWS {
        ranked
    } else {
        ranked.take(MAX_ENEMY_ROWS as int)
    }
}

/// One frame of panels: the player's, and the enemies' rows nearest first.
pub struct UnitPanels<P, T> {
    pub player: Option<UnitRow<P, T>>,
    /// At most [`MAX_ENEMY_ROWS`] enemies, nearest to the player first.
    pub enemies: Vec<UnitRow<P, T>>,
}

impl<P, T> Default for UnitPanels<P, T> {
    /// No units: every panel reads empty.
    fn default() -> (panels: UnitPanels<P, T>)
        ensures
            panels.player is None,
            panels.enemies@.len() == 0,
    {
        UnitPanels { player: None, enemies: Vec::new() }
    }
}

impl<P: Copy, T: Copy> UnitPanels<P, T> {
    /// Sort one frame's unit readings into the panels to draw.
    ///
    /// The one rule: enemies are ranked nearest to the player first, and the first
    /// [`MAX_ENEMY_ROWS`] are kept. The rule reads the data only, so one battlefield
    /// state always gives one panel, whatever order the units were visited in.
    pub fn from_rows(rows: &[UnitRow<P, T>]) -> (panels: UnitPanels<P, T>)
        ensures
            panels.player == first_player(rows@),
            panels.enemies@ == shown_enemies(rows@),
    {
        let mut player: Option<UnitRow<P, T>> = None;
        let mut ordered: Vec<UnitRow<P, T>> = Vec::new();
        let mut i: usize = 0;
        while i < rows.len()
            invariant
                0 <= i <= rows@.len(),
                player == first_player(rows@.take(i as int)),
                ordered@ == rank_order(enemy_rows(rows@.take(i as int))),
            decreases rows@.len() - i,
        {
            let row = rows[i];
            proof {
                assert(rows@.take(i + 1).drop_last() =~= rows@.take(i as int));
                assert(rows@.take(i + 1).last() == row);
            }
            match row.faction {
                Faction::Player => {
                    proof {
                        assert(enemy_rows(rows@.take(i + 1)) == enemy_rows(rows@.take(i as int)));
                    }
                    if player.is_none() {
                        player = Some(row);
                    }
                },
                Faction::Enemy => {
                    let ghost before = ordered@;
                    let mut p: usize = ordered.len();
                    proof {
                        assert(before.take(before.len() as int) =~= before);
                        assert(rank_insert(before, row) + before.skip(before.len() as int)
                            =~= rank_insert(before, row));
                    }
                    while p > 0 && (row.distance_key < ordered[p - 1].distance_key || (
                    row.distance_key == ordered[p - 1].distance_key && (row.cell.x < ordered[p
                        - 1].cell.x || (row.cell.x == ordered[p - 1].cell.x && row.cell.z
                        < ordered[p - 1].cell.z))))
                        invariant
                            ordered@ == before,
                            0 <= p <= before.len(),
                            rank_insert(before, row) == rank_insert(before.take(p as int), row)
                                + before.skip(p as int),
                        decreases p,
                    {
                        proof {
                            let t = before.take(p as int);
                            assert(t.drop_last() =~= before.take(p - 1));
                            assert(nearer(row, t.last()));
                            assert(rank_insert(t, row) == rank_insert(t.drop_last(), row).push(
                                t.last(),
                            ));
                            assert(rank_insert(t.drop_last(), row).push(t.last()) + before.skip(
                                p as int,
                            ) =~= rank_insert(before.take(p - 1), row) + before.skip(p - 1));
                        }
                        p = p - 1;
                    }
                    proof {
                        let t = before.take(p as int);
                        if p > 0 {
                            assert(!nearer(row, t.last()));
                            assert(rank_insert(t, row) == t.push(row));
                        } else {
                            assert(rank_insert(t, row) == seq![row]);
                        }
                        assert(rank_insert(t, row) + before.skip(p as int) =~= before.insert(
                            p as int,
                            row,
                        ));
                    }
                    ordered.insert(p, row);
                    proof {
                        let e = enemy_rows(rows@.take(i as int));
                        assert(enemy_rows(rows@.take(i + 1)) == e.push(row));
                        assert(e.push(row).drop_last() =~= e);
                        assert(rank_order(e.push(row)) == rank_insert(rank_order(e), row));
                    }
                },
            }
            i = i + 1;
        }
        proof {
            assert(rows@.take(rows@.len() as int) =~= rows@);
        }
        if ordered.len() > MAX_ENEMY_ROWS {
            ordered.truncate(MAX_ENEMY_ROWS);
        }
        UnitPanels { player, enemies: ordered }
    }
}

/// A gauge read as `current / max`.
pub open spec fn gauge_text(g: Gauge) -> Seq<char> {
    decimal(g.current as int) + " / "@ + decimal(g.max as int)
}

/// A numeral right-aligned in two columns (a leading space for one digit).
pub open spec fn padded2(s: Seq<char>) -> Seq<char> {
    if s.len() < 2 {
        " "@ + s
    } else {
        s
    }
}

/// A row's state line: `name · state[ · air] · cell ( x, z)`, then the ammunition,
/// the armour, the distance to the player and the tactic, each only when there is
/// one.
pub open spec fn row_state_text<P, T>(
    row: UnitRow<P, T>,
    name: Seq<char>,
    distance: Option<Seq<char>>,
) -> Seq<char> {
    let state = defense_text(row.dodging, row.parrying, slot_idle(row.slot));
    let state = if row.airborne {
        state + " · air"@
    } else {
        state
    };
    let head = name + " · "@ + state + " · cell ("@ + padded2(decimal(row.cell.x as int)) + ","@
        + padded2(decimal(row.cell.z as int)) + ")"@;
    let with_ammo = match row.ammo {
        Some(ammo) => head + " · ammo "@ + decimal(ammo.current as int) + "/"@ + decimal(
            ammo.max as int,
        ),
        None => head,
    };
    let with_armor = match row.armor {
        Some(armor) => with_ammo + " · arm "@ + decimal(armor as int),
        None => with_ammo,
    };
    let with_distance = match distance {
        Some(d) => with_armor + " · dist "@ + d,
        None => with_armor,
    };
    match row.tactic {
        Some(tactic) => with_distance + " · "@ + tactic_name(tactic),
        None => with_distance,
    }
}

/// Append a numeral right-aligned in two columns.
fn append_padded2(line: &mut String, n: i32)
    ensures
        final(line)@ == old(line)@ + padded2(decimal(n as int)),
{
    let number = signed_text(n as i64);
    if number.as_str().unicode_len() < 2 {
        line.append(" ");
    }
    line.append(number.as_str());
    proof {
        if decimal(n as int).len() < 2 {
            assert(old(line)@ + " "@ + decimal(n as int) =~= old(line)@ + padded2(
                decimal(n as int),
            ));
        }
    }
}

impl<P, T> UnitRow<P, T> {
    /// The state line: `PLAYER · ready · cell ( 1, 1) · arm 3`.
    ///
    /// The caller gives the name (the panel knows whether this is the player or which
    /// enemy) and the distance to the player already written out, when it is to be
    /// shown; this method lays the row's own readings out on one line.
    pub fn state_line(&self, name: &str, to_player: Option<&str>) -> (line: String)
        ensures
            line@ == row_state_text(
                *self,
                name@,
                match to_player {
                    Some(d) => Some(d@),
                    None => None,
                },
            ),
    {
        let ghost state = defense_text(self.dodging, self.parrying, slot_idle(self.slot));
        let mut line = String::from_str(name);
        line.append(" · ");
        line.append(defense_label(self.dodging, self.parrying, self.slot.is_idle()));
        if self.airborne {
            line.append(" · air");
        }
        line.append(" · cell (");
        append_padded2(&mut line, self.cell.x);
        line.append(",");
        append_padded2(&mut line, self.cell.z);
        line.append(")");
        let ghost head = line@;
        proof {
            let st = if self.airborne {
                state + " · air"@
            } else {
                state
            };
            assert(head =~= name@ + " · "@ + st + " · cell ("@ + padded2(decimal(self.cell.x as int))
                + ","@ + padded2(decimal(self.cell.z as int)) + ")"@);
        }
        match self.ammo {
            Some(ammo) => {
                line.append(" · ammo ");
                let current = signed_text(ammo.current as i64);
                line.append(current.as_str());
                line.append("/");
                let max = signed_text(ammo.max as i64);
                line.append(max.as_str());
                proof {
                    assert(line@ =~= head + " · ammo "@ + decimal(ammo.current as int) + "/"@
                        + decimal(ammo.max as int));
                }
            },
            None => {},
        }
        let ghost with_ammo = line@;
        match self.armor {
            Some(armor) => {
                line.append(" · arm ");
                let number = signed_text(armor as i64);
                line.append(number.as_str());
                proof {
                    assert(line@ =~= with_ammo + " · arm "@ + decimal(armor as int));
                }
            },
            None => {},
        }
        let ghost with_armor = line@;
        match to_player {
            Some(d) => {
                line.append(" · dist ");
                line.append(d);
                proof {
                    assert(line@ =~= with_armor + " · dist "@ + d@);
                }
            },
            None => {},
        }
        let ghost with_distance = line@;
        match self.tactic {
            Some(tactic) => {
                line.append(" · ");
                line.append(tactic_label(tactic));
                proof {
                    assert(line@ =~= with_distance + " · "@ + tactic_name(tactic));
                }
            },
            None => {},
        }
        line
    }
}

/// The HP text of a gauge: `HP 50 / 50`.
pub open spec fn hp_line(health: Gauge) -> Seq<char> {
    "HP "@ + gauge_text(health)
}

/// The energy text: `EN 3 / 5`, or `EN -` for a unit without an energy pool.
pub open spec fn energy_line(stamina: Option<Gauge>) -> Seq<char> {
    match stamina {
        Some(g) => "EN "@ + gauge_text(g),
        None => "EN -"@,
    }
}

impl<P, T> UnitPanels<P, T> {
    /// The row a panel shows, if that panel has a unit this frame.
    pub open spec fn row_at(&self, slot: PanelSlot) -> Option<UnitRow<P, T>> {
        match slot {
            PanelSlot::Player => self.player,
            PanelSlot::Enemy(index) => if index < self.enemies@.len() {
                Some(self.enemies@[index as int])
            } else {
                None
            },
        }
    }

    /// The readings of one panel (a panel without a unit reads nothing).
    pub fn of(&self, slot: PanelSlot) -> (r: Option<&UnitRow<P, T>>)
        ensures
            r is None <==> self.row_at(slot) is None,
            r matches Some(row) ==> self.row_at(slot) == Some(*row),
    {
        match slot {
            PanelSlot::Player => match &self.player {
                Some(row) => Some(row),
                None => None,
            },
            PanelSlot::Enemy(index) => {
                if index < self.enemies.len() {
                    Some(&self.enemies[index])
                } else {
                    None
                }
            },
        }
    }

    /// The name a panel shows (`PLAYER` / `ENEMY 1`), so several enemies can be told
    /// apart.
    pub fn name(&self, slot: PanelSlot) -> (r: String)
        requires
            slot matches PanelSlot::Enemy(index) ==> index < usize::MAX,
        ensures
            r@ == panel_title(slot),
    {
        panel_name(slot)
    }

    /// The HP text of a panel (empty when the panel has no unit).
    pub fn hp_text(&self, slot: PanelSlot) -> (r: String)
        ensures
            r@ == match self.row_at(slot) {
                Some(row) => hp_line(row.health),
                None => Seq::<char>::empty(),
            },
    {
        match self.of(slot) {
            Some(row) => {
                let mut text = String::from_str("HP ");
                let current = signed_text(row.health.current as i64);
                text.append(current.as_str());
                text.append(" / ");
                let max = signed_text(row.health.max as i64);
                text.append(max.as_str());
                proof {
                    assert(text@ =~= hp_line(row.health));
                }
                text
            },
            None => {
                proof {
                    reveal_strlit("");
                }
                String::from_str("")
            },
        }
    }

    /// The energy text of a panel (empty when the panel has no unit; `EN -` for a
    /// unit without an energy pool rather than `0 / 0`).
    pub fn stamina_text(&self, slot: PanelSlot) -> (r: String)
        ensures
            r@ == match self.row_at(slot) {
                Some(row) => energy_line(row.stamina),
                None => Seq::<char>::empty(),
            },
    {
        match self.of(slot) {
            Some(row) => match row.stamina {
                Some(stamina) => {
                    let mut text = String::from_str("EN ");
                    let current = signed_text(stamina.current as i64);
                    text.append(current.as_str());
                    text.append(" / ");
                    let max = signed_text(stamina.max as i64);
                    text.append(max.as_str());
                    proof {
                        assert(text@ =~= energy_line(row.stamina));
                    }
                    text
                },
                None => String::from_str("EN -"),
            },
            None => {
                proof {
                    reveal_strlit("");
                }
                String::from_str("")
            },
        }
    }

    /// The insight line of a panel (empty for the player's panel and for an empty one).
    pub fn insight_line(&self, slot: PanelSlot) -> (r: String)
        ensures
            r@ == match self.row_at(slot) {
                Some(row) => match row.insight {
                    Some(insight) => insight_text(insight),
                    None => Seq::<char>::empty(),
                },
                None => Seq::<char>::empty(),
            },
    {
        proof {
            reveal_strlit("");
        }
        match self.of(slot) {
            Some(row) => match row.insight {
                Some(insight) => insight.line(),
                None => String::from_str(""),
            },
            None => String::from_str(""),
        }
    }

    /// The state line of a panel (empty when the panel has no unit).
    ///
    /// Only an enemy's line carries the distance to the player, and only while there
    /// is a player: `to_player` is that distance written out, shown under exactly
    /// those conditions.
    pub fn state_line(&self, slot: PanelSlot, to_player: Option<&str>) -> (line: String)
        ensures
            line@ == match self.row_at(slot) {
                Some(row) => row_state_text(
                    row,
                    panel_title(slot),
                    if slot is Enemy && self.player is Some {
                        match to_player {
                            Some(d) => Some(d@),
                            None => None,
                        }
                    } else {
                        None
                    },
                ),
                None => Seq::<char>::empty(),
            },
    {
        match self.of(slot) {
            None => {
                proof {
                    reveal_strlit("");
                }
                String::from_str("")
            },
            Some(row) => {
                let shown = match slot {
                    PanelSlot::Enemy(_) => if self.player.is_some() {
                        to_player
                    } else {
                        None
                    },
                    PanelSlot::Player => None,
                };
                let name = match slot {
                    PanelSlot::Player => self.name(slot),
                    PanelSlot::Enemy(index) => {
                        let rows = self.enemies.len();
                        proof {
                            assert(index < rows);
                        }
                        self.name(slot)
                    },
                };
                row.state_line(name.as_str(), shown)
            },
        }
    }
}

impl<P: Copy, T> UnitPanels<P, T> {
    /// Where the player stands (an enemy row's distance is measured from it).
    pub fn player_position(&self) -> (r: Option<P>)
        ensures
            r == match self.player {
                Some(row) => Some(row.position),
                None => None,
            },
    {
        match &self.player {
            Some(row) => Some(row.position),
            None => None,
        }
    }
}

proof fn lemma_rank_insert_facts<P, T>(s: Seq<UnitRow<P, T>>, x: UnitRow<P, T>)
    requires
        rank_sorted(s),
    ensures
        rank_sorted(rank_insert(s, x)),
        rank_insert(s, x).to_multiset() == s.to_multiset().insert(x),
        rank_insert(s, x).len() == s.len() + 1,
    decreases s.len(),
{
    broadcast use vstd::seq_lib::group_to_multiset_ensures;

    if s.len() == 0 {
        assert(seq![x] =~= Seq::<UnitRow<P, T>>::empty().push(x));
    } else if nearer(x, s.last()) {
        let init = s.drop_last();
        assert(rank_sorted(init)) by {
            assert forall|i: int, j: int| 0 <= i < j < init.len() implies not_farther(
                #[trigger] init[i],
                #[trigger] init[j],
            ) by {
                assert(init[i] == s[i] && init[j] == s[j]);
            }
        }
        lemma_rank_insert_facts(init, x);
        let r = rank_insert(init, x);
        let t = r.push(s.last());
        assert forall|i: int, j: int| 0 <= i < j < t.len() implies not_farther(
            #[trigger] t[i],
            #[trigger] t[j],
        ) by {
            if j == t.len() - 1 {
                // Every row of `r` is `x` or a row of `init`; none is farther than the last.
                let e = t[i];
                assert(r[i] == e);
                assert(r.to_multiset().count(e) > 0) by {
                    assert(r.contains(e));
                }
                assert(init.to_multiset().insert(x).count(e) > 0);
                if e != x {
                    assert(init.to_multiset().count(e) > 0);
                    assert(init.contains(e));
                    let k = choose|k: int| 0 <= k < init.len() && init[k] == e;
                    assert(s[k] == e);
                    assert(not_farther(s[k], s[s.len() - 1]));
                }
            } else {
                assert(t[i] == r[i] && t[j] == r[j]);
            }
        }
        assert(s =~= init.push(s.last()));
        assert(t.to_multiset() == r.to_multiset().insert(s.last()));
        assert(init.push(s.last()).to_multiset() == init.to_multiset().insert(s.last()));
        assert(r.to_multiset().insert(s.last()) =~= init.to_multiset().insert(x).insert(s.last()));
        assert(s.to_multiset().insert(x) =~= init.to_multiset().insert(s.last()).insert(x));
    } else {
        let t = s.push(x);
        assert forall|i: int, j: int| 0 <= i < j < t.len() implies not_farther(
            #[trigger] t[i],
            #[trigger] t[j],
        ) by {
            if j == t.len() - 1 {
                assert(t[i] == s[i]);
                if i < s.len() - 1 {
                    assert(not_farther(s[i], s[s.len() - 1]));
                }
            } else {
                assert(t[i] == s[i] && t[j] == s[j]);
            }
        }
    }
}

/// Ranking really is an ordering of the same rows: nearest first, none lost or added.
pub proof fn lemma_rank_order_sorts<P, T>(s: Seq<UnitRow<P, T>>)
    ensures
        rank_sorted(rank_order(s)),
        rank_order(s).to_multiset() == s.to_multiset(),
        rank_order(s).len() == s.len(),
    decreases s.len(),
{
    broadcast use vstd::seq_lib::group_to_multiset_ensures;

    if s.len() > 0 {
        lemma_rank_order_sorts(s.drop_last());
        lemma_rank_insert_facts(rank_order(s.drop_last()), s.last());
        assert(s =~= s.drop_last().push(s.last()));
    }
}

/// The enemy rows are the input's rows of the enemy side, as many times as they occur.
proof fn lemma_enemy_rows_count<P, T>(rows: Seq<UnitRow<P, T>>, r: UnitRow<P, T>)
    ensures
        enemy_rows(rows).to_multiset().count(r) == if r.faction == Faction::Enemy {
            rows.to_multiset().count(r)
        } else {
            0
        },
    decreases rows.len(),
{
    broadcast use vstd::seq_lib::group_to_multiset_ensures;

    if rows.len() == 0 {
        assert(enemy_rows(rows) =~= Seq::<UnitRow<P, T>>::empty());
    } else {
        lemma_enemy_rows_count(rows.drop_last(), r);
        assert(rows =~= rows.drop_last().push(rows.last()));
    }
}

/// Two ranked lists of the same rows, where rows equally near and in the same cell
/// are the same row, are the same list.
proof fn lemma_ranked_lists_agree<P, T>(a: Seq<UnitRow<P, T>>, b: Seq<UnitRow<P, T>>)
    requires
        rank_sorted(a),
        rank_sorted(b),
        a.to_multiset() == b.to_multiset(),
        forall|x: UnitRow<P, T>, y: UnitRow<P, T>|
            #![trigger a.to_multiset().count(x), a.to_multiset().count(y)]
            a.to_multiset().count(x) > 0 && a.to_multiset().count(y) > 0 && !nearer(x, y)
                && !nearer(y, x) ==> x == y,
    ensures
        a == b,
    decreases a.len(),
{
    broadcast use vstd::seq_lib::group_to_multiset_ensures;

    assert(a.to_multiset().len() == a.len());
    assert(b.to_multiset().len() == b.len());
    if a.len() == 0 {
        assert(a =~= b);
    } else {
        let x = a[0];
        let y = b[0];
        assert(a.contains(x));
        assert(b.contains(y));
        assert(b.to_multiset().count(x) > 0);
        assert(a.to_multiset().count(y) > 0);
        assert(b.contains(x));
        assert(a.contains(y));
        let i = choose|i: int| 0 <= i < b.len() && b[i] == x;
        let j = choose|j: int| 0 <= j < a.len() && a[j] == y;
        if j > 0 {
            assert(not_farther(a[0], a[j]));
        }
        if i > 0 {
            assert(not_farther(b[0], b[i]));
        }
        assert(x == y);
        let ta = a.remove(0);
        let tb = b.remove(0);
        assert(ta.to_multiset() == a.to_multiset().remove(x));
        assert(tb.to_multiset() == b.to_multiset().remove(y));
        assert(rank_sorted(ta)) by {
            assert forall|p: int, q: int| 0 <= p < q < ta.len() implies not_farther(
                #[trigger] ta[p],
                #[trigger] ta[q],
            ) by {
                assert(ta[p] == a[p + 1] && ta[q] == a[q + 1]);
            }
        }
        assert(rank_sorted(tb)) by {
            assert forall|p: int, q: int| 0 <= p < q < tb.len() implies not_farther(
                #[trigger] tb[p],
                #[trigger] tb[q],
            ) by {
                assert(tb[p] == b[p + 1] && tb[q] == b[q + 1]);
            }
        }
        assert forall|u: UnitRow<P, T>, v: UnitRow<P, T>|
            #![trigger ta.to_multiset().count(u), ta.to_multiset().count(v)]
            ta.to_multiset().count(u) > 0 && ta.to_multiset().count(v) > 0 && !nearer(u, v)
                && !nearer(v, u) implies u == v by {
            assert(a.to_multiset().count(u) > 0);
            assert(a.to_multiset().count(v) > 0);
        }
        lemma_ranked_lists_agree(ta, tb);
        assert(a =~= seq![x] + ta);
        assert(b =~= seq![y] + tb);
    }
}

/// The player's panel shows the first row of the player's side: a row of the input,
/// of the player's side, with no row of that side before it; no row at all when the
/// input has none.
pub proof fn lemma_first_player_facts<P, T>(rows: Seq<UnitRow<P, T>>)
    ensures
        first_player(rows) matches Some(row) ==> exists|i: int|
            0 <= i < rows.len() && #[trigger] rows[i] == row && row.faction == Faction::Player
                && forall|j: int| 0 <= j < i ==> (#[trigger] rows[j]).faction != Faction::Player,
        first_player(rows) matches Some(row) ==> rows.contains(row) && row.faction
            == Faction::Player,
        first_player(rows) is None ==> forall|i: int|
            0 <= i < rows.len() ==> #[trigger] rows[i].faction != Faction::Player,
    decreases rows.len(),
{
    if rows.len() > 0 {
        let init = rows.drop_last();
        lemma_first_player_facts(init);
        if let Some(row) = first_player(init) {
            let k = choose|k: int| 0 <= k < init.len() && init[k] == row;
            assert(rows[k] == row);
            let i = choose|i: int|
                0 <= i < init.len() && #[trigger] init[i] == row && row.faction == Faction::Player
                    && forall|j: int| 0 <= j < i ==> (#[trigger] init[j]).faction != Faction::Player;
            assert(rows[i] == row);
            assert forall|j: int| 0 <= j < i implies (#[trigger] rows[j]).faction
                != Faction::Player by {
                assert(rows[j] == init[j]);
            }
        } else {
            assert forall|i: int| 0 <= i < init.len() implies #[trigger] rows[i].faction
                != Faction::Player by {
                assert(rows[i] == init[i]);
            }
            if rows.last().faction == Faction::Player {
                assert(rows[rows.len() - 1] == rows.last());
            }
        }
    }
}

/// One battlefield state always gives one panel, whatever order the units were
/// visited in: reading the same rows in another order gives the same player panel
/// and the same enemy rows in the same order.
///
/// The ranking looks at the distance and the cell only, so this holds as long as
/// enemy rows that tie on both (equally far, same cell) are the same reading, and
/// the player's rows are all the same reading (one player per battlefield).
pub proof fn lemma_panels_ignore_visit_order<P, T>(
    rows: Seq<UnitRow<P, T>>,
    reordered: Seq<UnitRow<P, T>>,
)
    requires
        reordered.to_multiset() == rows.to_multiset(),
        forall|i: int, j: int|
            0 <= i < j < rows.len() && #[trigger] rows[i].faction == Faction::Player
                && #[trigger] rows[j].faction == Faction::Player ==> rows[i] == rows[j],
        forall|i: int, j: int|
            0 <= i < j < rows.len() && #[trigger] rows[i].faction == Faction::Enemy
                && #[trigger] rows[j].faction == Faction::Enemy && rows[i].distance_key
                == rows[j].distance_key && rows[i].cell == rows[j].cell ==> rows[i] == rows[j],
    ensures
        first_player(reordered) == first_player(rows),
        shown_enemies(reordered) == shown_enemies(rows),
{
    broadcast use vstd::seq_lib::group_to_multiset_ensures;

    // The player panel.
    lemma_first_player_facts(rows);
    lemma_first_player_facts(reordered);
    match first_player(rows) {
        Some(p) => {
            assert(rows.to_multiset().count(p) > 0);
            assert(reordered.contains(p));
            let m = choose|m: int| 0 <= m < reordered.len() && reordered[m] == p;
            assert(reordered[m].faction == Faction::Player);
            let q = first_player(reordered)->0;
            assert(reordered.to_multiset().count(q) > 0);
            assert(rows.contains(q));
            let i = choose|i: int| 0 <= i < rows.len() && rows[i] == p;
            let j = choose|j: int| 0 <= j < rows.len() && rows[j] == q;
            if i < j {
                assert(rows[i] == rows[j]);
            } else if j < i {
                assert(rows[j] == rows[i]);
            }
        },
        None => {
            if let Some(q) = first_player(reordered) {
                assert(reordered.to_multiset().count(q) > 0);
                assert(rows.contains(q));
                let j = choose|j: int| 0 <= j < rows.len() && rows[j] == q;
                assert(rows[j].faction != Faction::Player);
            }
        },
    }

    // The enemy rows.
    let e1 = enemy_rows(rows);
    let e2 = enemy_rows(reordered);
    assert(e1.to_multiset() =~= e2.to_multiset()) by {
        assert forall|r: UnitRow<P, T>| e1.to_multiset().count(r) == e2.to_multiset().count(r) by {
            lemma_enemy_rows_count(rows, r);
            lemma_enemy_rows_count(reordered, r);
        }
    }
    let o1 = rank_order(e1);
    let o2 = rank_order(e2);
    lemma_rank_order_sorts(e1);
    lemma_rank_order_sorts(e2);
    assert forall|x: UnitRow<P, T>, y: UnitRow<P, T>|
        #![trigger o1.to_multiset().count(x), o1.to_multiset().count(y)]
        o1.to_multiset().count(x) > 0 && o1.to_multiset().count(y) > 0 && !nearer(x, y)
            && !nearer(y, x) implies x == y by {
        lemma_enemy_rows_count(rows, x);
        lemma_enemy_rows_count(rows, y);
        assert(rows.contains(x));
        assert(rows.contains(y));
        let i = choose|i: int| 0 <= i < rows.len() && rows[i] == x;
        let j = choose|j: int| 0 <= j < rows.len() && rows[j] == y;
        assert(x.cell == y.cell && x.distance_key == y.distance_key);
        if i < j {
            assert(rows[i] == rows[j]);
        } else if j < i {
            assert(rows[j] == rows[i]);
        }
    }
    lemma_ranked_lists_agree(o1, o2);
}

/// The enemy rows on the panel are the nearest ones: ranked nearest first, as many as
/// there are enemies up to [`MAX_ENEMY_ROWS`], each an enemy row of the input, and
/// every enemy left out is at least as far as every enemy shown.
pub proof fn lemma_shown_enemies_are_the_nearest<P, T>(rows: Seq<UnitRow<P, T>>)
    ensures
        rank_sorted(shown_enemies(rows)),
        shown_enemies(rows).len() == if enemy_rows(rows).len() <= MAX_ENEMY_ROWS {
            enemy_rows(rows).len()
        } else {
            MAX_ENEMY_ROWS as nat
        },
        forall|k: int|
            0 <= k < shown_enemies(rows).len() ==> #[trigger] shown_enemies(rows)[k].faction
                == Faction::Enemy && rows.contains(shown_enemies(rows)[k]),
        forall|r: UnitRow<P, T>, k: int|
            #![trigger rows.contains(r), shown_enemies(rows)[k]]
            rows.contains(r) && r.faction == Faction::Enemy && !shown_enemies(rows).contains(r)
                && 0 <= k < shown_enemies(rows).len() ==> not_farther(shown_enemies(rows)[k], r),
{
    broadcast use vstd::seq_lib::group_to_multiset_ensures;

    let e = enemy_rows(rows);
    let o = rank_order(e);
    let shown = shown_enemies(rows);
    lemma_rank_order_sorts(e);
    assert forall|k: int| 0 <= k < shown.len() implies #[trigger] shown[k].faction
        == Faction::Enemy && rows.contains(shown[k]) by {
        assert(shown[k] == o[k]);
        assert(o.contains(o[k]));
        lemma_enemy_rows_count(rows, o[k]);
    }
    assert forall|r: UnitRow<P, T>, k: int|
        #![trigger rows.contains(r), shown[k]]
        rows.contains(r) && r.faction == Faction::Enemy && !shown.contains(r) && 0 <= k
            < shown.len() implies not_farther(shown[k], r) by {
        lemma_enemy_rows_count(rows, r);
        assert(o.contains(r));
        let m = choose|m: int| 0 <= m < o.len() && o[m] == r;
        if m < shown.len() {
            assert(shown[m] == r);
        }
        assert(shown[k] == o[k]);
    }
}

} // verus!
