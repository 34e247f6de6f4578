//! The timeline strip's discrete layout: one lane per unit (the player on top), the
//! staging area for units that are free but have declared nothing, and the status
//! line that says why the world is frozen.

use vstd::prelude::*;

use crate::units::{Faction, UnitId};

use super::labels::{faction_letter, faction_rank, side_letter, side_rank};

verus! {

/// Lane pool size (one lane per unit: the player, the enemies, room for summons).
pub const LANE_POOL: usize = 4;

/// Lane order of a unit: the player first, then by slot index (reproducible within
/// a frame).
pub open spec fn lane_before(a: (UnitId, Faction), b: (UnitId, Faction)) -> bool {
    side_rank(a.1) < side_rank(b.1) || (side_rank(a.1) == side_rank(b.1) && a.0.index
        < b.0.index)
}

/// Lane order allows `a` to stand before `b` (its key is not larger).
pub open spec fn lane_not_after(a: (UnitId, Faction), b: (UnitId, Faction)) -> bool {
    !lane_before(b, a)
}

/// Put `x` into an ordered roster after every unit that does not come after it (a
/// stable insertion).
pub open spec fn lane_insert(s: Seq<(UnitId, Faction)>, x: (UnitId, Faction)) -> Seq<
    (UnitId, Faction),
>
    decreases s.len(),
{
    if s.len() == 0 {
        seq![x]
    } else if lane_before(x, s.last()) {
        lane_insert(s.drop_last(), x).push(s.last())
    } else {
        s.push(x)
    }
}

/// The roster in lane order (stable: units with the same key keep their order).
pub open spec fn lane_order(s: Seq<(UnitId, Faction)>) -> Seq<(UnitId, Faction)>
    decreases s.len(),
{
    if s.len() == 0 {
        Seq::empty()
    } else {
        lane_insert(lane_order(s.drop_last()), s.last())
    }
}

/// Which unit holds each lane: the first [`LANE_POOL`] units in lane order, the rest
/// of the pool empty.
pub open spec fn lane_table(roster: Seq<(UnitId, Faction)>) -> Seq<Option<(UnitId, Faction)>> {
    Seq::new(
        LANE_POOL as nat,
        |lane: int|
            if lane < lane_order(roster).len() {
                Some(lane_order(roster)[lane])
            } else {
                None
            },
    )
}

/// Ordered by lane key, element by element.
pub open spec fn lane_sorted(s: Seq<(UnitId, Faction)>) -> bool {
    forall|i: int, j: int| 0 <= i < j < s.len() ==> lane_not_after(#[trigger] s[i], #[trigger] s[j])
}

proof fn lemma_lane_insert_facts(s: Seq<(UnitId, Faction)>, x: (UnitId, Faction))
    requires
        lane_sorted(s),
    ensures
        lane_sorted(lane_insert(s, x)),
        lane_insert(s, x).to_multiset() == s.to_multiset().insert(x),
        lane_insert(s, x).len() == s.len() + 1,
    decreases s.len(),
{
    broadcast use vstd::seq_lib::group_to_multiset_ensures;
    if s.len() == 0 {
        assert(seq![x] =~= Seq::<(UnitId, Faction)>::empty().push(x));
    } else if lane_before(x, s.last()) {
        let init = s.drop_last();
        assert(lane_sorted(init)) by {
            assert forall|i: int, j: int| 0 <= i < j < init.len() implies lane_not_after(
                #[trigger] init[i],
                #[trigger] init[j],
            ) by {
                assert(init[i] == s[i] && init[j] == s[j]);
            }
        }
        lemma_lane_insert_facts(init, x);
        let r = lane_insert(init, x);
        let t = r.push(s.last());
        assert forall|i: int, j: int| 0 <= i < j < t.len() implies lane_not_after(
            #[trigger] t[i],
            #[trigger] t[j],
        ) by {
            if j == t.len() - 1 {
                // every element of r is either x or an element of init, none after s.last()
                let e = t[i];
                assert(r[i] == e);
                assert(r.to_multiset().count(e) > 0) by {
                    assert(r.contains(e));
                }
                assert(init.to_multiset().insert(x).count(e) > 0);
                if e != x {
                    assert(init.to_multiset().count(e) > 0);
                    assert(init.contains(e));
                    let k = choose|k: int| 0 <= k < init.len() && init[k] == e;
                    assert(s[k] == e);
                    assert(lane_not_after(s[k], s[s.len() - 1]));
                }
            } else {
                assert(t[i] == r[i] && t[j] == r[j]);
            }
        }
        assert(s =~= init.push(s.last()));
        assert(t.to_multiset() == r.to_multiset().insert(s.last()));
        assert(init.push(s.last()).to_multiset() == init.to_multiset().insert(s.last()));
        assert(r.to_multiset().insert(s.last()) =~= init.to_multiset().insert(x).insert(s.last()));
        assert(s.to_multiset().insert(x) =~= init.to_multiset().insert(s.last()).insert(x));
    } else {
        let t = s.push(x);
        assert forall|i: int, j: int| 0 <= i < j < t.len() implies lane_not_after(
            #[trigger] t[i],
            #[trigger] t[j],
        ) by {
            if j == t.len() - 1 {
                assert(t[i] == s[i]);
                if i < s.len() - 1 {
                    assert(lane_not_after(s[i], s[s.len() - 1]));
                }
            } else {
                assert(t[i] == s[i] && t[j] == s[j]);
            }
        }
    }
}

/// Lane order really is an ordering of the same units: sorted by lane key, nobody
/// lost or added.
pub proof fn lemma_lane_order_sorts(s: Seq<(UnitId, Faction)>)
    ensures
        lane_sorted(lane_order(s)),
        lane_order(s).to_multiset() == s.to_multiset(),
        lane_order(s).len() == s.len(),
    decreases s.len(),
{
    broadcast use vstd::seq_lib::group_to_multiset_ensures;
    if s.len() > 0 {
        lemma_lane_order_sorts(s.drop_last());
        lemma_lane_insert_facts(lane_order(s.drop_last()), s.last());
        assert(s =~= s.drop_last().push(s.last()));
    }
}

/// The player always takes the top lane when there is one on the board.
pub proof fn lemma_player_takes_the_top_lane(roster: Seq<(UnitId, Faction)>, i: int)
    requires
        0 <= i < roster.len(),
        roster[i].1 == Faction::Player,
    ensures
        lane_table(roster)[0] matches Some(top) && top.1 == Faction::Player,
{
    broadcast use vstd::seq_lib::group_to_multiset_ensures;
    lemma_lane_order_sorts(roster);
    let o = lane_order(roster);
    assert(roster.contains(roster[i]));
    assert(roster.to_multiset().count(roster[i]) > 0);
    assert(o.to_multiset().count(roster[i]) > 0);
    assert(o.contains(roster[i]));
    let k = choose|k: int| 0 <= k < o.len() && o[k] == roster[i];
    if k > 0 {
        assert(lane_not_after(o[0], o[k]));
    }
    assert(lane_table(roster)[0] == Some(o[0]));
}

/// Which unit holds each of the [`LANE_POOL`] lanes.
pub fn lane_roster(roster: &[(UnitId, Faction)]) -> (lanes: Vec<Option<(UnitId, Faction)>>)
    ensures
        lanes@ == lane_table(roster@),
{
    let mut ordered: Vec<(UnitId, Faction)> = Vec::new();
    let mut i: usize = 0;
    while i < roster.len()
        invariant
            0 <= i <= roster@.len(),
            ordered@ == lane_order(roster@.take(i as int)),
        decreases roster@.len() - i,
    {
        let x = roster[i];
        proof {
            assert(roster@.take(i + 1).drop_last() =~= roster@.take(i as int));
            assert(roster@.take(i + 1).last() == x);
        }
        let ghost before = ordered@;
        // Walk back over the units that come after `x`.
        let mut p: usize = ordered.len();
        proof {
            assert(before.take(before.len() as int) =~= before);
            assert(lane_insert(before, x) + before.skip(before.len() as int) =~= lane_insert(
                before,
                x,
            ));
        }
        while p > 0 && (faction_rank(x.1) < faction_rank(ordered[p - 1].1) || (faction_rank(x.1)
            == faction_rank(ordered[p - 1].1) && x.0.index < ordered[p - 1].0.index))
            invariant
                ordered@ == before,
                0 <= p <= before.len(),
                lane_insert(before, x) == lane_insert(before.take(p as int), x) + before.skip(
                    p as int,
                ),
            decreases p,
        {
            proof {
                let t = before.take(p as int);
                assert(t.drop_last() =~= before.take(p - 1));
                assert(lane_before(x, t.last()));
                assert(lane_insert(t, x) == lane_insert(t.drop_last(), x).push(t.last()));
                assert(lane_insert(t.drop_last(), x).push(t.last()) + before.skip(p as int)
                    =~= lane_insert(before.take(p - 1), x) + before.skip(p - 1));
            }
            p = p - 1;
        }
        proof {
            let t = before.take(p as int);
            if p > 0 {
                assert(!lane_before(x, t.last()));
                assert(lane_insert(t, x) == t.push(x));
            } else {
                assert(lane_insert(t, x) == seq![x]);
            }
            assert(lane_insert(t, x) + before.skip(p as int) =~= before.insert(p as int, x));
        }
        ordered.insert(p, x);
        i = i + 1;
    }
    proof {
        assert(roster@.take(roster@.len() as int) =~= roster@);
    }
    let mut lanes: Vec<Option<(UnitId, Faction)>> = Vec::new();
    let mut lane: usize = 0;
    while lane < LANE_POOL
        invariant
            0 <= lane <= LANE_POOL,
            ordered@ == lane_order(roster@),
            lanes@.len() == lane,
            forall|k: int| 0 <= k < lane ==> #[trigger] lanes@[k] == lane_table(roster@)[k],
        decreases LANE_POOL - lane,
    {
        if lane < ordered.len() {
            lanes.push(Some(ordered[lane]));
        } else {
            lanes.push(None);
        }
        lane = lane + 1;
    }
    proof {
        assert(lanes@ =~= lane_table(roster@));
    }
    lanes
}

/// The lanes that stand in the staging area: held by a unit that is free to decide
/// and with nothing on its lane yet, in lane order.
pub open spec fn staged(
    lanes: Seq<Option<(UnitId, Faction)>>,
    ready: Seq<UnitId>,
    lane_busy: Seq<bool>,
) -> Seq<usize>
    decreases lanes.len(),
{
    if lanes.len() == 0 {
        Seq::empty()
    } else {
        let lane = (lanes.len() - 1) as int;
        let earlier = staged(lanes.drop_last(), ready, lane_busy);
        if lanes[lane] matches Some(holder) && ready.contains(holder.0) && !lane_busy[lane] {
            earlier.push(lane as usize)
        } else {
            earlier
        }
    }
}

/// The staging area holds exactly the lanes whose unit is free to decide (it is in
/// the ready list) and that have nothing drawn yet, each once, top lane first: a
/// lane whose unit is not ready, or that already shows a move, never stands there.
pub proof fn lemma_staging_is_the_free_and_undeclared(
    lanes: Seq<Option<(UnitId, Faction)>>,
    ready: Seq<UnitId>,
    lane_busy: Seq<bool>,
)
    requires
        lanes.len() <= lane_busy.len(),
        lanes.len() <= usize::MAX,
    ensures
        forall|j: int|
            0 <= j < staged(lanes, ready, lane_busy).len() ==> {
                let k = #[trigger] staged(lanes, ready, lane_busy)[j] as int;
                &&& 0 <= k < lanes.len()
                &&& lanes[k] matches Some(holder) && ready.contains(holder.0)
                &&& !lane_busy[k]
            },
        forall|k: int|
            0 <= k < lanes.len() && (#[trigger] lanes[k] matches Some(holder) && ready.contains(
                holder.0,
            )) && !lane_busy[k] ==> staged(lanes, ready, lane_busy).contains(k as usize),
        forall|i: int, j: int|
            0 <= i < j < staged(lanes, ready, lane_busy).len() ==> staged(lanes, ready, lane_busy)[i]
                < staged(lanes, ready, lane_busy)[j],
    decreases lanes.len(),
{
    if lanes.len() > 0 {
        let init = lanes.drop_last();
        let last = (lanes.len() - 1) as int;
        lemma_staging_is_the_free_and_undeclared(init, ready, lane_busy);
        let e = staged(init, ready, lane_busy);
        let st = staged(lanes, ready, lane_busy);
        let stands = lanes[last] matches Some(holder) && ready.contains(holder.0)
            && !lane_busy[last];
        assert(st == if stands {
            e.push(last as usize)
        } else {
            e
        });
        assert forall|j: int| 0 <= j < e.len() implies #[trigger] e[j] < last by {
            assert(e[j] < init.len());
        }
        assert forall|k: int|
            0 <= k < lanes.len() && (#[trigger] lanes[k] matches Some(holder) && ready.contains(
                holder.0,
            )) && !lane_busy[k] implies st.contains(k as usize) by {
            if k < last {
                assert(init[k] == lanes[k]);
                assert(e.contains(k as usize));
                let m = choose|m: int| 0 <= m < e.len() && e[m] == k as usize;
                assert(st[m] == k as usize);
            } else {
                assert(st[e.len() as int] == k as usize);
            }
        }
        assert forall|j: int|
            0 <= j < st.len() implies {
                let k = #[trigger] st[j] as int;
                &&& 0 <= k < lanes.len()
                &&& lanes[k] matches Some(holder) && ready.contains(holder.0)
                &&& !lane_busy[k]
            } by {
            if j < e.len() {
                assert(st[j] == e[j]);
                assert(init[e[j] as int] == lanes[e[j] as int]);
            } else {
                assert(st[j] == last as usize);
            }
        }
        assert forall|i: int, j: int| 0 <= i < j < st.len() implies st[i] < st[j] by {
            assert(st[i] == e[i]);
            if j < e.len() {
                assert(st[j] == e[j]);
            } else {
                assert(e[i] < last);
            }
        }
    }
}

/// The staging area: units that may decide but have not declared anything.
pub fn staging_lanes(
    lanes: &[Option<(UnitId, Faction)>],
    ready: &[UnitId],
    lane_busy: &[bool],
) -> (staging: Vec<usize>)
    requires
        lane_busy@.len() == lanes@.len(),
    ensures
        staging@ == staged(lanes@, ready@, lane_busy@),
        forall|j: int|
            0 <= j < staging@.len() ==> {
                let k = #[trigger] staging@[j] as int;
                &&& 0 <= k < lanes@.len()
                &&& lanes@[k] matches Some(holder) && ready@.contains(holder.0)
                &&& !lane_busy@[k]
            },
        forall|k: int|
            0 <= k < lanes@.len() && (#[trigger] lanes@[k] matches Some(holder)
                && ready@.contains(holder.0)) && !lane_busy@[k] ==> staging@.contains(k as usize),
        forall|i: int, j: int| 0 <= i < j < staging@.len() ==> staging@[i] < staging@[j],
{
    let mut staging: Vec<usize> = Vec::new();
    let mut lane: usize = 0;
    while lane < lanes.len()
        invariant
            lane_busy@.len() == lanes@.len(),
            0 <= lane <= lanes@.len(),
            staging@ == staged(lanes@.take(lane as int), ready@, lane_busy@),
        decreases lanes@.len() - lane,
    {
        proof {
            assert(lanes@.take(lane + 1).drop_last() =~= lanes@.take(lane as int));
        }
        match lanes[lane] {
            Some(holder) => {
                let mut found = false;
                let mut k: usize = 0;
                while k < ready.len()
                    invariant
                        0 <= k <= ready@.len(),
                        found <==> exists|j: int| 0 <= j < k && ready@[j] == holder.0,
                    decreases ready@.len() - k,
                {
                    if ready[k] == holder.0 {
                        found = true;
                    }
                    k = k + 1;
                }
                proof {
                    if ready@.contains(holder.0) {
                        let j = choose|j: int| 0 <= j < ready@.len() && ready@[j] == holder.0;
                    }
                }
                if found && !lane_busy[lane] {
                    staging.push(lane);
                }
            },
            None => {},
        }
        lane = lane + 1;
    }
    proof {
        assert(lanes@.take(lanes@.len() as int) =~= lanes@);
        lemma_staging_is_the_free_and_undeclared(lanes@, ready@, lane_busy@);
    }
    staging
}

/// The strip's status line: running, or frozen and why.
pub open spec fn status_text(frozen: Option<Seq<Seq<char>>>) -> Seq<char> {
    match frozen {
        Some(labels) => "TIMELINE · FROZEN · "@ + joined_with_plus(labels),
        None => "TIMELINE · RUNNING"@,
    }
}

/// Labels joined by ` + `.
pub open spec fn joined_with_plus(labels: Seq<Seq<char>>) -> Seq<char>
    decreases labels.len(),
{
    if labels.len() == 0 {
        Seq::empty()
    } else if labels.len() == 1 {
        labels[0]
    } else {
        joined_with_plus(labels.drop_last()) + " + "@ + labels.last()
    }
}

/// The texts of a list of labels.
pub open spec fn label_texts(labels: Seq<&str>) -> Seq<Seq<char>> {
    Seq::new(labels.len(), |i: int| labels[i]@)
}

/// The status line: the freeze reasons are read out directly, so the player sees at
/// a glance whether the world waits for them, was paused by hand, or is threatened.
pub fn timeline_state_line(frozen: Option<&[&str]>) -> (line: String)
    ensures
        line@ == status_text(
            match frozen {
                Some(labels) => Some(label_texts(labels@)),
                None => None,
            },
        ),
{
    match frozen {
        None => String::from_str("TIMELINE · RUNNING"),
        Some(labels) => {
            let mut line = String::from_str("TIMELINE · FROZEN · ");
            let ghost head = line@;
            let ghost texts = label_texts(labels@);
            let mut i: usize = 0;
            while i < labels.len()
                invariant
                    texts == label_texts(labels@),
                    0 <= i <= labels@.len(),
                    line@ == head + joined_with_plus(texts.take(i as int)),
                decreases labels@.len() - i,
            {
                proof {
                    let after = texts.take(i + 1);
                    assert(after.drop_last() =~= texts.take(i as int));
                    assert(after.last() == labels@[i as int]@);
                }
                if i > 0 {
                    line.append(" + ");
                } else {
                    proof {
                        assert(joined_with_plus(texts.take(0)) =~= Seq::<char>::empty());
                        assert(line@ =~= head);
                    }
                }
                line.append(labels[i]);
                proof {
                    let after = texts.take(i + 1);
                    if i > 0 {
                        assert(line@ =~= head + (joined_with_plus(after.drop_last()) + " + "@
                            + after.last()));
                    } else {
                        assert(line@ =~= head + after[0]);
                    }
                }
                i = i + 1;
            }
            proof {
                assert(texts.take(labels@.len() as int) =~= texts);
            }
            line
        },
    }
}

/// The lane holds this unit.
pub open spec fn holds(lane: Option<(UnitId, Faction)>, actor: UnitId) -> bool {
    lane matches Some(holder) && holder.0 == actor
}

/// The lane a unit's moves are drawn in: the lane it holds (a unit without a lane,
/// just removed or not assembled yet, draws nothing).
pub fn lane_of(lanes: &[Option<(UnitId, Faction)>], actor: UnitId) -> (r: Option<usize>)
    ensures
        r matches Some(lane) ==> lane < lanes@.len() && holds(lanes@[lane as int], actor)
            && forall|k: int| 0 <= k < lane ==> !holds(#[trigger] lanes@[k], actor),
        r is None ==> forall|k: int| 0 <= k < lanes@.len() ==> !holds(#[trigger] lanes@[k], actor),
{
    let mut lane: usize = 0;
    while lane < lanes.len()
        invariant
            0 <= lane <= lanes@.len(),
            forall|k: int| 0 <= k < lane ==> !holds(#[trigger] lanes@[k], actor),
        decreases lanes@.len() - lane,
    {
        match lanes[lane] {
            Some(holder) => {
                if holder.0 == actor {
                    return Some(lane);
                }
            },
            None => {},
        }
        lane = lane + 1;
    }
    None
}

/// The first lane this unit holds, if any.
pub open spec fn first_lane(lanes: Seq<Option<(UnitId, Faction)>>, actor: UnitId) -> Option<int>
    decreases lanes.len(),
{
    if lanes.len() == 0 {
        None
    } else {
        match first_lane(lanes.drop_last(), actor) {
            Some(k) => Some(k),
            None => if holds(lanes.last(), actor) {
                Some(lanes.len() - 1)
            } else {
                None
            },
        }
    }
}

/// `first_lane` is the lowest lane that holds the unit.
pub proof fn lemma_first_lane(lanes: Seq<Option<(UnitId, Faction)>>, actor: UnitId)
    ensures
        first_lane(lanes, actor) matches Some(k) ==> 0 <= k < lanes.len() && holds(lanes[k], actor)
            && forall|j: int| 0 <= j < k ==> !holds(#[trigger] lanes[j], actor),
        first_lane(lanes, actor) is None ==> forall|j: int|
            0 <= j < lanes.len() ==> !holds(#[trigger] lanes[j], actor),
    decreases lanes.len(),
{
    if lanes.len() > 0 {
        let init = lanes.drop_last();
        lemma_first_lane(init, actor);
        assert forall|j: int| 0 <= j < init.len() implies #[trigger] lanes[j] == init[j] by {}
    }
}

/// The moves drawn in lane `k`, in the order given: those of the unit holding it.
pub open spec fn lane_rows<S>(
    lanes: Seq<Option<(UnitId, Faction)>>,
    rows: Seq<(UnitId, S)>,
    k: int,
) -> Seq<S>
    decreases rows.len(),
{
    if rows.len() == 0 {
        Seq::empty()
    } else {
        let earlier = lane_rows(lanes, rows.drop_last(), k);
        if first_lane(lanes, rows.last().0) == Some(k) {
            earlier.push(rows.last().1)
        } else {
            earlier
        }
    }
}

/// The unit's moves are drawn in lane `k`: it is the first lane the unit holds.
pub open spec fn draws_in(lanes: Seq<Option<(UnitId, Faction)>>, actor: UnitId, k: int) -> bool {
    first_lane(lanes, actor) == Some(k)
}

/// Lane `k` shows every move of the unit whose first lane is `k` (none is dropped),
/// and never more moves than were given.
pub proof fn lemma_lane_rows_are_that_units_moves<S>(
    lanes: Seq<Option<(UnitId, Faction)>>,
    rows: Seq<(UnitId, S)>,
    k: int,
)
    ensures
        forall|j: int|
            0 <= j < rows.len() && draws_in(lanes, (#[trigger] rows[j]).0, k)
                ==> lane_rows(lanes, rows, k).contains(rows[j].1),
        lane_rows(lanes, rows, k).len() <= rows.len(),
    decreases rows.len(),
{
    if rows.len() > 0 {
        let init = rows.drop_last();
        let n = rows.len() - 1;
        lemma_lane_rows_are_that_units_moves(lanes, init, k);
        let e = lane_rows(lanes, init, k);
        let all = lane_rows(lanes, rows, k);
        let mine = draws_in(lanes, rows.last().0, k);
        assert(all == if mine {
            e.push(rows.last().1)
        } else {
            e
        });
        assert forall|j: int|
            0 <= j < rows.len() && draws_in(lanes, (#[trigger] rows[j]).0, k)
                implies all.contains(rows[j].1) by {
            if j < n {
                assert(init[j] == rows[j]);
                assert(e.contains(init[j].1));
                let m = choose|m: int| 0 <= m < e.len() && e[m] == init[j].1;
                assert(all[m] == e[m]);
            } else {
                assert(all[e.len() as int] == rows[j].1);
            }
        }
    }
}

/// Each unit draws only in its own lane: every move goes into the lane its unit
/// holds, in the order given, and a move whose unit holds no lane is drawn nowhere.
pub fn group_by_lane<S: Copy>(lanes: &[Option<(UnitId, Faction)>], rows: &[(UnitId, S)]) -> (r: Vec<
    Vec<S>,
>)
    ensures
        r@.len() == lanes@.len(),
        forall|k: int| 0 <= k < lanes@.len() ==> (#[trigger] r@[k])@ == lane_rows(lanes@, rows@, k),
{
    let mut out: Vec<Vec<S>> = Vec::new();
    let mut k: usize = 0;
    while k < lanes.len()
        invariant
            0 <= k <= lanes@.len(),
            out@.len() == k,
            forall|m: int| 0 <= m < k ==> (#[trigger] out@[m])@ == lane_rows(lanes@, rows@, m),
        decreases lanes@.len() - k,
    {
        let mut lane: Vec<S> = Vec::new();
        let mut j: usize = 0;
        while j < rows.len()
            invariant
                0 <= j <= rows@.len(),
                0 <= k < lanes@.len(),
                lane@ == lane_rows(lanes@, rows@.take(j as int), k as int),
            decreases rows@.len() - j,
        {
            proof {
                assert(rows@.take(j + 1).drop_last() =~= rows@.take(j as int));
                assert(rows@.take(j + 1).last() == rows@[j as int]);
                lemma_first_lane(lanes@, rows@[j as int].0);
            }
            let found = lane_of(lanes, rows[j].0);
            proof {
                let f = first_lane(lanes@, rows@[j as int].0);
                match found {
                    Some(l) => {
                        if let Some(q) = f {
                            if q < l {
                                assert(!holds(lanes@[q], rows@[j as int].0));
                            } else if l < q {
                                assert(!holds(lanes@[l as int], rows@[j as int].0));
                            }
                        }
                        assert(f == Some(l as int));
                    },
                    None => {
                        if let Some(q) = f {
                            assert(!holds(lanes@[q], rows@[j as int].0));
                        }
                        assert(f is None);
                    },
                }
            }
            if found == Some(k) {
                lane.push(rows[j].1);
            }
            j = j + 1;
        }
        proof {
            assert(rows@.take(rows@.len() as int) =~= rows@);
        }
        out.push(lane);
        k = k + 1;
    }
    out
}

/// A block's label: the side letter, and `*` while the move can still be taken back.
pub open spec fn block_text(faction: Faction, draft: bool) -> Seq<char> {
    if draft {
        side_letter(faction) + "*"@
    } else {
        side_letter(faction)
    }
}

/// The label drawn inside a timeline block.
pub fn block_label(faction: Faction, draft: bool) -> (r: String)
    ensures
        r@ == block_text(faction, draft),
{
    let mut label = String::from_str(faction_letter(faction));
    if draft {
        label.append("*");
    }
    label
}

} // verus!
