//! Which cells the threat grid paints: one tile per threatened cell, in a stable
//! order so the same cells get the same tiles every frame.

use vstd::prelude::*;

use crate::units::{Cell, Faction};

verus! {

/// Board order of cells: by column, then by row.
pub open spec fn cell_lt(a: Cell, b: Cell) -> bool {
    a.x < b.x || (a.x == b.x && a.z < b.z)
}

/// Every cell comes strictly before the next ones (so none occurs twice).
pub open spec fn cells_sorted(s: Seq<Cell>) -> bool {
    forall|i: int, j: int| 0 <= i < j < s.len() ==> cell_lt(#[trigger] s[i], #[trigger] s[j])
}

/// The threatened cells, each once, in board order.
///
/// The order gives every frame the same tile for the same cell (a query's iteration
/// order is not stable, and tiles would flicker between cells); the deduplication
/// draws a cell threatened by two fireballs only once.
pub fn sorted_unique_cells(cells: &[Cell]) -> (r: Vec<Cell>)
    ensures
        cells_sorted(r@),
        forall|c: Cell| r@.contains(c) <==> cells@.contains(c),
{
    let mut out: Vec<Cell> = Vec::new();
    let mut i: usize = 0;
    while i < cells.len()
        invariant
            0 <= i <= cells@.len(),
            cells_sorted(out@),
            forall|c: Cell| out@.contains(c) <==> cells@.take(i as int).contains(c),
        decreases cells@.len() - i,
    {
        let cell = cells[i];
        let ghost before = out@;
        let mut p: usize = 0;
        while p < out.len() && (out[p].x < cell.x || (out[p].x == cell.x && out[p].z < cell.z))
            invariant
                out@ == before,
                cells_sorted(before),
                0 <= p <= before.len(),
                forall|k: int| 0 <= k < p ==> cell_lt(#[trigger] before[k], cell),
            decreases before.len() - p,
        {
            p = p + 1;
        }
        proof {
            assert(cells@.take(i + 1) =~= cells@.take(i as int).push(cell));
            assert forall|c: Cell| cells@.take(i + 1).contains(c) <==> (cells@.take(
                i as int,
            ).contains(c) || c == cell) by {
                let t = cells@.take(i + 1);
                if t.contains(c) {
                    let k = choose|k: int| 0 <= k < t.len() && t[k] == c;
                    if k < i {
                        assert(cells@.take(i as int)[k] == c);
                    }
                }
                if cells@.take(i as int).contains(c) {
                    let k = choose|k: int| 0 <= k < i && cells@.take(i as int)[k] == c;
                    assert(t[k] == c);
                }
                if c == cell {
                    assert(t[i as int] == c);
                }
            }
        }
        if p < out.len() && out[p].x == cell.x && out[p].z == cell.z {
            proof {
                assert(before[p as int] == cell);
            }
        } else {
            proof {
                // Everything from `p` on comes after `cell`.
                if p < before.len() {
                    assert(cell_lt(cell, before[p as int]));
                }
                let t = before.insert(p as int, cell);
                assert forall|a: int, b: int| 0 <= a < b < t.len() implies cell_lt(
                    #[trigger] t[a],
                    #[trigger] t[b],
                ) by {
                    if b < p {
                        assert(t[a] == before[a] && t[b] == before[b]);
                    } else if b == p {
                        assert(t[a] == before[a]);
                    } else if a < p {
                        assert(t[a] == before[a] && t[b] == before[b - 1]);
                        if b - 1 > p {
                            assert(cell_lt(before[p as int], before[b - 1]));
                        }
                    } else if a == p {
                        assert(t[b] == before[b - 1]);
                        if b - 1 > p {
                            assert(cell_lt(before[p as int], before[b - 1]));
                        }
                    } else {
                        assert(t[a] == before[a - 1] && t[b] == before[b - 1]);
                    }
                }
                assert forall|c: Cell| t.contains(c) <==> (before.contains(c) || c == cell) by {
                    if t.contains(c) {
                        let k = choose|k: int| 0 <= k < t.len() && t[k] == c;
                        if k < p {
                            assert(before[k] == c);
                        } else if k > p {
                            assert(before[k - 1] == c);
                        }
                    }
                    if before.contains(c) {
                        let k = choose|k: int| 0 <= k < before.len() && before[k] == c;
                        if k < p {
                            assert(t[k] == c);
                        } else {
                            assert(t[k + 1] == c);
                        }
                    }
                    if c == cell {
                        assert(t[p as int] == c);
                    }
                }
            }
            out.insert(p, cell);
        }
        i = i + 1;
    }
    proof {
        assert(cells@.take(cells@.len() as int) =~= cells@);
    }
    out
}

/// Two board-ordered lists of the same cells are the same list: the tiles the grid
/// paints depend only on which cells are threatened, never on the order in which the
/// threats were found.
pub proof fn lemma_same_cells_same_order(a: Seq<Cell>, b: Seq<Cell>)
    requires
        cells_sorted(a),
        cells_sorted(b),
        forall|c: Cell| a.contains(c) <==> b.contains(c),
    ensures
        a == b,
    decreases a.len() + b.len(),
{
    if a.len() == 0 {
        if b.len() > 0 {
            assert(b.contains(b[0]));
        }
        assert(a =~= b);
    } else if b.len() == 0 {
        assert(a.contains(a[0]));
    } else {
        assert(a.contains(a[0]));
        assert(b.contains(b[0]));
        let i = choose|i: int| 0 <= i < b.len() && b[i] == a[0];
        let j = choose|j: int| 0 <= j < a.len() && a[j] == b[0];
        assert(a[0] == b[0]) by {
            if i > 0 && j > 0 {
                assert(cell_lt(a[0], a[j]));
                assert(cell_lt(b[0], b[i]));
            } else if i > 0 {
                assert(cell_lt(b[0], b[i]));
            } else if j > 0 {
                assert(cell_lt(a[0], a[j]));
            }
        }
        let ta = a.drop_first();
        let tb = b.drop_first();
        assert forall|c: Cell| ta.contains(c) <==> tb.contains(c) by {
            if ta.contains(c) {
                let k = choose|k: int| 0 <= k < ta.len() && ta[k] == c;
                assert(a[k + 1] == c);
                assert(a.contains(c));
                assert(cell_lt(a[0], a[k + 1]));
                let m = choose|m: int| 0 <= m < b.len() && b[m] == c;
                assert(m != 0);
                assert(tb[m - 1] == c);
            }
            if tb.contains(c) {
                let k = choose|k: int| 0 <= k < tb.len() && tb[k] == c;
                assert(b[k + 1] == c);
                assert(b.contains(c));
                assert(cell_lt(b[0], b[k + 1]));
                let m = choose|m: int| 0 <= m < a.len() && a[m] == c;
                assert(m != 0);
                assert(ta[m - 1] == c);
            }
        }
        assert(cells_sorted(ta)) by {
            assert forall|x: int, y: int| 0 <= x < y < ta.len() implies cell_lt(
                #[trigger] ta[x],
                #[trigger] ta[y],
            ) by {
                assert(ta[x] == a[x + 1] && ta[y] == a[y + 1]);
            }
        }
        assert(cells_sorted(tb)) by {
            assert forall|x: int, y: int| 0 <= x < y < tb.len() implies cell_lt(
                #[trigger] tb[x],
                #[trigger] tb[y],
            ) by {
                assert(tb[x] == b[x + 1] && tb[y] == b[y + 1]);
            }
        }
        lemma_same_cells_same_order(ta, tb);
        assert(a =~= seq![a[0]] + ta);
        assert(b =~= seq![b[0]] + tb);
    }
}

/// How many threat tiles the grid keeps (cells beyond it are dropped in board order,
/// never at random, so one situation always paints the same cells).
pub const THREAT_TILE_POOL: usize = 8;

/// A threat counts when it is not the player's own: the grid shows where the player
/// can be hit, not where the player strikes. A threat with no known owner counts.
pub open spec fn hostile(side: Option<Faction>) -> bool {
    side != Some(Faction::Player)
}

/// The cells the hostile pending actions threaten, action by action.
pub open spec fn hostile_action_cells(actions: Seq<(Option<Faction>, Vec<Cell>)>) -> Seq<Cell>
    decreases actions.len(),
{
    if actions.len() == 0 {
        Seq::empty()
    } else {
        let earlier = hostile_action_cells(actions.drop_last());
        if hostile(actions.last().0) {
            earlier + actions.last().1@
        } else {
            earlier
        }
    }
}

/// The cells the hostile projectiles are flying at.
pub open spec fn hostile_targets(projectiles: Seq<(Cell, Faction)>) -> Seq<Cell>
    decreases projectiles.len(),
{
    if projectiles.len() == 0 {
        Seq::empty()
    } else {
        let earlier = hostile_targets(projectiles.drop_last());
        if projectiles.last().1 != Faction::Player {
            earlier.push(projectiles.last().0)
        } else {
            earlier
        }
    }
}

/// The cells of the hostile actions are exactly the cells some hostile action
/// threatens, whichever action it is: none is lost, none is added.
pub proof fn lemma_every_hostile_action_counts(actions: Seq<(Option<Faction>, Vec<Cell>)>)
    ensures
        forall|i: int, k: int|
            0 <= i < actions.len() && hostile(actions[i].0) && 0 <= k < actions[i].1@.len()
                ==> hostile_action_cells(actions).contains(#[trigger] actions[i].1@[k]),
        forall|c: Cell|
            hostile_action_cells(actions).contains(c) ==> exists|i: int, k: int|
                0 <= i < actions.len() && hostile(actions[i].0) && 0 <= k < actions[i].1@.len()
                    && #[trigger] actions[i].1@[k] == c,
    decreases actions.len(),
{
    if actions.len() > 0 {
        let init = actions.drop_last();
        let last = actions.last();
        let n = actions.len() - 1;
        lemma_every_hostile_action_counts(init);
        let h = hostile_action_cells(init);
        let all = hostile_action_cells(actions);
        assert(all == if hostile(last.0) {
            h + last.1@
        } else {
            h
        });
        assert forall|i: int, k: int|
            0 <= i < actions.len() && hostile(actions[i].0) && 0 <= k < actions[i].1@.len()
                implies all.contains(#[trigger] actions[i].1@[k]) by {
            if i < n {
                assert(init[i] == actions[i]);
                assert(h.contains(init[i].1@[k]));
                let m = choose|m: int| 0 <= m < h.len() && h[m] == init[i].1@[k];
                assert(all[m] == h[m]);
            } else {
                assert(all[h.len() + k] == last.1@[k]);
            }
        }
        assert forall|c: Cell| all.contains(c) implies exists|i: int, k: int|
            0 <= i < actions.len() && hostile(actions[i].0) && 0 <= k < actions[i].1@.len()
                && #[trigger] actions[i].1@[k] == c by {
            let m = choose|m: int| 0 <= m < all.len() && all[m] == c;
            if m < h.len() {
                assert(h[m] == c);
                assert(h.contains(c));
                let (i, k) = choose|i: int, k: int|
                    0 <= i < init.len() && hostile(init[i].0) && 0 <= k < init[i].1@.len()
                        && #[trigger] init[i].1@[k] == c;
                assert(actions[i] == init[i]);
                assert(actions[i].1@[k] == c);
            } else {
                assert(last.1@[m - h.len()] == c);
                assert(actions[n] == last);
                assert(actions[n].1@[m - h.len()] == c);
            }
        }
    }
}

/// The targets of the hostile projectiles are exactly the cells some hostile
/// projectile is flying at.
pub proof fn lemma_every_hostile_projectile_counts(projectiles: Seq<(Cell, Faction)>)
    ensures
        forall|j: int|
            0 <= j < projectiles.len() && projectiles[j].1 != Faction::Player
                ==> hostile_targets(projectiles).contains(#[trigger] projectiles[j].0),
        forall|c: Cell|
            hostile_targets(projectiles).contains(c) ==> exists|j: int|
                0 <= j < projectiles.len() && projectiles[j].1 != Faction::Player
                    && #[trigger] projectiles[j].0 == c,
    decreases projectiles.len(),
{
    if projectiles.len() > 0 {
        let init = projectiles.drop_last();
        let last = projectiles.last();
        let n = projectiles.len() - 1;
        lemma_every_hostile_projectile_counts(init);
        let h = hostile_targets(init);
        let all = hostile_targets(projectiles);
        assert forall|j: int|
            0 <= j < projectiles.len() && projectiles[j].1 != Faction::Player implies all.contains(
            #[trigger] projectiles[j].0) by {
            if j < n {
                assert(init[j] == projectiles[j]);
                assert(h.contains(init[j].0));
                let m = choose|m: int| 0 <= m < h.len() && h[m] == init[j].0;
                assert(all[m] == h[m]);
            } else {
                assert(all[h.len() as int] == last.0);
            }
        }
        assert forall|c: Cell| all.contains(c) implies exists|j: int|
            0 <= j < projectiles.len() && projectiles[j].1 != Faction::Player
                && #[trigger] projectiles[j].0 == c by {
            let m = choose|m: int| 0 <= m < all.len() && all[m] == c;
            if m < h.len() {
                assert(h[m] == c);
                assert(h.contains(c));
                let j = choose|j: int|
                    0 <= j < init.len() && init[j].1 != Faction::Player && #[trigger] init[j].0 == c;
                assert(projectiles[j] == init[j]);
            } else {
                assert(projectiles[n] == last);
            }
        }
    }
}

/// The cells the grid paints: every cell a hostile pending action threatens (each
/// given with the side of its actor) and every cell a hostile projectile is flying
/// at, each once, in board order.
pub fn threatened_cells(actions: &[(Option<Faction>, Vec<Cell>)], projectiles: &[(Cell, Faction)]) -> (r:
    Vec<Cell>)
    ensures
        cells_sorted(r@),
        forall|c: Cell|
            r@.contains(c) <==> (hostile_action_cells(actions@) + hostile_targets(
                projectiles@,
            )).contains(c),
        forall|i: int, k: int|
            0 <= i < actions@.len() && hostile(actions@[i].0) && 0 <= k < actions@[i].1@.len()
                ==> r@.contains(#[trigger] actions@[i].1@[k]),
        forall|j: int|
            0 <= j < projectiles@.len() && projectiles@[j].1 != Faction::Player ==> r@.contains(
                #[trigger] projectiles@[j].0,
            ),
        forall|c: Cell|
            r@.contains(c) ==> (exists|i: int, k: int|
                0 <= i < actions@.len() && hostile(actions@[i].0) && 0 <= k < actions@[i].1@.len()
                    && #[trigger] actions@[i].1@[k] == c) || (exists|j: int|
                0 <= j < projectiles@.len() && projectiles@[j].1 != Faction::Player
                    && #[trigger] projectiles@[j].0 == c),
{
    let mut found: Vec<Cell> = Vec::new();
    let mut i: usize = 0;
    while i < actions.len()
        invariant
            0 <= i <= actions@.len(),
            found@ == hostile_action_cells(actions@.take(i as int)),
        decreases actions@.len() - i,
    {
        proof {
            assert(actions@.take(i + 1).drop_last() =~= actions@.take(i as int));
            assert(actions@.take(i + 1).last() == actions@[i as int]);
        }
        let side = actions[i].0;
        if side != Some(Faction::Player) {
            let cells = &actions[i].1;
            let ghost before = found@;
            let mut k: usize = 0;
            while k < cells.len()
                invariant
                    0 <= k <= cells@.len(),
                    found@ == before + cells@.take(k as int),
                decreases cells@.len() - k,
            {
                found.push(cells[k]);
                proof {
                    assert(before + cells@.take(k + 1) =~= (before + cells@.take(k as int)).push(
                        cells@[k as int],
                    ));
                }
                k = k + 1;
            }
            proof {
                assert(cells@.take(cells@.len() as int) =~= cells@);
            }
        }
        i = i + 1;
    }
    proof {
        assert(actions@.take(actions@.len() as int) =~= actions@);
    }
    let ghost from_actions = found@;
    let mut j: usize = 0;
    while j < projectiles.len()
        invariant
            0 <= j <= projectiles@.len(),
            found@ == from_actions + hostile_targets(projectiles@.take(j as int)),
        decreases projectiles@.len() - j,
    {
        proof {
            assert(projectiles@.take(j + 1).drop_last() =~= projectiles@.take(j as int));
            assert(projectiles@.take(j + 1).last() == projectiles@[j as int]);
        }
        let (cell, side) = projectiles[j];
        if side != Faction::Player {
            found.push(cell);
            proof {
                assert(from_actions + hostile_targets(projectiles@.take(j as int)).push(cell)
                    =~= (from_actions + hostile_targets(projectiles@.take(j as int))).push(cell));
            }
        }
        j = j + 1;
    }
    proof {
        assert(projectiles@.take(projectiles@.len() as int) =~= projectiles@);
        lemma_every_hostile_action_counts(actions@);
        lemma_every_hostile_projectile_counts(projectiles@);
    }
    let r = sorted_unique_cells(found.as_slice());
    proof {
        let a = hostile_action_cells(actions@);
        let t = hostile_targets(projectiles@);
        assert(found@ == a + t);
        assert forall|c: Cell| (a + t).contains(c) <==> (a.contains(c) || t.contains(c)) by {
            if (a + t).contains(c) {
                let m = choose|m: int| 0 <= m < (a + t).len() && (a + t)[m] == c;
                if m < a.len() {
                    assert(a[m] == c);
                } else {
                    assert(t[m - a.len()] == c);
                }
            }
            if a.contains(c) {
                let m = choose|m: int| 0 <= m < a.len() && a[m] == c;
                assert((a + t)[m] == c);
            }
            if t.contains(c) {
                let m = choose|m: int| 0 <= m < t.len() && t[m] == c;
                assert((a + t)[a.len() + m] == c);
            }
        }
        assert forall|c: Cell| r@.contains(c) implies (exists|i: int, k: int|
            0 <= i < actions@.len() && hostile(actions@[i].0) && 0 <= k < actions@[i].1@.len()
                && #[trigger] actions@[i].1@[k] == c) || (exists|j: int|
            0 <= j < projectiles@.len() && projectiles@[j].1 != Faction::Player
                && #[trigger] projectiles@[j].0 == c) by {
            assert((a + t).contains(c));
            if a.contains(c) {
            } else {
                assert(t.contains(c));
            }
        }
    }
    r
}

/// Which cell each tile of the pool paints: the `i`-th cell in board order, the tiles
/// beyond the threatened cells hidden.
pub fn tile_cells(cells: &[Cell]) -> (tiles: Vec<Option<Cell>>)
    ensures
        tiles@.len() == THREAT_TILE_POOL,
        forall|i: int|
            0 <= i < THREAT_TILE_POOL ==> #[trigger] tiles@[i] == if i < cells@.len() {
                Some(cells@[i])
            } else {
                None
            },
{
    let mut tiles: Vec<Option<Cell>> = Vec::new();
    let mut i: usize = 0;
    while i < THREAT_TILE_POOL
        invariant
            0 <= i <= THREAT_TILE_POOL,
            tiles@.len() == i,
            forall|k: int|
                0 <= k < i ==> #[trigger] tiles@[k] == if k < cells@.len() {
                    Some(cells@[k])
                } else {
                    None
                },
        decreases THREAT_TILE_POOL - i,
    {
        if i < cells.len() {
            tiles.push(Some(cells[i]));
        } else {
            tiles.push(None);
        }
        i = i + 1;
    }
    tiles
}

} // verus!
