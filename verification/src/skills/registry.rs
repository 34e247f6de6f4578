//! The ability catalogue: how it is built up and how it is queried.
//!
//! There is one catalogue, and every domain defines its own abilities: each domain
//! hands its definitions in, and the catalogue merges them, keyed by id, in the order
//! in which they first arrived (that order is the menu order).

use vstd::prelude::*;

use super::defs::{AbilityDef, AbilityId};

verus! {

/// No two entries share an id.
pub open spec fn ids_unique<T>(entries: Seq<AbilityDef<T>>) -> bool {
    forall|i: int, j: int|
        0 <= i < entries.len() && 0 <= j < entries.len() && i != j ==> entries[i].id
            != entries[j].id
}

/// Some entry carries this id.
pub open spec fn has_id<T>(entries: Seq<AbilityDef<T>>, id: AbilityId) -> bool {
    exists|i: int| 0 <= i < entries.len() && entries[i].id == id
}

/// The position of the entry with this id (meaningful when `has_id`).
pub open spec fn index_of_id<T>(entries: Seq<AbilityDef<T>>, id: AbilityId) -> int {
    choose|i: int| 0 <= i < entries.len() && entries[i].id == id
}

/// Merging one definition in: an entry with the same id is overwritten where it
/// stands; a new id goes to the end.
pub open spec fn registered<T>(entries: Seq<AbilityDef<T>>, def: AbilityDef<T>) -> Seq<
    AbilityDef<T>,
> {
    if has_id(entries, def.id) {
        entries.update(index_of_id(entries, def.id), def)
    } else {
        entries.push(def)
    }
}

/// The entries whose cost fits in `stamina`, in catalogue order.
pub open spec fn affordable_entries<T>(entries: Seq<AbilityDef<T>>, stamina: u32) -> Seq<
    AbilityDef<T>,
>
    decreases entries.len(),
{
    if entries.len() == 0 {
        Seq::empty()
    } else {
        let earlier = affordable_entries(entries.drop_last(), stamina);
        if entries.last().cost <= stamina {
            earlier.push(entries.last())
        } else {
            earlier
        }
    }
}

/// The ability catalogue: `AbilityId` → [`AbilityDef`], in registration order.
pub struct SkillRegistry<T> {
    entries: Vec<AbilityDef<T>>,
}

impl<T> View for SkillRegistry<T> {
    type V = Seq<AbilityDef<T>>;

    closed spec fn view(&self) -> Seq<AbilityDef<T>> {
        self.entries@
    }
}

impl<T> SkillRegistry<T> {
    /// Every id occurs at most once.
    #[verifier::type_invariant]
    spec fn unique_ids(&self) -> bool {
        ids_unique(self.entries@)
    }

    /// An empty catalogue (the state before the first frame).
    pub fn new() -> (r: Self)
        ensures
            r@ == Seq::<AbilityDef<T>>::empty(),
            ids_unique(r@),
    {
        SkillRegistry { entries: Vec::new() }
    }

    /// Nothing registered yet.
    pub fn is_empty(&self) -> (r: bool)
        ensures
            r == (self@.len() == 0),
    {
        self.entries.len() == 0
    }

    /// Every ability in the catalogue (order = registration order).
    pub fn all(&self) -> (r: &[AbilityDef<T>])
        ensures
            r@ == self@,
    {
        self.entries.as_slice()
    }

    /// Look an ability up by id.
    pub fn get(&self, id: AbilityId) -> (r: Option<&AbilityDef<T>>)
        ensures
            ids_unique(self@),
            r is None <==> !has_id(self@, id),
            r matches Some(def) ==> *def == self@[index_of_id(self@, id)] && def.id == id,
    {
        proof {
            use_type_invariant(self);
        }
        let mut i: usize = 0;
        while i < self.entries.len()
            invariant
                0 <= i <= self.entries@.len(),
                ids_unique(self.entries@),
                forall|k: int| 0 <= k < i ==> self.entries@[k].id != id,
            decreases self.entries@.len() - i,
        {
            if self.entries[i].id == id {
                proof {
                    let j = index_of_id(self@, id);
                    assert(self@[i as int].id == id);
                    assert(j == i);
                }
                return Some(&self.entries[i]);
            }
            i = i + 1;
        }
        None
    }

    /// Look an ability up by id when the catalogue is known to hold it.
    ///
    /// The catalogue is fixed at start-up, so a missing id is a wiring mistake:
    /// callers must know the id was registered.
    pub fn expect(&self, id: AbilityId) -> (r: &AbilityDef<T>)
        requires
            has_id(self@, id),
        ensures
            *r == self@[index_of_id(self@, id)],
            r.id == id,
    {
        match self.get(id) {
            Some(def) => def,
            None => {
                proof {
                    assert(false);
                }
                &self.entries[0]
            },
        }
    }

    /// The abilities the current energy can pay for, in catalogue order.
    pub fn affordable(&self, stamina: u32) -> (r: Vec<AbilityDef<T>>) where T: Copy
        ensures
            r@ == affordable_entries(self@, stamina),
    {
        let mut out: Vec<AbilityDef<T>> = Vec::new();
        let mut i: usize = 0;
        while i < self.entries.len()
            invariant
                0 <= i <= self.entries@.len(),
                out@ == affordable_entries(self.entries@.take(i as int), stamina),
            decreases self.entries@.len() - i,
        {
            let def = self.entries[i];
            proof {
                assert(self.entries@.take(i + 1).drop_last() =~= self.entries@.take(i as int));
            }
            if def.cost <= stamina {
                out.push(def);
            }
            i = i + 1;
        }
        proof {
            assert(self.entries@.take(self.entries@.len() as int) =~= self.entries@);
        }
        out
    }

    /// Merge one definition in: the same id is **overwritten where it stands**
    /// (registering twice does not reorder the menu); a new id goes last.
    pub fn register(&mut self, def: AbilityDef<T>)
        ensures
            final(self)@ == registered(old(self)@, def),
            ids_unique(final(self)@),
    {
        proof {
            use_type_invariant(&*self);
        }
        let mut entries: Vec<AbilityDef<T>> = Vec::new();
        std::mem::swap(&mut entries, &mut self.entries);
        let ghost before = entries@;
        proof {
            lemma_registered_unique(before, def);
        }
        let mut i: usize = 0;
        while i < entries.len()
            invariant
                entries@ == before,
                before == old(self)@,
                ids_unique(before),
                0 <= i <= before.len(),
                forall|k: int| 0 <= k < i ==> before[k].id != def.id,
            decreases before.len() - i,
        {
            if entries[i].id == def.id {
                proof {
                    assert(has_id(before, def.id));
                    let j = index_of_id(before, def.id);
                    assert(j == i);
                }
                entries.set(i, def);
                self.entries = entries;
                return;
            }
            i = i + 1;
        }
        entries.push(def);
        self.entries = entries;
    }
}

/// Merging keeps ids unique, and the merged definition is the one stored under its id.
pub proof fn lemma_registered_unique<T>(entries: Seq<AbilityDef<T>>, def: AbilityDef<T>)
    requires
        ids_unique(entries),
    ensures
        ids_unique(registered(entries, def)),
        has_id(registered(entries, def), def.id),
        registered(entries, def)[index_of_id(registered(entries, def), def.id)] == def,
{
    let r = registered(entries, def);
    if has_id(entries, def.id) {
        let j = index_of_id(entries, def.id);
        assert(r[j].id == def.id);
    } else {
        assert(r[entries.len() as int].id == def.id);
    }
    let k = index_of_id(r, def.id);
    assert(r[k].id == def.id);
}

/// Registering an id that is already in the catalogue keeps the menu order: the
/// sequence of ids is unchanged, and only that entry's content changes.
pub proof fn lemma_reregistering_keeps_menu_order<T>(
    entries: Seq<AbilityDef<T>>,
    def: AbilityDef<T>,
)
    requires
        ids_unique(entries),
        has_id(entries, def.id),
    ensures
        registered(entries, def).len() == entries.len(),
        forall|i: int|
            0 <= i < entries.len() ==> #[trigger] registered(entries, def)[i].id == entries[i].id,
        forall|i: int|
            0 <= i < entries.len() && entries[i].id != def.id ==> #[trigger] registered(
                entries,
                def,
            )[i] == entries[i],
{
    let j = index_of_id(entries, def.id);
    assert(entries[j].id == def.id);
}

/// A new id is appended at the end, after every entry that was already there.
pub proof fn lemma_new_id_goes_last<T>(entries: Seq<AbilityDef<T>>, def: AbilityDef<T>)
    requires
        !has_id(entries, def.id),
    ensures
        registered(entries, def) == entries.push(def),
{
}

/// Registering the same definition twice is the same as registering it once.
pub proof fn lemma_register_idempotent<T>(entries: Seq<AbilityDef<T>>, def: AbilityDef<T>)
    requires
        ids_unique(entries),
    ensures
        registered(registered(entries, def), def) == registered(entries, def),
{
    let r = registered(entries, def);
    lemma_registered_unique(entries, def);
    let k = index_of_id(r, def.id);
    assert(r.update(k, def) =~= r);
}

/// An entry is affordable exactly when its cost fits in the energy available.
pub proof fn lemma_affordable_is_a_cost_filter<T>(entries: Seq<AbilityDef<T>>, stamina: u32)
    ensures
        forall|d: AbilityDef<T>|
            affordable_entries(entries, stamina).contains(d) <==> (entries.contains(d) && d.cost
                <= stamina),
    decreases entries.len(),
{
    if entries.len() == 0 {
        assert forall|d: AbilityDef<T>|
            affordable_entries(entries, stamina).contains(d) <==> (entries.contains(d) && d.cost
                <= stamina) by {
            assert(affordable_entries(entries, stamina) =~= Seq::<AbilityDef<T>>::empty());
        }
    } else {
        let earlier = entries.drop_last();
        let last = entries.last();
        let e = affordable_entries(earlier, stamina);
        let a = affordable_entries(entries, stamina);
        lemma_affordable_is_a_cost_filter(earlier, stamina);
        assert(a == (if last.cost <= stamina {
            e.push(last)
        } else {
            e
        }));
        assert forall|d: AbilityDef<T>| a.contains(d) implies entries.contains(d) && d.cost
            <= stamina by {
            let i = choose|i: int| 0 <= i < a.len() && a[i] == d;
            if last.cost <= stamina && i == e.len() {
                assert(entries[entries.len() - 1] == d);
            } else {
                assert(i < e.len());
                assert(e[i] == d);
                assert(e.contains(d));
                assert(earlier.contains(d));
                let k = choose|k: int| 0 <= k < earlier.len() && earlier[k] == d;
                assert(entries[k] == d);
            }
        }
        assert forall|d: AbilityDef<T>| entries.contains(d) && d.cost <= stamina implies a.contains(
            d,
        ) by {
            let i = choose|i: int| 0 <= i < entries.len() && entries[i] == d;
            if i == entries.len() - 1 {
                assert(a[e.len() as int] == d);
            } else {
                assert(earlier[i] == d);
                assert(earlier.contains(d));
                assert(e.contains(d));
                let k = choose|k: int| 0 <= k < e.len() && e[k] == d;
                if last.cost <= stamina {
                    assert(a[k] == d);
                }
            }
        }
    }
}

} // verus!
