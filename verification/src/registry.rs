//! The catalog registry: what has to change in the stored list of step
//! kinds so that it matches the catalog, and the table that finds a
//! variant by its id.

use vstd::prelude::*;
use std::collections::{HashMap, HashSet};
use crate::database::{CustomError, DocID};
use crate::workflow_steps::{
    all_variants, spec_all_variants, spec_variant_by_id, WFSVariant, KIND_COUNT,
};

verus! {

/// What a bootstrap does to the stored list of step kinds, and the table
/// that it sets up.
pub struct CatalogPlan {
    /// Ids of kinds to add to the store, ascending.
    pub insert: Vec<DocID>,
    /// Stored ids to take out of the store, in the order in which the
    /// store lists them, each once.
    pub remove: Vec<DocID>,
    /// The table that finds a variant by its id.
    pub registry: CatalogRegistry,
}

/// The table that finds every variant of the catalog by the id of its
/// kind. It is set up by a bootstrap and read-only afterwards.
pub struct CatalogRegistry {
    table: HashMap<DocID, WFSVariant>,
}

/// Is `id` the id of a kind of the catalog?
pub open spec fn is_kind_id(id: DocID) -> bool {
    id < KIND_COUNT
}

/// The ids of kinds below `m` that `stored` lacks, ascending.
pub open spec fn missing_below(stored: Set<DocID>, m: nat) -> Seq<DocID>
    decreases m,
{
    if m == 0 {
        Seq::empty()
    } else {
        let rest = missing_below(stored, (m - 1) as nat);
        if stored.contains((m - 1) as DocID) {
            rest
        } else {
            rest.push((m - 1) as DocID)
        }
    }
}

/// The ids among the first `m` of `stored` that are no ids of a kind, in
/// their order, each once.
pub open spec fn obsolete_below(stored: Seq<DocID>, m: nat) -> Seq<DocID>
    decreases m,
{
    if m == 0 || m > stored.len() {
        Seq::empty()
    } else {
        let rest = obsolete_below(stored, (m - 1) as nat);
        let id = stored[m - 1];
        if !is_kind_id(id) && !rest.contains(id) {
            rest.push(id)
        } else {
            rest
        }
    }
}

/// The kinds of the catalog that the store lacks.
pub open spec fn spec_missing(stored: Seq<DocID>) -> Seq<DocID> {
    missing_below(stored.to_set(), KIND_COUNT as nat)
}

/// The stored ids that the catalog has no kind for.
pub open spec fn spec_obsolete(stored: Seq<DocID>) -> Seq<DocID> {
    obsolete_below(stored, stored.len())
}

/// A stored id that the catalog has no kind for, and that a stored
/// workflow still refers to.
pub open spec fn drifted(stored: Seq<DocID>, referenced: Seq<DocID>) -> bool {
    exists|k: int|
        0 <= k < stored.len() && !is_kind_id(#[trigger] stored[k]) && referenced.contains(
            stored[k],
        )
}

/// The table that finds every variant of the catalog by the id of its
/// kind.
pub open spec fn spec_table() -> Map<DocID, WFSVariant> {
    Map::new(|id: DocID| is_kind_id(id), |id: DocID| spec_all_variants()[id as int])
}

/// The ids among the first `m` of `stored` that are ids of a kind, in
/// their order.
pub open spec fn kept_below(stored: Seq<DocID>, m: nat) -> Seq<DocID>
    decreases m,
{
    if m == 0 || m > stored.len() {
        Seq::empty()
    } else {
        let rest = kept_below(stored, (m - 1) as nat);
        if is_kind_id(stored[m - 1]) {
            rest.push(stored[m - 1])
        } else {
            rest
        }
    }
}

/// What the store lists once a plan is carried out: what it listed
/// before but for the removed ids, then the inserted ones.
pub open spec fn stored_after(stored: Seq<DocID>) -> Seq<DocID> {
    kept_below(stored, stored.len()) + spec_missing(stored)
}

/// The set of the ids in a list.
fn id_set(list: &Vec<DocID>) -> (set: HashSet<DocID>)
    ensures
        set@ == list@.to_set(),
{
    let mut set: HashSet<DocID> = HashSet::new();
    let mut k: usize = 0;
    while k < list.len()
        invariant
            k <= list@.len(),
            set@ == list@.subrange(0, k as int).to_set(),
        decreases list@.len() - k,
    {
        set.insert(list[k]);
        proof {
            let shorter = list@.subrange(0, k as int);
            let longer = list@.subrange(0, k + 1);
            assert(longer == shorter.push(list@[k as int]));
            assert forall|id: DocID| longer.to_set().contains(id) <==> shorter.to_set().insert(
                list@[k as int],
            ).contains(id) by {
                if shorter.contains(id) {
                    let a = choose|a: int| 0 <= a < shorter.len() && shorter[a] == id;
                    assert(longer[a] == id);
                }
                if id == list@[k as int] {
                    assert(longer[k as int] == id);
                }
                if longer.contains(id) {
                    let a = choose|a: int| 0 <= a < longer.len() && longer[a] == id;
                    if a < k {
                        assert(shorter[a] == id);
                    }
                }
            }
            assert(longer.to_set() =~= shorter.to_set().insert(list@[k as int]));
        }
        k = k + 1;
    }
    assert(list@.subrange(0, list@.len() as int) == list@);
    set
}

/// What `obsolete_below` holds: the ids among the first `m` stored ones
/// that are no ids of a kind.
proof fn lemma_obsolete_below(stored: Seq<DocID>, m: nat)
    requires
        m <= stored.len(),
    ensures
        forall|id: DocID|
            #![trigger obsolete_below(stored, m).contains(id)]
            #![trigger stored.subrange(0, m as int).contains(id)]
            obsolete_below(stored, m).contains(id) <==> !is_kind_id(id) && stored.subrange(
                0,
                m as int,
            ).contains(id),
    decreases m,
{
    let all = obsolete_below(stored, m);
    let part = stored.subrange(0, m as int);
    if m > 0 {
        let rest = obsolete_below(stored, (m - 1) as nat);
        let shorter = stored.subrange(0, m - 1);
        lemma_obsolete_below(stored, (m - 1) as nat);
        let last = stored[m - 1];
        assert forall|id: DocID|
            #![trigger all.contains(id)]
            #![trigger part.contains(id)]
            all.contains(id) <==> !is_kind_id(id) && part.contains(id) by {
            if all.contains(id) {
                let a = choose|a: int| 0 <= a < all.len() && all[a] == id;
                if a < rest.len() {
                    assert(rest[a] == id);
                    assert(rest.contains(id));
                    assert(shorter.contains(id));
                    let b = choose|b: int| 0 <= b < shorter.len() && shorter[b] == id;
                    assert(part[b] == id);
                } else {
                    assert(part[m - 1] == id);
                }
            }
            if !is_kind_id(id) && part.contains(id) {
                let b = choose|b: int| 0 <= b < part.len() && part[b] == id;
                if b < m - 1 {
                    assert(shorter[b] == id);
                    assert(rest.contains(id));
                    let a = choose|a: int| 0 <= a < rest.len() && rest[a] == id;
                    assert(all[a] == id);
                } else if rest.contains(id) {
                    let a = choose|a: int| 0 <= a < rest.len() && rest[a] == id;
                    assert(all[a] == id);
                } else {
                    assert(all[all.len() - 1] == id);
                }
            }
        }
    } else {
        assert(part =~= Seq::<DocID>::empty());
    }
}

/// Compares the stored list of step kinds with the catalog and plans the
/// bootstrap: every kind of the catalog that the store lacks is to be
/// inserted, every stored id that the catalog has no kind for is to be
/// removed. Fails with a catalog drift, and plans nothing, if a stored
/// workflow still refers to an id that would be removed.
pub fn build_workflow_step_table(in_db: &Vec<DocID>, referenced: &Vec<DocID>) -> (r: Result<
    CatalogPlan,
    CustomError,
>)
    ensures
        drifted(in_db@, referenced@) ==> r is Err && r->Err_0 == CustomError::CatalogDrift,
        !drifted(in_db@, referenced@) ==> {
            &&& r is Ok
            &&& r->Ok_0.insert@ == spec_missing(in_db@)
            &&& r->Ok_0.remove@ == spec_obsolete(in_db@)
        },
        r is Ok ==> forall|k: int|
            0 <= k < r->Ok_0.remove@.len() ==> !referenced@.contains(#[trigger] r->Ok_0.remove@[k]),
{
    let mut lookup_table: HashMap<DocID, WFSVariant> = HashMap::new();
    let mut remaining = id_set(in_db);
    let in_use = id_set(referenced);
    let mut insert: Vec<DocID> = Vec::new();
    let variants = all_variants();
    let mut k: usize = 0;
    while k < variants.len()
        invariant
            k <= variants@.len(),
            variants@ == spec_all_variants(),
            insert@ == missing_below(in_db@.to_set(), k as nat),
            forall|id: DocID| lookup_table@.contains_key(id) <==> id < k,
            forall|id: DocID| id < k ==> lookup_table@[id] == spec_all_variants()[id as int],
            forall|id: DocID|
                #![trigger remaining@.contains(id)]
                remaining@.contains(id) <==> in_db@.contains(id) && id >= k,
        decreases variants@.len() - k,
    {
        let variant = variants[k];
        let id = variant.id();
        assert(id == k);
        lookup_table.insert(id, variant);
        if remaining.contains(&id) {
            remaining.remove(&id);
        } else {
            insert.push(id);
        }
        k = k + 1;
    }
    let mut remove: Vec<DocID> = Vec::new();
    let mut k: usize = 0;
    while k < in_db.len()
        invariant
            k <= in_db@.len(),
            in_use@ == referenced@.to_set(),
            remove@ == obsolete_below(in_db@, k as nat),
            forall|id: DocID|
                #![trigger remaining@.contains(id)]
                remaining@.contains(id) <==> in_db@.contains(id) && !is_kind_id(id)
                    && !remove@.contains(id),
            forall|a: int|
                0 <= a < k ==> is_kind_id(#[trigger] in_db@[a]) || !referenced@.contains(in_db@[a]),
            forall|a: int| 0 <= a < remove@.len() ==> !referenced@.contains(#[trigger] remove@[a]),
        decreases in_db@.len() - k,
    {
        let id = in_db[k];
        let ghost before = remove@;
        let ghost left = remaining@;
        if remaining.contains(&id) {
            if in_use.contains(&id) {
                return Err(CustomError::CatalogDrift);
            }
            remaining.remove(&id);
            remove.push(id);
            proof {
                assert forall|x: DocID|
                    #![trigger remaining@.contains(x)]
                    remaining@.contains(x) <==> in_db@.contains(x) && !is_kind_id(x)
                        && !remove@.contains(x) by {
                    if x == id {
                        assert(remove@[before.len() as int] == x);
                    } else {
                        assert(remaining@.contains(x) == left.contains(x));
                        assert(left.contains(x) <==> in_db@.contains(x) && !is_kind_id(x)
                            && !before.contains(x));
                        if before.contains(x) {
                            let a = choose|a: int| 0 <= a < before.len() && before[a] == x;
                            assert(remove@[a] == x);
                        }
                        if remove@.contains(x) {
                            let a = choose|a: int| 0 <= a < remove@.len() && remove@[a] == x;
                            assert(before[a] == x);
                        }
                    }
                }
            }
        } else {
            proof {
                if !is_kind_id(id) {
                    assert(before.contains(id));
                    let a = choose|a: int| 0 <= a < before.len() && before[a] == id;
                    assert(!referenced@.contains(before[a]));
                }
            }
        }
        k = k + 1;
    }
    proof {
        assert(lookup_table@ =~= spec_table());
        assert(!drifted(in_db@, referenced@));
    }
    Ok(CatalogPlan { insert, remove, registry: CatalogRegistry { table: lookup_table } })
}

/// What `missing_below` holds: the ids below `m` that `stored` lacks.
proof fn lemma_missing_below(stored: Set<DocID>, m: nat)
    requires
        m <= DocID::MAX,
    ensures
        forall|id: DocID|
            #![trigger missing_below(stored, m).contains(id)]
            missing_below(stored, m).contains(id) <==> id < m && !stored.contains(id),
    decreases m,
{
    let all = missing_below(stored, m);
    if m > 0 {
        let rest = missing_below(stored, (m - 1) as nat);
        lemma_missing_below(stored, (m - 1) as nat);
        assert forall|id: DocID| #![trigger all.contains(id)] all.contains(id) <==> id < m
            && !stored.contains(id) by {
            if all.contains(id) {
                let a = choose|a: int| 0 <= a < all.len() && all[a] == id;
                if a < rest.len() {
                    assert(rest[a] == id);
                    assert(rest.contains(id));
                }
            }
            if id < m && !stored.contains(id) {
                if id < m - 1 {
                    assert(rest.contains(id));
                    let a = choose|a: int| 0 <= a < rest.len() && rest[a] == id;
                    assert(all[a] == id);
                } else {
                    assert(all[all.len() - 1] == id);
                }
            }
        }
    }
}

/// What `kept_below` holds: the ids among the first `m` stored ones that
/// are ids of a kind.
proof fn lemma_kept_below(stored: Seq<DocID>, m: nat)
    requires
        m <= stored.len(),
    ensures
        forall|id: DocID|
            #![trigger kept_below(stored, m).contains(id)]
            kept_below(stored, m).contains(id) <==> is_kind_id(id) && stored.subrange(
                0,
                m as int,
            ).contains(id),
    decreases m,
{
    let all = kept_below(stored, m);
    let part = stored.subrange(0, m as int);
    if m > 0 {
        let rest = kept_below(stored, (m - 1) as nat);
        let shorter = stored.subrange(0, m - 1);
        lemma_kept_below(stored, (m - 1) as nat);
        assert forall|id: DocID| #![trigger all.contains(id)] all.contains(id) <==> is_kind_id(id)
            && part.contains(id) by {
            if all.contains(id) {
                let a = choose|a: int| 0 <= a < all.len() && all[a] == id;
                if a < rest.len() {
                    assert(rest[a] == id);
                    assert(rest.contains(id));
                    let b = choose|b: int| 0 <= b < shorter.len() && shorter[b] == id;
                    assert(part[b] == id);
                } else {
                    assert(part[m - 1] == id);
                }
            }
            if is_kind_id(id) && part.contains(id) {
                let b = choose|b: int| 0 <= b < part.len() && part[b] == id;
                if b < m - 1 {
                    assert(shorter[b] == id);
                    assert(rest.contains(id));
                    let a = choose|a: int| 0 <= a < rest.len() && rest[a] == id;
                    assert(all[a] == id);
                } else {
                    assert(all[all.len() - 1] == id);
                }
            }
        }
    } else {
        assert(part =~= Seq::<DocID>::empty());
    }
}

/// A bootstrap is idempotent: once a plan is carried out, the store
/// lists exactly the kinds of the catalog, and a second bootstrap finds
/// nothing to insert and nothing to remove.
pub proof fn lemma_bootstrap_idempotent(stored: Seq<DocID>)
    ensures
        forall|id: DocID| #[trigger] stored_after(stored).contains(id) <==> is_kind_id(id),
        spec_missing(stored_after(stored)) == Seq::<DocID>::empty(),
        spec_obsolete(stored_after(stored)) == Seq::<DocID>::empty(),
{
    let kept = kept_below(stored, stored.len());
    let missing = spec_missing(stored);
    let after = stored_after(stored);
    lemma_kept_below(stored, stored.len());
    lemma_missing_below(stored.to_set(), KIND_COUNT as nat);
    assert(stored.subrange(0, stored.len() as int) == stored);
    assert forall|id: DocID| #[trigger] after.contains(id) <==> is_kind_id(id) by {
        if after.contains(id) {
            let a = choose|a: int| 0 <= a < after.len() && after[a] == id;
            if a < kept.len() {
                assert(kept[a] == id);
                assert(kept.contains(id));
            } else {
                assert(missing[a - kept.len()] == id);
                assert(missing.contains(id));
            }
        }
        if is_kind_id(id) {
            if stored.contains(id) {
                assert(kept.contains(id));
                let a = choose|a: int| 0 <= a < kept.len() && kept[a] == id;
                assert(after[a] == id);
            } else {
                assert(missing.contains(id));
                let a = choose|a: int| 0 <= a < missing.len() && missing[a] == id;
                assert(after[kept.len() + a] == id);
            }
        }
    }
    let again = spec_missing(after);
    lemma_missing_below(after.to_set(), KIND_COUNT as nat);
    if again.len() > 0 {
        let id = again[0];
        assert(again.contains(id));
        assert(after.contains(id) <==> is_kind_id(id));
        assert(after.to_set().contains(id) == after.contains(id));
    }
    assert(again =~= Seq::<DocID>::empty());
    let stale = spec_obsolete(after);
    lemma_obsolete_below(after, after.len());
    assert(after.subrange(0, after.len() as int) == after);
    if stale.len() > 0 {
        let id = stale[0];
        assert(stale.contains(id));
        assert(after.contains(id) <==> is_kind_id(id));
    }
    assert(stale =~= Seq::<DocID>::empty());
}

impl CatalogRegistry {
    #[verifier::type_invariant]
    spec fn holds_catalog(self) -> bool {
        self.table@ == spec_table()
    }

    /// Finds a variant by the id of its kind. A parameterized variant
    /// comes with its parameter at 0.
    pub fn variant_of(&self, id: DocID) -> (r: Result<WFSVariant, CustomError>)
        ensures
            r == match spec_variant_by_id(id) {
                Some(step) => Ok::<WFSVariant, CustomError>(step),
                None => Err(CustomError::UnknownKindId),
            },
    {
        proof {
            use_type_invariant(self);
        }
        match self.table.get(&id) {
            Some(step) => Ok(*step),
            None => Err(CustomError::UnknownKindId),
        }
    }
}

} // verus!
