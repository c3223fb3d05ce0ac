//! Maps from an ID to the position of the item with that ID in a list, as
//! the lists of vehicles, chargers and sites keep them.

use crate::ids::Id;
use rustc_hash::FxHashMap;
use vstd::prelude::*;

verus! {

/// `j` is the last position of `ids` that holds `k`.
pub open spec fn is_last_index(ids: Seq<Id>, k: Id, j: int) -> bool {
    &&& 0 <= j < ids.len()
    &&& ids[j] == k
    &&& forall|l: int| j < l < ids.len() ==> ids[l] != k
}

/// `m` maps each ID that occurs in `ids` to its last position there, and
/// holds no other ID: what inserting `(ids[i], i)` for each `i` in turn
/// into an empty map gives.
pub open spec fn indexes(m: Map<Id, usize>, ids: Seq<Id>) -> bool {
    &&& forall|k: Id| #[trigger] m.contains_key(k) ==> is_last_index(ids, k, m[k] as int)
    &&& forall|j: int| 0 <= j < ids.len() ==> #[trigger] m.contains_key(ids[j])
}

/// Appending an ID to the list and mapping it to its new position keeps the
/// map an index of the list.
pub proof fn lemma_indexes_push(m: Map<Id, usize>, ids: Seq<Id>, k: Id)
    requires
        indexes(m, ids),
        ids.len() <= usize::MAX,
    ensures
        indexes(m.insert(k, ids.len() as usize), ids.push(k)),
{
    let m2 = m.insert(k, ids.len() as usize);
    let ids2 = ids.push(k);
    assert forall|k2: Id| #[trigger] m2.contains_key(k2) implies is_last_index(ids2, k2, m2[k2] as int) by {
        if k2 != k {
            assert(m.contains_key(k2));
        }
    }
    assert forall|j: int| 0 <= j < ids2.len() implies #[trigger] m2.contains_key(ids2[j]) by {
        if j < ids.len() {
            assert(m.contains_key(ids[j]));
        }
    }
}

/// A list has at most one last position of an ID.
pub proof fn lemma_last_index_unique(ids: Seq<Id>, k: Id, i: int, j: int)
    requires
        is_last_index(ids, k, i),
        is_last_index(ids, k, j),
    ensures
        i == j,
{
}

/// An index finds an ID exactly when the list holds it.
pub proof fn lemma_indexes_finds(m: Map<Id, usize>, ids: Seq<Id>, k: Id)
    requires
        indexes(m, ids),
    ensures
        m.contains_key(k) <==> ids.contains(k),
        !m.contains_key(k) ==> forall|j: int| 0 <= j < ids.len() ==> ids[j] != k,
{
    if m.contains_key(k) {
        assert(ids[m[k] as int] == k);
    }
    if ids.contains(k) {
        let j = choose|j: int| 0 <= j < ids.len() && ids[j] == k;
        assert(m.contains_key(ids[j]));
    }
    assert forall|j: int| 0 <= j < ids.len() && !m.contains_key(k) implies ids[j] != k by {
        assert(m.contains_key(ids[j]));
    }
}

/// The hasher of `rustc_hash::FxHashMap`.
#[verifier::external_type_specification]
#[verifier::external_body]
pub struct ExFxBuildHasher(rustc_hash::FxBuildHasher);

/// Insert into an `FxHashMap`, through `std::collections::HashMap::insert`.
///
/// Trusted: `FxBuildHasher` builds `FxHasher`s with a fixed seed, so equal
/// keys always hash equally and the map behaves as a map; the contract
/// states that the key is mapped to the value afterwards and nothing else
/// changes.
#[verifier::external_body]
pub(crate) fn fx_insert(m: &mut FxHashMap<Id, usize>, k: Id, v: usize)
    ensures
        final(m)@ == old(m)@.insert(k, v),
{
    m.insert(k, v);
}

/// Look up a key in an `FxHashMap`, through
/// `std::collections::HashMap::get`.
///
/// Trusted: as for `fx_insert`; the contract states that the value mapped
/// to the key is returned, or `None` where there is none.
#[verifier::external_body]
pub(crate) fn fx_get(m: &FxHashMap<Id, usize>, k: &Id) -> (r: Option<usize>)
    ensures
        r == (if m@.contains_key(*k) {
            Some(m@[*k])
        } else {
            None
        }),
{
    m.get(k).copied()
}

} // verus!
