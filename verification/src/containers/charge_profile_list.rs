//! The list of charge profiles of a simulation, indexed by profile ID and
//! searchable by name.

use crate::id_index::{indexes, is_last_index, lemma_indexes_finds, lemma_indexes_push, lemma_last_index_unique};
use crate::errors::SimulationError;
use crate::ids::{id_to_string, uuid_text, Id};
use std::collections::HashMap;
use vstd::prelude::*;

verus! {

/// A charge profile of the list: its ID and name, which the list reads,
/// and the profile itself (its power curve), which the list only holds.
#[derive(Debug)]
pub struct ChargeProfileEntry<P> {
    pub id: Id,
    pub name: String,
    pub profile: P,
}

/// The IDs of a list of entries, in order.
pub open spec fn entry_ids<P>(entries: Seq<ChargeProfileEntry<P>>) -> Seq<Id> {
    Seq::new(entries.len(), |i: int| entries[i].id)
}

/// The entry that a lookup of `id` finds: the last one with that ID, if any.
pub open spec fn lookup_entry<P>(entries: Seq<ChargeProfileEntry<P>>, id: Id) -> Option<ChargeProfileEntry<P>> {
    if exists|j: int| is_last_index(entry_ids(entries), id, j) {
        Some(entries[choose|j: int| is_last_index(entry_ids(entries), id, j)])
    } else {
        None
    }
}

/// `i` is the first entry named `name`.
pub open spec fn is_first_named<P>(entries: Seq<ChargeProfileEntry<P>>, name: Seq<char>, i: int) -> bool {
    &&& 0 <= i < entries.len()
    &&& entries[i].name@ == name
    &&& forall|j: int| 0 <= j < i ==> #[trigger] entries[j].name@ != name
}

/// A list of charge profiles including a mapping of charge profile ID to
/// charge profile objects.
#[derive(Debug)]
pub struct ChargeProfileList<P> {
    charge_profiles: Vec<ChargeProfileEntry<P>>,
    charge_profile_map: HashMap<Id, usize>,
}

impl<P> View for ChargeProfileList<P> {
    type V = Seq<ChargeProfileEntry<P>>;

    /// The charge profiles, in the order in which they were added.
    closed spec fn view(&self) -> Seq<ChargeProfileEntry<P>> {
        self.charge_profiles@
    }
}

impl<P> ChargeProfileList<P> {
    /// The map from profile ID to position is an index of the profiles.
    pub closed spec fn wf(&self) -> bool {
        indexes(self.charge_profile_map@, entry_ids(self.charge_profiles@))
    }

    /// Create a new list of charge profiles.
    pub fn new(charge_profiles: Vec<ChargeProfileEntry<P>>) -> (l: Self)
        ensures
            l.wf(),
            l@ == charge_profiles@,
    {
        let mut l = ChargeProfileList { charge_profiles: Vec::new(), charge_profile_map: HashMap::new() };
        assert(entry_ids(l.charge_profiles@) =~= Seq::<Id>::empty());
        l.extend(charge_profiles);
        l
    }

    /// Append charge profiles to the list.
    pub fn extend(&mut self, charge_profiles: Vec<ChargeProfileEntry<P>>)
        requires
            old(self).wf(),
        ensures
            final(self).wf(),
            final(self)@ == old(self)@ + charge_profiles@,
    {
        let mut items = charge_profiles;
        let ghost added = items@;
        let mut rest: Vec<ChargeProfileEntry<P>> = Vec::new();
        while items.len() > 0
            invariant
                items@ + rest@.reverse() == added,
            decreases items@.len(),
        {
            let p = items.pop().unwrap();
            rest.push(p);
            assert(items@ + rest@.reverse() =~= added);
        }
        while rest.len() > 0
            invariant
                self.wf(),
                self.charge_profiles@ + rest@.reverse() == old(self).charge_profiles@ + added,
            decreases rest@.len(),
        {
            let p = rest.pop().unwrap();
            let idx = self.charge_profiles.len();
            proof {
                lemma_indexes_push(self.charge_profile_map@, entry_ids(self.charge_profiles@), p.id);
                assert(entry_ids(self.charge_profiles@).push(p.id) =~= entry_ids(self.charge_profiles@.push(p)));
            }
            self.charge_profile_map.insert(p.id, idx);
            self.charge_profiles.push(p);
            assert(self.charge_profiles@ + rest@.reverse() =~= old(self).charge_profiles@ + added);
        }
        assert(self.charge_profiles@ =~= old(self).charge_profiles@ + added);
    }

    /// Fetch a charge profile from the list using its ID.
    /// Fails with `InvalidChargeProfileId` (the ID's text) where no profile
    /// has that ID.
    pub fn get_charge_profile(&self, id: &Id) -> (r: Result<&P, SimulationError>)
        requires
            self.wf(),
        ensures
            match lookup_entry(self@, *id) {
                Some(e) => r == Ok::<&P, SimulationError>(&e.profile),
                None => r matches Err(SimulationError::InvalidChargeProfileId(m)) && m@ == uuid_text(*id),
            },
    {
        match self.charge_profile_map.get(id) {
            Some(i) => {
                proof {
                    let j = choose|j: int| is_last_index(entry_ids(self.charge_profiles@), *id, j);
                    lemma_last_index_unique(entry_ids(self.charge_profiles@), *id, *i as int, j);
                }
                Ok(&self.charge_profiles[*i].profile)
            },
            None => {
                proof {
                    lemma_indexes_finds(self.charge_profile_map@, entry_ids(self.charge_profiles@), *id);
                    if exists|j: int| is_last_index(entry_ids(self.charge_profiles@), *id, j) {
                        let j = choose|j: int| is_last_index(entry_ids(self.charge_profiles@), *id, j);
                        assert(entry_ids(self.charge_profiles@)[j] == *id);
                    }
                }
                Err(SimulationError::InvalidChargeProfileId(id_to_string(*id)))
            },
        }
    }

    /// Fetch the ID of the first charge profile with the given name.
    pub fn get_id_by_name(&self, name: &str) -> (r: Option<Id>)
        ensures
            match r {
                Some(id) => exists|i: int| is_first_named(self@, name@, i) && self@[i].id == id,
                None => forall|i: int| 0 <= i < self@.len() ==> #[trigger] self@[i].name@ != name@,
            },
    {
        let target = name.to_owned();
        let mut i: usize = 0;
        while i < self.charge_profiles.len()
            invariant
                0 <= i <= self.charge_profiles@.len(),
                target@ == name@,
                forall|j: int| 0 <= j < i ==> #[trigger] self.charge_profiles@[j].name@ != name@,
            decreases self.charge_profiles@.len() - i,
        {
            if self.charge_profiles[i].name == target {
                assert(is_first_named(self@, name@, i as int));
                return Some(self.charge_profiles[i].id);
            }
            i = i + 1;
        }
        None
    }

    /// Fetch all charge profile IDs, each once, in the order in which the
    /// profiles were added (where an ID recurs, at its first place). Where
    /// the IDs are distinct, they are the profiles' IDs in list order.
    pub fn all_ids(&self) -> (ids: Vec<Id>)
        ensures
            ids@.no_duplicates(),
            forall|id: Id| ids@.contains(id) <==> entry_ids(self@).contains(id),
            entry_ids(self@).no_duplicates() ==> ids@ == entry_ids(self@),
    {
        let mut ids: Vec<Id> = Vec::new();
        let mut i: usize = 0;
        while i < self.charge_profiles.len()
            invariant
                0 <= i <= self.charge_profiles@.len(),
                ids@.no_duplicates(),
                forall|id: Id| ids@.contains(id) <==> entry_ids(self.charge_profiles@).subrange(0, i as int).contains(id),
                entry_ids(self.charge_profiles@).no_duplicates() ==> ids@ == entry_ids(self.charge_profiles@).subrange(0, i as int),
            decreases self.charge_profiles@.len() - i,
        {
            let id = self.charge_profiles[i].id;
            let ghost before = ids@;
            let mut seen = false;
            let mut k: usize = 0;
            while k < ids.len()
                invariant
                    0 <= k <= ids@.len(),
                    ids@ == before,
                    seen == exists|m: int| 0 <= m < k && ids@[m] == id,
                decreases ids@.len() - k,
            {
                if ids[k] == id {
                    seen = true;
                }
                k = k + 1;
            }
            let ghost prefix = entry_ids(self.charge_profiles@).subrange(0, i as int);
            assert(entry_ids(self.charge_profiles@).subrange(0, i + 1) =~= prefix.push(id));
            proof {
                if seen && entry_ids(self.charge_profiles@).no_duplicates() {
                    let m = choose|m: int| 0 <= m < k && ids@[m] == id;
                    assert(prefix[m] == id);
                    assert(entry_ids(self.charge_profiles@)[m] == entry_ids(self.charge_profiles@)[i as int]);
                }
            }
            if !seen {
                ids.push(id);
                assert forall|a: int, b: int| 0 <= a < b < ids@.len() implies ids@[a] != ids@[b] by {
                    if b == ids@.len() - 1 {
                        assert(ids@[a] == before[a]);
                    }
                }
                assert forall|x: Id| ids@.contains(x) <==> prefix.push(id).contains(x) by {
                    if ids@.contains(x) && x != id {
                        let m = choose|m: int| 0 <= m < ids@.len() && ids@[m] == x;
                        assert(before[m] == x);
                        assert(before.contains(x));
                        assert(prefix.contains(x));
                        let m2 = choose|m2: int| 0 <= m2 < prefix.len() && prefix[m2] == x;
                        assert(prefix.push(id)[m2] == x);
                    }
                    if prefix.push(id).contains(x) && x != id {
                        let m = choose|m: int| 0 <= m < prefix.push(id).len() && prefix.push(id)[m] == x;
                        assert(prefix[m] == x);
                        assert(prefix.contains(x));
                        assert(before.contains(x));
                        let m2 = choose|m2: int| 0 <= m2 < before.len() && before[m2] == x;
                        assert(ids@[m2] == x);
                    }
                    if x == id {
                        assert(ids@[ids@.len() - 1] == id);
                        assert(prefix.push(id)[prefix.len() as int] == id);
                    }
                }
            } else {
                assert(ids@.contains(id)) by {
                    let m = choose|m: int| 0 <= m < ids@.len() && ids@[m] == id;
                }
                assert forall|x: Id| ids@.contains(x) <==> prefix.push(id).contains(x) by {
                    assert(ids@.contains(x) <==> prefix.contains(x));
                    if prefix.push(id).contains(x) && x != id {
                        let m = choose|m: int| 0 <= m < prefix.push(id).len() && prefix.push(id)[m] == x;
                        assert(prefix[m] == x);
                        assert(prefix.contains(x));
                    }
                    if ids@.contains(x) {
                        assert(prefix.contains(x));
                        let m = choose|m: int| 0 <= m < prefix.len() && prefix[m] == x;
                        assert(prefix.push(id)[m] == x);
                    }
                    if x == id {
                        assert(prefix.push(id)[prefix.len() as int] == id);
                        let m = choose|m: int| 0 <= m < ids@.len() && ids@[m] == id;
                        assert(ids@.contains(id));
                    }
                }
            }
            i = i + 1;
        }
        assert(entry_ids(self.charge_profiles@).subrange(0, i as int) =~= entry_ids(self.charge_profiles@));
        ids
    }
}

} // verus!
