//! The list of origin and destination locations of a region, indexed by
//! location ID.

use crate::errors::SimulationError;
use crate::id_index::{fx_get, fx_insert, indexes, is_last_index, lemma_indexes_finds, lemma_indexes_push, lemma_last_index_unique};
use crate::ids::{id_to_string, uuid_text, Id};
use rustc_hash::FxHashMap;
use vstd::prelude::*;

verus! {

/// A location of the list: its ID, which the list reads, and the location
/// itself (its name and coordinates), which the list only holds.
#[derive(Debug)]
pub struct LocationEntry<L> {
    pub id: Id,
    pub location: L,
}

/// The IDs of a list of locations, in order.
pub open spec fn location_ids<L>(entries: Seq<LocationEntry<L>>) -> Seq<Id> {
    Seq::new(entries.len(), |i: int| entries[i].id)
}

/// The location that a lookup of `id` finds: the last one with that ID, if
/// any.
pub open spec fn lookup_location<L>(entries: Seq<LocationEntry<L>>, id: Id) -> Option<LocationEntry<L>> {
    if exists|j: int| is_last_index(location_ids(entries), id, j) {
        Some(entries[choose|j: int| is_last_index(location_ids(entries), id, j)])
    } else {
        None
    }
}

/// A list of origin or destination locations in a region.
#[derive(Debug)]
pub struct LocationList<L> {
    locations: Vec<LocationEntry<L>>,
    location_map: FxHashMap<Id, usize>,
}

impl<L> View for LocationList<L> {
    type V = Seq<LocationEntry<L>>;

    /// The locations, in the order in which they were added.
    closed spec fn view(&self) -> Seq<LocationEntry<L>> {
        self.locations@
    }
}

impl<L> LocationList<L> {
    /// The map from location ID to position is an index of the locations.
    pub closed spec fn wf(&self) -> bool {
        indexes(self.location_map@, location_ids(self.locations@))
    }

    /// Create a new list of locations.
    pub fn new(locations: Vec<LocationEntry<L>>) -> (l: Self)
        ensures
            l.wf(),
            l@ == locations@,
    {
        let mut l = LocationList { locations: Vec::new(), location_map: FxHashMap::default() };
        assert(location_ids(l.locations@) =~= Seq::<Id>::empty());
        l.extend(locations);
        l
    }

    /// Append locations to the list.
    pub fn extend(&mut self, locations: Vec<LocationEntry<L>>)
        requires
            old(self).wf(),
        ensures
            final(self).wf(),
            final(self)@ == old(self)@ + locations@,
    {
        let mut items = locations;
        let ghost added = items@;
        let mut rest: Vec<LocationEntry<L>> = Vec::new();
        while items.len() > 0
            invariant
                items@ + rest@.reverse() == added,
            decreases items@.len(),
        {
            let x = items.pop().unwrap();
            rest.push(x);
            assert(items@ + rest@.reverse() =~= added);
        }
        while rest.len() > 0
            invariant
                self.wf(),
                self.locations@ + rest@.reverse() == old(self).locations@ + added,
            decreases rest@.len(),
        {
            let x = rest.pop().unwrap();
            let idx = self.locations.len();
            proof {
                lemma_indexes_push(self.location_map@, location_ids(self.locations@), x.id);
                assert(location_ids(self.locations@).push(x.id) =~= location_ids(self.locations@.push(x)));
            }
            fx_insert(&mut self.location_map, x.id, idx);
            self.locations.push(x);
            assert(self.locations@ + rest@.reverse() =~= old(self).locations@ + added);
        }
        assert(self.locations@ =~= old(self).locations@ + added);
    }

    /// Get the number of locations.
    pub fn num_locations(&self) -> (n: usize)
        ensures
            n == self@.len(),
    {
        self.locations.len()
    }

    /// Fetch a location from the list using its ID.
    pub fn get_location(&self, id: &Id) -> (r: Result<&L, SimulationError>)
        requires
            self.wf(),
        ensures
            match lookup_location(self@, *id) {
                Some(e) => r == Ok::<&L, SimulationError>(&e.location),
                None => r matches Err(SimulationError::InvalidLocationId(s)) && s@ == uuid_text(*id),
            },
    {
        match fx_get(&self.location_map, id) {
            Some(i) => {
                proof {
                    let j = choose|j: int| is_last_index(location_ids(self.locations@), *id, j);
                    lemma_last_index_unique(location_ids(self.locations@), *id, i as int, j);
                }
                Ok(&self.locations[i].location)
            },
            None => {
                proof {
                    lemma_indexes_finds(self.location_map@, location_ids(self.locations@), *id);
                    if exists|j: int| is_last_index(location_ids(self.locations@), *id, j) {
                        let j = choose|j: int| is_last_index(location_ids(self.locations@), *id, j);
                        assert(location_ids(self.locations@)[j] == *id);
                    }
                }
                Err(SimulationError::InvalidLocationId(id_to_string(*id)))
            },
        }
    }
}

} // verus!
