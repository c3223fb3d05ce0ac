//! The list of charging sites of a region, indexed by site ID.

use crate::errors::SimulationError;
use crate::evse::Site;
use crate::id_index::{fx_get, fx_insert, indexes, is_last_index, lemma_indexes_finds, lemma_indexes_push, lemma_last_index_unique};
use crate::ids::{id_to_string, uuid_text, Id};
use rustc_hash::FxHashMap;
use vstd::prelude::*;

verus! {

/// The IDs of a list of sites, in order.
pub open spec fn site_ids(sites: Seq<Site>) -> Seq<Id> {
    Seq::new(sites.len(), |i: int| sites[i].id)
}

/// The site that a lookup of `id` finds in `sites`: the last one with that
/// ID, if any.
pub open spec fn lookup_site(sites: Seq<Site>, id: Id) -> Option<Site> {
    if exists|j: int| is_last_index(site_ids(sites), id, j) {
        Some(sites[choose|j: int| is_last_index(site_ids(sites), id, j)])
    } else {
        None
    }
}

/// A list of EV charging sites in a region.
#[derive(Debug)]
pub struct SiteList {
    sites: Vec<Site>,
    site_map: FxHashMap<Id, usize>,
}

impl View for SiteList {
    type V = Seq<Site>;

    /// The sites, in the order in which they were added.
    closed spec fn view(&self) -> Seq<Site> {
        self.sites@
    }
}

impl SiteList {
    /// The map from site ID to position is an index of the sites.
    pub closed spec fn wf(&self) -> bool {
        indexes(self.site_map@, site_ids(self.sites@))
    }

    /// Create a new list of sites.
    pub fn new(sites: Vec<Site>) -> (l: Self)
        ensures
            l.wf(),
            l@ == sites@,
    {
        let mut l = SiteList { sites: Vec::new(), site_map: FxHashMap::default() };
        assert(site_ids(l.sites@) =~= Seq::<Id>::empty());
        l.extend(sites);
        l
    }

    /// Append sites to the list.
    pub fn extend(&mut self, sites: Vec<Site>)
        requires
            old(self).wf(),
        ensures
            final(self).wf(),
            final(self)@ == old(self)@ + sites@,
    {
        let mut sites = sites;
        let ghost added = sites@;
        let mut rest: Vec<Site> = Vec::new();
        while sites.len() > 0
            invariant
                sites@ + rest@.reverse() == added,
            decreases sites@.len(),
        {
            let s = sites.pop().unwrap();
            rest.push(s);
            assert(sites@ + rest@.reverse() =~= added);
        }
        while rest.len() > 0
            invariant
                self.wf(),
                self.sites@ + rest@.reverse() == old(self).sites@ + added,
            decreases rest@.len(),
        {
            let s = rest.pop().unwrap();
            let idx = self.sites.len();
            proof {
                lemma_indexes_push(self.site_map@, site_ids(self.sites@), s.id);
                assert(site_ids(self.sites@).push(s.id) =~= site_ids(self.sites@.push(s)));
            }
            fx_insert(&mut self.site_map, s.id, idx);
            self.sites.push(s);
            assert(self.sites@ + rest@.reverse() =~= old(self).sites@ + added);
        }
        assert(self.sites@ =~= old(self).sites@ + added);
    }

    /// Get the number of sites.
    pub fn num_sites(&self) -> (n: usize)
        ensures
            n == self@.len(),
    {
        self.sites.len()
    }

    /// Fetch a site from the list using its ID.
    pub fn get_site(&self, id: &Id) -> (r: Result<&Site, SimulationError>)
        requires
            self.wf(),
        ensures
            match r {
                Ok(s) => lookup_site(self@, *id) == Some(*s),
                Err(e) => {
                    &&& lookup_site(self@, *id) is None
                    &&& e matches SimulationError::InvalidSiteId(s) && s@ == uuid_text(*id)
                },
            },
    {
        match fx_get(&self.site_map, id) {
            Some(i) => {
                proof {
                    let j = choose|j: int| is_last_index(site_ids(self.sites@), *id, j);
                    lemma_last_index_unique(site_ids(self.sites@), *id, i as int, j);
                }
                Ok(&self.sites[i])
            },
            None => {
                proof {
                    lemma_indexes_finds(self.site_map@, site_ids(self.sites@), *id);
                    if exists|j: int| is_last_index(site_ids(self.sites@), *id, j) {
                        let j = choose|j: int| is_last_index(site_ids(self.sites@), *id, j);
                        assert(site_ids(self.sites@)[j] == *id);
                    }
                }
                Err(SimulationError::InvalidSiteId(id_to_string(*id)))
            },
        }
    }
}

} // verus!
