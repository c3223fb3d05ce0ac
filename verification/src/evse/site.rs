//! EV charging sites.

use crate::errors::SimulationError;
use crate::evse::Charger;
use crate::id_index::{fx_get, fx_insert, indexes, is_last_index};
use crate::ids::{id_to_string, new_id, uuid_text, Id};
use rustc_hash::FxHashMap;
use vstd::prelude::*;

verus! {

/// The IDs of a list of chargers, in order.
pub open spec fn charger_ids(chargers: Seq<Charger>) -> Seq<Id> {
    Seq::new(chargers.len(), |i: int| chargers[i].id)
}

/// The number of busy chargers in a list.
pub open spec fn busy_count(chargers: Seq<Charger>) -> nat
    decreases chargers.len(),
{
    if chargers.len() == 0 {
        0
    } else {
        busy_count(chargers.drop_last()) + if chargers.last().is_busy {
            1nat
        } else {
            0nat
        }
    }
}

/// `i` is the first free charger of `chargers`.
pub open spec fn is_first_free(chargers: Seq<Charger>, i: int) -> bool {
    &&& 0 <= i < chargers.len()
    &&& !chargers[i].is_busy
    &&& forall|j: int| 0 <= j < i ==> #[trigger] chargers[j].is_busy
}

/// The first free charger of `chargers`, if any.
pub open spec fn first_free(chargers: Seq<Charger>) -> Option<int> {
    if exists|i: int| is_first_free(chargers, i) {
        Some(choose|i: int| is_first_free(chargers, i))
    } else {
        None
    }
}

/// The position that a lookup of charger `id` finds: the last charger with
/// that ID, if any.
pub open spec fn charger_position(chargers: Seq<Charger>, id: Id) -> Option<int> {
    if exists|j: int| is_last_index(charger_ids(chargers), id, j) {
        Some(choose|j: int| is_last_index(charger_ids(chargers), id, j))
    } else {
        None
    }
}

/// An EV charging site.
///
/// Its total power limit, a floating-point figure, is kept beside it by the
/// program that computes the charging.
#[derive(Debug)]
pub struct Site {
    pub id: Id,
    pub name: String,
    pub chargers: Vec<Charger>,
    /// The position in `chargers` of the (last) charger with each ID.
    pub charger_map: FxHashMap<Id, usize>,
}

impl Site {
    /// The map from charger ID to position is an index of the chargers.
    pub open spec fn wf(&self) -> bool {
        indexes(self.charger_map@, charger_ids(self.chargers@))
    }

    /// Create a new EV charging site from a list of chargers.
    pub fn new(name: &str, chargers: Vec<Charger>) -> (s: Self)
        ensures
            s.wf(),
            s.name@ == name@,
            s.chargers@ == chargers@,
            (s.id >> 76u128) & 15u128 == 4u128,
            (s.id >> 62u128) & 3u128 == 2u128,
    {
        let mut charger_map: FxHashMap<Id, usize> = FxHashMap::default();
        let mut i: usize = 0;
        while i < chargers.len()
            invariant
                0 <= i <= chargers@.len(),
                indexes(charger_map@, charger_ids(chargers@).subrange(0, i as int)),
            decreases chargers@.len() - i,
        {
            proof {
                crate::id_index::lemma_indexes_push(
                    charger_map@,
                    charger_ids(chargers@).subrange(0, i as int),
                    chargers@[i as int].id,
                );
                assert(charger_ids(chargers@).subrange(0, i as int).push(chargers@[i as int].id)
                    =~= charger_ids(chargers@).subrange(0, i + 1));
            }
            fx_insert(&mut charger_map, chargers[i].id, i);
            i = i + 1;
        }
        assert(charger_ids(chargers@).subrange(0, i as int) =~= charger_ids(chargers@));
        Site { id: new_id(), name: name.to_owned(), chargers, charger_map }
    }

    /// Get the number of chargers on site.
    pub fn num_chargers(&self) -> (n: usize)
        ensures
            n == self.chargers@.len(),
    {
        self.chargers.len()
    }

    /// Get the number of occupied chargers on site.
    pub fn num_occupied(&self) -> (n: usize)
        ensures
            n == busy_count(self.chargers@),
    {
        let mut n: usize = 0;
        let mut i: usize = 0;
        while i < self.chargers.len()
            invariant
                0 <= i <= self.chargers@.len(),
                n == busy_count(self.chargers@.subrange(0, i as int)),
                n <= i,
            decreases self.chargers@.len() - i,
        {
            assert(self.chargers@.subrange(0, i + 1).drop_last() =~= self.chargers@.subrange(
                0,
                i as int,
            ));
            if self.chargers[i].is_busy {
                n = n + 1;
            }
            i = i + 1;
        }
        assert(self.chargers@.subrange(0, i as int) =~= self.chargers@);
        n
    }

    /// The position of the first unoccupied charger, if any.
    pub fn first_unoccupied(&self) -> (r: Option<usize>)
        ensures
            match r {
                None => forall|j: int| 0 <= j < self.chargers@.len() ==> #[trigger] self.chargers@[j].is_busy,
                Some(i) => is_first_free(self.chargers@, i as int),
            },
    {
        let mut i: usize = 0;
        while i < self.chargers.len()
            invariant
                0 <= i <= self.chargers@.len(),
                forall|j: int| 0 <= j < i ==> #[trigger] self.chargers@[j].is_busy,
            decreases self.chargers@.len() - i,
        {
            if !self.chargers[i].is_busy {
                return Some(i);
            }
            i = i + 1;
        }
        None
    }

    /// The position of the first unoccupied charger, as `first_free` names it.
    pub fn first_free_index(&self) -> (r: Option<usize>)
        ensures
            match r {
                None => first_free(self.chargers@) is None,
                Some(i) => first_free(self.chargers@) == Some(i as int),
            },
    {
        let r = self.first_unoccupied();
        proof {
            match r {
                None => {
                    if exists|i: int| is_first_free(self.chargers@, i) {
                        let i = choose|i: int| is_first_free(self.chargers@, i);
                        assert(self.chargers@[i].is_busy);
                    }
                },
                Some(i) => {
                    let j = choose|j: int| is_first_free(self.chargers@, j);
                    lemma_first_free_unique(self.chargers@, i as int, j);
                },
            }
        }
        r
    }

    /// Get the first unoccupied charger.
    /// Returns None if all chargers are occupied.
    pub fn get_unoccupied_charger(&self) -> (r: Option<&Charger>)
        ensures
            match r {
                None => forall|j: int| 0 <= j < self.chargers@.len() ==> #[trigger] self.chargers@[j].is_busy,
                Some(c) => exists|i: int| is_first_free(self.chargers@, i) && *c == self.chargers@[i],
            },
    {
        match self.first_unoccupied() {
            None => None,
            Some(i) => Some(&self.chargers[i]),
        }
    }

    /// Get the first unoccupied charger as mutable.
    /// Returns None if all chargers are occupied.
    pub fn get_unoccupied_charger_mut(&mut self) -> (r: Option<&mut Charger>)
        ensures
            match r {
                None => {
                    &&& forall|j: int| 0 <= j < old(self).chargers@.len() ==> #[trigger] old(self).chargers@[j].is_busy
                    &&& *final(self) == *old(self)
                },
                Some(c) => exists|i: int| {
                    &&& is_first_free(old(self).chargers@, i)
                    &&& *c == old(self).chargers@[i]
                    &&& final(self).chargers@ == old(self).chargers@.update(i, *final(c))
                    &&& final(self).id == old(self).id
                    &&& final(self).name == old(self).name
                    &&& final(self).charger_map == old(self).charger_map
                },
            },
    {
        match self.first_unoccupied() {
            None => None,
            Some(i) => Some(&mut self.chargers[i]),
        }
    }

    /// The position of the charger with ID `id`.
    pub fn charger_index(&self, id: &Id) -> (r: Result<usize, SimulationError>)
        requires
            self.wf(),
        ensures
            match r {
                Ok(i) => is_last_index(charger_ids(self.chargers@), *id, i as int),
                Err(e) => {
                    &&& forall|j: int| 0 <= j < self.chargers@.len() ==> #[trigger] self.chargers@[j].id != *id
                    &&& e matches SimulationError::InvalidChargerId(s) && s@ == uuid_text(*id)
                },
            },
    {
        match fx_get(&self.charger_map, id) {
            Some(i) => Ok(i),
            None => {
                proof {
                    crate::id_index::lemma_indexes_finds(
                        self.charger_map@,
                        charger_ids(self.chargers@),
                        *id,
                    );
                    assert forall|j: int| 0 <= j < self.chargers@.len() implies #[trigger] self.chargers@[j].id != *id by {
                        assert(charger_ids(self.chargers@)[j] == self.chargers@[j].id);
                    }
                }
                Err(SimulationError::InvalidChargerId(id_to_string(*id)))
            },
        }
    }

    /// The position of the charger with ID `id`, as `charger_position`
    /// names it.
    pub fn charger_position_of(&self, id: &Id) -> (r: Result<usize, SimulationError>)
        requires
            self.wf(),
        ensures
            match r {
                Ok(i) => charger_position(self.chargers@, *id) == Some(i as int),
                Err(e) => {
                    &&& charger_position(self.chargers@, *id) is None
                    &&& e matches SimulationError::InvalidChargerId(s) && s@ == uuid_text(*id)
                },
            },
    {
        let r = self.charger_index(id);
        proof {
            match r {
                Ok(i) => {
                    let j = choose|j: int| is_last_index(charger_ids(self.chargers@), *id, j);
                    crate::id_index::lemma_last_index_unique(charger_ids(self.chargers@), *id, i as int, j);
                },
                Err(_) => {
                    if exists|j: int| is_last_index(charger_ids(self.chargers@), *id, j) {
                        let j = choose|j: int| is_last_index(charger_ids(self.chargers@), *id, j);
                        assert(charger_ids(self.chargers@)[j] == self.chargers@[j].id);
                    }
                },
            }
        }
        r
    }

    /// Get a charger from the site using its ID.
    pub fn get_charger(&self, id: &Id) -> (r: Result<&Charger, SimulationError>)
        requires
            self.wf(),
        ensures
            match r {
                Ok(c) => exists|i: int| is_last_index(charger_ids(self.chargers@), *id, i) && *c == self.chargers@[i],
                Err(e) => {
                    &&& forall|j: int| 0 <= j < self.chargers@.len() ==> #[trigger] self.chargers@[j].id != *id
                    &&& e matches SimulationError::InvalidChargerId(s) && s@ == uuid_text(*id)
                },
            },
    {
        let i = self.charger_index(id)?;
        Ok(&self.chargers[i])
    }

    /// Get a mutable charger from the site using its ID.
    pub fn get_charger_mut(&mut self, id: &Id) -> (r: Result<&mut Charger, SimulationError>)
        requires
            old(self).wf(),
        ensures
            match r {
                Ok(c) => exists|i: int| {
                    &&& is_last_index(charger_ids(old(self).chargers@), *id, i)
                    &&& *c == old(self).chargers@[i]
                    &&& final(self).chargers@ == old(self).chargers@.update(i, *final(c))
                    &&& final(self).id == old(self).id
                    &&& final(self).name == old(self).name
                    &&& final(self).charger_map == old(self).charger_map
                },
                Err(e) => {
                    &&& forall|j: int| 0 <= j < old(self).chargers@.len() ==> #[trigger] old(self).chargers@[j].id != *id
                    &&& e matches SimulationError::InvalidChargerId(s) && s@ == uuid_text(*id)
                    &&& *final(self) == *old(self)
                },
            },
    {
        let i = self.charger_index(id)?;
        Ok(&mut self.chargers[i])
    }
}

/// A list with a free charger has a first free charger.
pub proof fn lemma_free_has_first_free(chargers: Seq<Charger>, i: int)
    requires
        0 <= i < chargers.len(),
        !chargers[i].is_busy,
    ensures
        first_free(chargers) is Some,
    decreases i,
{
    if forall|j: int| 0 <= j < i ==> #[trigger] chargers[j].is_busy {
        assert(is_first_free(chargers, i));
    } else {
        let j = choose|j: int| 0 <= j < i && !#[trigger] chargers[j].is_busy;
        lemma_free_has_first_free(chargers, j);
    }
}

/// No charger is counted busy beyond the number of chargers, and the count
/// falls short of it exactly when some charger is free.
pub proof fn lemma_busy_count_bounds(chargers: Seq<Charger>)
    ensures
        busy_count(chargers) <= chargers.len(),
        busy_count(chargers) < chargers.len() <==> exists|i: int| 0 <= i < chargers.len() && !#[trigger] chargers[i].is_busy,
    decreases chargers.len(),
{
    if chargers.len() > 0 {
        let init = chargers.drop_last();
        lemma_busy_count_bounds(init);
        if exists|i: int| 0 <= i < init.len() && !#[trigger] init[i].is_busy {
            let i = choose|i: int| 0 <= i < init.len() && !#[trigger] init[i].is_busy;
            assert(!chargers[i].is_busy);
        }
        if exists|i: int| 0 <= i < chargers.len() && !#[trigger] chargers[i].is_busy {
            let i = choose|i: int| 0 <= i < chargers.len() && !#[trigger] chargers[i].is_busy;
            if i < init.len() {
                assert(!init[i].is_busy);
            }
        }
    }
}

/// A site has an unoccupied charger exactly when fewer of its chargers are
/// occupied than it has: `get_unoccupied_charger` finds one exactly when
/// `num_occupied() < num_chargers()`.
pub proof fn lemma_unoccupied_iff_not_full(chargers: Seq<Charger>)
    ensures
        first_free(chargers) is Some <==> busy_count(chargers) < chargers.len(),
{
    lemma_busy_count_bounds(chargers);
    if busy_count(chargers) < chargers.len() {
        let i = choose|i: int| 0 <= i < chargers.len() && !#[trigger] chargers[i].is_busy;
        lemma_free_has_first_free(chargers, i);
    }
    if first_free(chargers) is Some {
        let i = first_free(chargers)->0;
        assert(is_first_free(chargers, i));
        assert(!chargers[i].is_busy);
    }
}

/// A list has at most one first free charger.
pub proof fn lemma_first_free_unique(chargers: Seq<Charger>, i: int, j: int)
    requires
        is_first_free(chargers, i),
        is_first_free(chargers, j),
    ensures
        i == j,
{
    if i < j {
        assert(chargers[i].is_busy);
    } else if j < i {
        assert(chargers[j].is_busy);
    }
}

/// Changing chargers in place keeps a site well formed as long as each
/// charger keeps its ID.
pub proof fn lemma_site_wf_same_ids(a: Site, b: Site)
    requires
        a.wf(),
        b.charger_map@ == a.charger_map@,
        b.chargers@.len() == a.chargers@.len(),
        forall|j: int| 0 <= j < a.chargers@.len() ==> #[trigger] b.chargers@[j].id == a.chargers@[j].id,
    ensures
        b.wf(),
{
    assert(charger_ids(b.chargers@) =~= charger_ids(a.chargers@));
}

} // verus!
