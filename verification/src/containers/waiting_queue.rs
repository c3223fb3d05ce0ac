//! FIFO queue of vehicles waiting for a charger.

use crate::containers::vehicle_list::lookup;
use crate::containers::VehicleList;
use crate::ev::Vehicle;
use crate::evse::charger::{compatible, Charger};
use crate::ids::Id;
use std::collections::VecDeque;
use vstd::prelude::*;

verus! {

/// `i` is the first position of `q` that holds `id`.
pub open spec fn is_first_index(q: Seq<Id>, id: Id, i: int) -> bool {
    &&& 0 <= i < q.len()
    &&& q[i] == id
    &&& forall|j: int| 0 <= j < i ==> q[j] != id
}

/// The vehicle with ID `id` is in `vehicles` and can charge at `charger`.
pub open spec fn accepts(vehicles: Seq<Vehicle>, charger: Charger, id: Id) -> bool {
    lookup(vehicles, id) matches Some(v) && compatible(charger, v)
}

/// `i` is the first position of `q` whose vehicle can charge at `charger`.
pub open spec fn is_first_accepted(q: Seq<Id>, vehicles: Seq<Vehicle>, charger: Charger, i: int) -> bool {
    &&& 0 <= i < q.len()
    &&& accepts(vehicles, charger, q[i])
    &&& forall|j: int| 0 <= j < i ==> !accepts(vehicles, charger, #[trigger] q[j])
}

/// FIFO queue of vehicle IDs waiting for a compatible charger to free up.
#[derive(Debug)]
pub struct WaitingQueue(VecDeque<Id>);

impl View for WaitingQueue {
    type V = Seq<Id>;

    /// The waiting vehicles, the one that came first first.
    closed spec fn view(&self) -> Seq<Id> {
        self.0@
    }
}

impl WaitingQueue {
    /// Create a new, empty waiting queue.
    pub fn new() -> (q: Self)
        ensures
            q@ == Seq::<Id>::empty(),
    {
        WaitingQueue(VecDeque::new())
    }

    /// Get the number of vehicles currently waiting.
    pub fn len(&self) -> (n: usize)
        ensures
            n == self@.len(),
    {
        self.0.len()
    }

    /// Check whether the queue is empty.
    pub fn is_empty(&self) -> (b: bool)
        ensures
            b == (self@.len() == 0),
    {
        self.0.len() == 0
    }

    /// Add a vehicle to the back of the queue.
    pub fn push_back(&mut self, id: Id)
        ensures
            final(self)@ == old(self)@.push(id),
    {
        self.0.push_back(id);
    }

    /// Remove and return the vehicle at the front of the queue, if any.
    pub fn pop_front(&mut self) -> (r: Option<Id>)
        ensures
            match r {
                None => old(self)@.len() == 0 && final(self)@ == old(self)@,
                Some(id) => old(self)@.len() > 0 && id == old(self)@[0] && final(self)@
                    == old(self)@.drop_first(),
            },
    {
        let r = self.0.pop_front();
        proof {
            if r.is_some() {
                assert(old(self)@.subrange(1, old(self)@.len() as int) =~= old(self)@.drop_first());
            }
        }
        r
    }

    /// Remove a vehicle from the queue by ID, wherever it is in the queue.
    /// Returns `true` if the vehicle was queued and has been removed.
    pub fn remove(&mut self, id: &Id) -> (r: bool)
        ensures
            r == old(self)@.contains(*id),
            r ==> exists|i: int| is_first_index(old(self)@, *id, i) && final(self)@ == old(self)@.remove(i),
            !r ==> final(self)@ == old(self)@,
    {
        let mut i: usize = 0;
        while i < self.0.len()
            invariant
                0 <= i <= self.0@.len(),
                self.0@ == old(self)@,
                forall|j: int| 0 <= j < i ==> self.0@[j] != *id,
            decreases self.0@.len() - i,
        {
            if self.0[i] == *id {
                let ghost before = self.0@;
                let removed = self.0.remove(i);
                assert(is_first_index(before, *id, i as int));
                return true;
            }
            i = i + 1;
        }
        assert(!old(self)@.contains(*id)) by {
            if old(self)@.contains(*id) {
                let k = choose|k: int| 0 <= k < old(self)@.len() && old(self)@[k] == *id;
                assert(self.0@[k] != *id);
            }
        }
        false
    }

    /// Remove and return the first queued vehicle whose connectors are
    /// compatible with `charger`. Returns `None` if no queued vehicle matches
    /// (a queued ID that is not in `vehicles` never matches).
    pub fn pop_compatible(&mut self, vehicles: &VehicleList, charger: &Charger) -> (r: Option<Id>)
        requires
            vehicles.wf(),
        ensures
            match r {
                None => {
                    &&& forall|j: int| 0 <= j < old(self)@.len() ==> !accepts(vehicles@, *charger, #[trigger] old(self)@[j])
                    &&& final(self)@ == old(self)@
                },
                Some(id) => exists|i: int| {
                    &&& is_first_accepted(old(self)@, vehicles@, *charger, i)
                    &&& id == old(self)@[i]
                    &&& final(self)@ == old(self)@.remove(i)
                },
            },
            r matches Some(id) ==> (lookup(vehicles@, id) matches Some(v) && exists|k: int|
                0 <= k < charger.connectors@.len() && v.connectors@.contains(#[trigger] charger.connectors@[k])),
            r is None ==> forall|j: int, k: int|
                0 <= j < old(self)@.len() && 0 <= k < charger.connectors@.len() && lookup(
                    vehicles@,
                    #[trigger] old(self)@[j],
                ) is Some ==> !lookup(vehicles@, old(self)@[j])->0.connectors@.contains(
                    #[trigger] charger.connectors@[k],
                ),
    {
        let mut i: usize = 0;
        while i < self.0.len()
            invariant
                0 <= i <= self.0@.len(),
                self.0@ == old(self)@,
                vehicles.wf(),
                forall|j: int| 0 <= j < i ==> !accepts(vehicles@, *charger, #[trigger] self.0@[j]),
            decreases self.0@.len() - i,
        {
            let id = self.0[i];
            let ok = match vehicles.get_vehicle(&id) {
                Ok(v) => charger.resolve_connector(&v.connectors).is_some(),
                Err(_) => false,
            };
            if ok {
                let ghost before = self.0@;
                let removed = self.0.remove(i);
                assert(is_first_accepted(before, vehicles@, *charger, i as int));
                proof {
                    lemma_accepts_iff_shared(vehicles@, *charger, id);
                }
                return Some(id);
            }
            i = i + 1;
        }
        proof {
            assert forall|j: int, k: int|
                0 <= j < old(self)@.len() && 0 <= k < charger.connectors@.len() && lookup(
                    vehicles@,
                    #[trigger] old(self)@[j],
                ) is Some implies !lookup(vehicles@, old(self)@[j])->0.connectors@.contains(
                #[trigger] charger.connectors@[k],
            ) by {
                lemma_accepts_iff_shared(vehicles@, *charger, old(self)@[j]);
            }
        }
        None
    }
}

/// A queue that holds a vehicle holds it at a first position.
pub proof fn lemma_first_index_exists(q: Seq<Id>, id: Id)
    requires
        q.contains(id),
    ensures
        exists|i: int| is_first_index(q, id, i),
    decreases q.len(),
{
    if q[0] == id {
        assert(is_first_index(q, id, 0));
    } else {
        let k = choose|k: int| 0 <= k < q.len() && q[k] == id;
        assert(q.drop_first()[k - 1] == id);
        lemma_first_index_exists(q.drop_first(), id);
        let i = choose|i: int| is_first_index(q.drop_first(), id, i);
        assert forall|j: int| 0 <= j < i + 1 implies q[j] != id by {
            if j > 0 {
                assert(q[j] == q.drop_first()[j - 1]);
            }
        }
        assert(is_first_index(q, id, i + 1));
    }
}

/// A queued vehicle can charge at a charger exactly when it is one of the
/// vehicles and one of the charger's connectors is also one of its own.
pub proof fn lemma_accepts_iff_shared(vehicles: Seq<Vehicle>, charger: Charger, id: Id)
    ensures
        accepts(vehicles, charger, id) <==> (lookup(vehicles, id) matches Some(v) && exists|k: int|
            0 <= k < charger.connectors@.len() && v.connectors@.contains(#[trigger] charger.connectors@[k])),
{
    if lookup(vehicles, id) is Some {
        crate::evse::charger::lemma_compatible_iff_shared(charger, lookup(vehicles, id)->0);
    }
}

} // verus!
