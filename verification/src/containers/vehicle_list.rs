//! The list of vehicles of a simulation, indexed by vehicle ID.

use crate::errors::SimulationError;
use crate::ev::Vehicle;
use crate::events::{Event, EventType};
use crate::containers::EventQueue;
use crate::id_index::{indexes, is_last_index, lemma_indexes_finds, lemma_indexes_push, lemma_last_index_unique};
use crate::ids::{id_to_string, uuid_text, Id};
use std::collections::HashMap;
use vstd::prelude::*;

verus! {

/// The IDs of a list of vehicles, in order.
pub open spec fn vehicle_ids(vehicles: Seq<Vehicle>) -> Seq<Id> {
    Seq::new(vehicles.len(), |i: int| vehicles[i].id)
}

/// The vehicle that a lookup of `id` finds in `vehicles`: the last one with
/// that ID, if any.
pub open spec fn lookup(vehicles: Seq<Vehicle>, id: Id) -> Option<Vehicle> {
    if exists|j: int| is_last_index(vehicle_ids(vehicles), id, j) {
        Some(vehicles[choose|j: int| is_last_index(vehicle_ids(vehicles), id, j)])
    } else {
        None
    }
}

/// The arrival and renege events of a list of vehicles: for each vehicle in
/// turn, its arrival at its arrival time and its renege once its longest
/// wait has passed.
pub open spec fn arrival_events(vehicles: Seq<Vehicle>) -> Seq<Event>
    decreases vehicles.len(),
{
    if vehicles.len() == 0 {
        Seq::empty()
    } else {
        let v = vehicles.last();
        arrival_events(vehicles.drop_last()).push(
            Event {
                time: v.arrival_time,
                event_type: EventType::Arrival,
                vehicle_id: v.id,
                charger_id: None,
            },
        ).push(
            Event {
                time: (v.arrival_time + v.max_wait_s) as u64,
                event_type: EventType::Renege,
                vehicle_id: v.id,
                charger_id: None,
            },
        )
    }
}

/// The arrival and renege events of a list of vehicles include no unplug.
pub proof fn lemma_arrival_events_no_unplug(vehicles: Seq<Vehicle>)
    ensures
        forall|i: int| 0 <= i < arrival_events(vehicles).len() ==> #[trigger] arrival_events(vehicles)[i].event_type != EventType::Unplug,
    decreases vehicles.len(),
{
    if vehicles.len() > 0 {
        lemma_arrival_events_no_unplug(vehicles.drop_last());
    }
}

/// Every vehicle gives up waiting at a time that fits in `u64`.
pub open spec fn renege_times_fit(vehicles: Seq<Vehicle>) -> bool {
    forall|i: int| 0 <= i < vehicles.len() ==> #[trigger] vehicles[i].arrival_time + vehicles[i].max_wait_s <= u64::MAX
}

/// A list of vehicles including a mapping of vehicle ID to vehicle objects.
#[derive(Debug)]
pub struct VehicleList {
    vehicles: Vec<Vehicle>,
    vehicle_map: HashMap<Id, usize>,
}

impl View for VehicleList {
    type V = Seq<Vehicle>;

    /// The vehicles, in the order in which they were added.
    closed spec fn view(&self) -> Seq<Vehicle> {
        self.vehicles@
    }
}

/// A lookup in a well-formed list finds the vehicle that `lookup` names.
proof fn lemma_lookup_at(vehicles: Seq<Vehicle>, id: Id, i: int)
    requires
        is_last_index(vehicle_ids(vehicles), id, i),
    ensures
        lookup(vehicles, id) == Some(vehicles[i]),
{
    let j = choose|j: int| is_last_index(vehicle_ids(vehicles), id, j);
    lemma_last_index_unique(vehicle_ids(vehicles), id, i, j);
}

impl VehicleList {
    /// The map from vehicle ID to position is an index of the vehicles.
    pub closed spec fn wf(&self) -> bool {
        indexes(self.vehicle_map@, vehicle_ids(self.vehicles@))
    }

    /// `self` maps IDs to positions as `other` does.
    pub closed spec fn same_index(&self, other: Self) -> bool {
        self.vehicle_map@ == other.vehicle_map@
    }

    /// Create a new list of vehicles.
    pub fn new(vehicles: Vec<Vehicle>) -> (l: Self)
        ensures
            l.wf(),
            l@ == vehicles@,
    {
        let mut l = VehicleList { vehicles: Vec::new(), vehicle_map: HashMap::new() };
        assert(vehicle_ids(l.vehicles@) =~= Seq::<Id>::empty());
        l.extend(vehicles);
        l
    }

    /// Append vehicles to the list.
    pub fn extend(&mut self, vehicles: Vec<Vehicle>)
        requires
            old(self).wf(),
        ensures
            final(self).wf(),
            final(self)@ == old(self)@ + vehicles@,
    {
        let mut vehicles = vehicles;
        let ghost added = vehicles@;
        let mut rest: Vec<Vehicle> = Vec::new();
        // Take the vehicles from the back and keep them in order.
        while vehicles.len() > 0
            invariant
                vehicles@ + rest@.reverse() == added,
            decreases vehicles@.len(),
        {
            let v = vehicles.pop().unwrap();
            rest.push(v);
            assert(vehicles@ + rest@.reverse() =~= added);
        }
        while rest.len() > 0
            invariant
                self.wf(),
                self.vehicles@ + rest@.reverse() == old(self).vehicles@ + added,
            decreases rest@.len(),
        {
            let v = rest.pop().unwrap();
            let idx = self.vehicles.len();
            proof {
                lemma_indexes_push(self.vehicle_map@, vehicle_ids(self.vehicles@), v.id);
                assert(vehicle_ids(self.vehicles@).push(v.id) =~= vehicle_ids(self.vehicles@.push(v)));
            }
            self.vehicle_map.insert(v.id, idx);
            self.vehicles.push(v);
            assert(self.vehicles@ + rest@.reverse() =~= old(self).vehicles@ + added);
        }
        assert(self.vehicles@ =~= old(self).vehicles@ + added);
    }

    /// Get the number of vehicles in the list.
    pub fn num_vehicles(&self) -> (n: usize)
        ensures
            n == self@.len(),
    {
        self.vehicles.len()
    }

    /// Position of the vehicle with ID `id`.
    fn vehicle_index(&self, id: &Id) -> (r: Result<usize, SimulationError>)
        requires
            self.wf(),
        ensures
            match r {
                Ok(i) => is_last_index(vehicle_ids(self@), *id, i as int) && lookup(self@, *id) == Some(self@[i as int]),
                Err(e) => {
                    &&& lookup(self@, *id) is None
                    &&& e matches SimulationError::InvalidVehicleId(s) && s@ == uuid_text(*id)
                },
            },
    {
        match self.vehicle_map.get(id) {
            Some(i) => {
                proof {
                    lemma_lookup_at(self.vehicles@, *id, *i as int);
                }
                Ok(*i)
            },
            None => {
                proof {
                    lemma_indexes_finds(self.vehicle_map@, vehicle_ids(self.vehicles@), *id);
                    if exists|j: int| is_last_index(vehicle_ids(self.vehicles@), *id, j) {
                        let j = choose|j: int| is_last_index(vehicle_ids(self.vehicles@), *id, j);
                        assert(vehicle_ids(self.vehicles@)[j] == *id);
                    }
                }
                Err(SimulationError::InvalidVehicleId(id_to_string(*id)))
            },
        }
    }

    /// Fetch a vehicle from the list using its ID.
    pub fn get_vehicle(&self, id: &Id) -> (r: Result<&Vehicle, SimulationError>)
        requires
            self.wf(),
        ensures
            match r {
                Ok(v) => lookup(self@, *id) == Some(*v),
                Err(e) => {
                    &&& lookup(self@, *id) is None
                    &&& e matches SimulationError::InvalidVehicleId(s) && s@ == uuid_text(*id)
                },
            },
    {
        let i = self.vehicle_index(id)?;
        Ok(&self.vehicles[i])
    }

    /// Fetch a mutable vehicle from the list using its ID.
    /// The list stays well formed if the vehicle keeps its ID.
    pub fn get_vehicle_mut(&mut self, id: &Id) -> (r: Result<&mut Vehicle, SimulationError>)
        requires
            old(self).wf(),
        ensures
            match r {
                Ok(v) => exists|i: int| {
                    &&& is_last_index(vehicle_ids(old(self)@), *id, i)
                    &&& lookup(old(self)@, *id) == Some(*v)
                    &&& final(self)@ == old(self)@.update(i, *final(v))
                    &&& final(self).same_index(*old(self))
                },
                Err(e) => {
                    &&& lookup(old(self)@, *id) is None
                    &&& e matches SimulationError::InvalidVehicleId(s) && s@ == uuid_text(*id)
                    &&& *final(self) == *old(self)
                },
            },
    {
        let i = self.vehicle_index(id)?;
        Ok(&mut self.vehicles[i])
    }

    /// Generate a list of arrival events from the vehicle list.
    pub fn generate_arrival_events(&self) -> (q: EventQueue)
        requires
            renege_times_fit(self@),
        ensures
            q@ == arrival_events(self@),
    {
        let mut events = EventQueue::new();
        let mut i: usize = 0;
        while i < self.vehicles.len()
            invariant
                0 <= i <= self.vehicles@.len(),
                renege_times_fit(self.vehicles@),
                events@ == arrival_events(self.vehicles@.subrange(0, i as int)),
            decreases self.vehicles@.len() - i,
        {
            let vehicle = &self.vehicles[i];
            assert(self.vehicles@.subrange(0, i + 1).drop_last() =~= self.vehicles@.subrange(0, i as int));
            assert(vehicle.arrival_time + vehicle.max_wait_s <= u64::MAX);
            events.push(
                Event {
                    time: vehicle.arrival_time,
                    event_type: EventType::Arrival,
                    vehicle_id: vehicle.id,
                    charger_id: None,
                },
            );
            events.push(
                Event {
                    time: vehicle.arrival_time + vehicle.max_wait_s,
                    event_type: EventType::Renege,
                    vehicle_id: vehicle.id,
                    charger_id: None,
                },
            );
            i = i + 1;
        }
        assert(self.vehicles@.subrange(0, i as int) =~= self.vehicles@);
        events
    }
}

/// Changing a vehicle in place keeps the list well formed as long as the
/// vehicle keeps its ID.
pub proof fn lemma_wf_after_update(a: VehicleList, b: VehicleList, i: int, v: Vehicle)
    requires
        a.wf(),
        b.same_index(a),
        0 <= i < a@.len(),
        b@ == a@.update(i, v),
        v.id == a@[i].id,
    ensures
        b.wf(),
{
    assert(vehicle_ids(b@) =~= vehicle_ids(a@));
}

} // verus!
