//! EV chargers.

use crate::containers::EventQueue;
use crate::ev::Vehicle;
use crate::events::{Event, EventType};
use crate::evse::ConnectorType;
use crate::ids::Id;
use crate::session::{plugged_session, Session};
use vstd::prelude::*;

verus! {

/// The status of an EV charger when a vehicle is connected.
#[derive(Debug, Clone, Copy, PartialEq, Eq, Structural)]
pub enum ChargerStatus {
    Charging,
    Idle,
}

/// An EV charger.
///
/// Holds what the queueing and the bookkeeping of the simulation read: the
/// power, current and voltage ratings, which only the charging computation
/// reads, are kept beside it by the program that computes the charging.
#[derive(Debug)]
pub struct Charger {
    pub id: Id,
    pub name: String,
    /// The connectors of the charger, in the order in which they are offered.
    pub connectors: Vec<ConnectorType>,
    pub is_busy: bool,
}

/// The first connector of `charger` (in its order) that `vehicle` also has.
pub open spec fn shared_connector(charger: Seq<ConnectorType>, vehicle: Seq<ConnectorType>) -> Option<
    ConnectorType,
>
    decreases charger.len(),
{
    if charger.len() == 0 {
        None
    } else if vehicle.contains(charger[0]) {
        Some(charger[0])
    } else {
        shared_connector(charger.drop_first(), vehicle)
    }
}

/// The connector that a charger and a vehicle share is one that both have,
/// the first of the charger's in its order that the vehicle has; there is
/// none exactly when they have no connector in common.
pub proof fn lemma_shared_connector(charger: Seq<ConnectorType>, vehicle: Seq<ConnectorType>)
    ensures
        shared_connector(charger, vehicle) is None <==> forall|i: int|
            0 <= i < charger.len() ==> !vehicle.contains(#[trigger] charger[i]),
        shared_connector(charger, vehicle) matches Some(c) ==> exists|i: int|
            0 <= i < charger.len() && charger[i] == c && vehicle.contains(c) && forall|j: int|
                0 <= j < i ==> !vehicle.contains(#[trigger] charger[j]),
    decreases charger.len(),
{
    if charger.len() > 0 && !vehicle.contains(charger[0]) {
        let rest = charger.drop_first();
        lemma_shared_connector(rest, vehicle);
        assert forall|i: int| 1 <= i < charger.len() implies charger[i] == rest[i - 1] by {}
        if shared_connector(rest, vehicle) is None {
            assert forall|i: int| 0 <= i < charger.len() implies !vehicle.contains(#[trigger] charger[i]) by {
                if i > 0 {
                    assert(charger[i] == rest[i - 1]);
                }
            }
        } else {
            let c = shared_connector(rest, vehicle)->0;
            let i = choose|i: int|
                0 <= i < rest.len() && rest[i] == c && vehicle.contains(c) && forall|j: int|
                    0 <= j < i ==> !vehicle.contains(#[trigger] rest[j]);
            assert(charger[i + 1] == c);
            assert forall|j: int| 0 <= j < i + 1 implies !vehicle.contains(#[trigger] charger[j]) by {
                if j > 0 {
                    assert(charger[j] == rest[j - 1]);
                }
            }
            assert(!vehicle.contains(charger[i + 1]) ==> false);
        }
    } else if charger.len() > 0 {
        assert(charger[0] == charger[0]);
    }
}

/// A charger and a vehicle are compatible when they share a connector.
pub open spec fn compatible(charger: Charger, vehicle: Vehicle) -> bool {
    shared_connector(charger.connectors@, vehicle.connectors@) is Some
}

/// A charger and a vehicle are compatible exactly when some connector of
/// the charger is also one of the vehicle's; in particular a charger with a
/// single connector is compatible with every vehicle that has it.
pub proof fn lemma_compatible_iff_shared(charger: Charger, vehicle: Vehicle)
    ensures
        compatible(charger, vehicle) <==> exists|i: int|
            0 <= i < charger.connectors@.len() && vehicle.connectors@.contains(#[trigger] charger.connectors@[i]),
{
    lemma_shared_connector(charger.connectors@, vehicle.connectors@);
}

/// The unplug event of a vehicle that leaves `charger_id` at `time`.
pub open spec fn unplug_event(time: u64, vehicle_id: Id, charger_id: Id) -> Event {
    Event { time, event_type: EventType::Unplug, vehicle_id, charger_id: Some(charger_id) }
}

fn has_connector(connectors: &Vec<ConnectorType>, c: ConnectorType) -> (r: bool)
    ensures
        r == connectors@.contains(c),
{
    let mut i: usize = 0;
    while i < connectors.len()
        invariant
            0 <= i <= connectors@.len(),
            forall|j: int| 0 <= j < i ==> connectors@[j] != c,
        decreases connectors@.len() - i,
    {
        if connectors[i] == c {
            return true;
        }
        i = i + 1;
    }
    false
}

impl Charger {
    /// A new, free charger with a fresh random ID.
    pub fn new(name: &str, connectors: Vec<ConnectorType>) -> (c: Charger)
        ensures
            c.name@ == name@,
            c.connectors == connectors,
            !c.is_busy,
            (c.id >> 76u128) & 15u128 == 4u128,
            (c.id >> 62u128) & 3u128 == 2u128,
    {
        Charger { id: crate::ids::new_id(), name: name.to_owned(), connectors, is_busy: false }
    }

    /// The connector through which this charger can charge a vehicle with
    /// `vehicle_connectors`: the first of the charger's connectors that the
    /// vehicle also has, or `None` where they share none.
    pub fn resolve_connector(&self, vehicle_connectors: &Vec<ConnectorType>) -> (r: Option<
        ConnectorType,
    >)
        ensures
            r == shared_connector(self.connectors@, vehicle_connectors@),
            r is None <==> forall|i: int|
                0 <= i < self.connectors@.len() ==> !vehicle_connectors@.contains(#[trigger] self.connectors@[i]),
            r matches Some(c) ==> exists|i: int|
                0 <= i < self.connectors@.len() && self.connectors@[i] == c && vehicle_connectors@.contains(c)
                    && forall|j: int| 0 <= j < i ==> !vehicle_connectors@.contains(#[trigger] self.connectors@[j]),
    {
        proof {
            lemma_shared_connector(self.connectors@, vehicle_connectors@);
        }
        let mut i: usize = 0;
        assert(self.connectors@.subrange(0, self.connectors@.len() as int) =~= self.connectors@);
        while i < self.connectors.len()
            invariant
                0 <= i <= self.connectors@.len(),
                shared_connector(self.connectors@, vehicle_connectors@) == shared_connector(
                    self.connectors@.subrange(i as int, self.connectors@.len() as int),
                    vehicle_connectors@,
                ),
            decreases self.connectors@.len() - i,
        {
            let ghost rest = self.connectors@.subrange(i as int, self.connectors@.len() as int);
            assert(rest.drop_first() =~= self.connectors@.subrange(
                i + 1,
                self.connectors@.len() as int,
            ));
            if has_connector(vehicle_connectors, self.connectors[i]) {
                proof {
                    lemma_shared_connector(self.connectors@, vehicle_connectors@);
                    assert(shared_connector(self.connectors@, vehicle_connectors@) == Some(self.connectors@[i as int]));
                }
                return Some(self.connectors[i]);
            }
            i = i + 1;
        }
        assert(self.connectors@.subrange(i as int, self.connectors@.len() as int).len() == 0);
        None
    }

    /// Start charging a vehicle whose charging takes `charge_duration_s`
    /// and which then stays plugged in, idle, for `idle_duration_s`
    /// (both rounded up to whole seconds).
    /// Marks the charger busy, schedules the matching `Unplug` event and
    /// records a charging `Session`.
    pub fn start_charging_discrete(
        &mut self,
        now: u64,
        vehicle: &Vehicle,
        charge_duration_s: u64,
        idle_duration_s: u64,
        event_queue: &mut EventQueue,
        sessions: &mut Vec<Session>,
    )
        requires
            now + charge_duration_s + idle_duration_s <= u64::MAX,
        ensures
            *final(self) == (Charger { is_busy: true, ..*old(self) }),
            final(event_queue)@ == old(event_queue)@.push(
                unplug_event(
                    (now + charge_duration_s + idle_duration_s) as u64,
                    vehicle.id,
                    old(self).id,
                ),
            ),
            final(sessions)@ == old(sessions)@.push(
                plugged_session(
                    now,
                    Some((now + charge_duration_s + idle_duration_s) as u64),
                    *vehicle,
                    *old(self),
                ),
            ),
            final(sessions)@.last().vehicle == vehicle.name,
            final(sessions)@.last().vehicle_id == vehicle.id,
            final(sessions)@.last().charger == Some(old(self).name),
            final(sessions)@.last().charger_id == Some(old(self).id),
            final(sessions)@.last().plugin_time == Some(now),
            final(sessions)@.last().unplug_time == Some((now + charge_duration_s + idle_duration_s) as u64),
    {
        let unplug_time = now + charge_duration_s + idle_duration_s;
        self.is_busy = true;
        sessions.push(Session::charged(now, unplug_time, vehicle, self));
        event_queue.push(
            Event {
                time: unplug_time,
                event_type: EventType::Unplug,
                vehicle_id: vehicle.id,
                charger_id: Some(self.id),
            },
        );
    }

    /// Start charging a vehicle.
    /// Marks the charger busy, starts a charging `Session`, and returns the
    /// position of that session in `sessions`.
    pub fn start_charging_timestep(&mut self, now: u64, vehicle: &Vehicle, sessions: &mut Vec<Session>) -> (idx: usize)
        ensures
            *final(self) == (Charger { is_busy: true, ..*old(self) }),
            idx == old(sessions)@.len(),
            final(sessions)@ == old(sessions)@.push(plugged_session(now, None, *vehicle, *old(self))),
            final(sessions)@.last().vehicle == vehicle.name,
            final(sessions)@.last().vehicle_id == vehicle.id,
            final(sessions)@.last().charger == Some(old(self).name),
            final(sessions)@.last().charger_id == Some(old(self).id),
            final(sessions)@.last().plugin_time == Some(now),
            final(sessions)@.last().unplug_time is None,
    {
        self.is_busy = true;
        sessions.push(Session::started(now, vehicle, self));
        sessions.len() - 1
    }

    /// Stop charging a vehicle.
    /// Marks the charger free to use.
    pub fn end_charging(&mut self, now: u64)
        ensures
            *final(self) == (Charger { is_busy: false, ..*old(self) }),
    {
        self.is_busy = false;
    }
}

} // verus!
