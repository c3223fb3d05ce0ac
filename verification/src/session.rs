//! Charging session records.

use crate::errors::SimulationError;
use crate::ev::Vehicle;
use crate::evse::Charger;
use crate::ids::Id;
use vstd::prelude::*;

verus! {

/// Charging session data.
/// Reneged sessions (vehicle left the waiting queue before being charged) and
/// balked sessions (vehicle never joined the queue because it was too long)
/// have the charger and charging data fields as `None`.
///
/// The energy, power and state-of-charge figures of a session are computed
/// in floating point beside the simulation and kept with the session's
/// position in the list of sessions.
#[derive(Debug)]
pub struct Session {
    pub vehicle: String,
    pub vehicle_id: Id,
    pub charge_profile_id: Id,
    pub charger: Option<String>,
    pub charger_id: Option<Id>,
    pub arrival_time: u64,
    pub plugin_time: Option<u64>,
    pub unplug_time: Option<u64>,
    pub wait_duration_s: u64,
    pub reneged: bool,
    pub balked: bool,
}

/// The time waited from `arrival` to `now` (none if `now` is earlier).
pub open spec fn waited(now: u64, arrival: u64) -> u64 {
    if arrival <= now {
        (now - arrival) as u64
    } else {
        0
    }
}

/// The session of a vehicle that was plugged in at `now`, and unplugged at
/// `unplug_time` where that is known.
pub open spec fn plugged_session(now: u64, unplug_time: Option<u64>, v: Vehicle, c: Charger) -> Session {
    Session {
        vehicle: v.name,
        vehicle_id: v.id,
        charge_profile_id: v.charge_profile_id,
        charger: Some(c.name),
        charger_id: Some(c.id),
        arrival_time: v.arrival_time,
        plugin_time: Some(now),
        unplug_time,
        wait_duration_s: waited(now, v.arrival_time),
        reneged: false,
        balked: false,
    }
}

/// The session of a vehicle that never charged: it balked on arrival, or it
/// reneged at `now`.
pub open spec fn unserved_session(now: u64, v: Vehicle, reneged: bool) -> Session {
    Session {
        vehicle: v.name,
        vehicle_id: v.id,
        charge_profile_id: v.charge_profile_id,
        charger: None,
        charger_id: None,
        arrival_time: v.arrival_time,
        plugin_time: None,
        unplug_time: None,
        wait_duration_s: if reneged {
            waited(now, v.arrival_time)
        } else {
            0
        },
        reneged,
        balked: !reneged,
    }
}

fn wait_time(now: u64, arrival: u64) -> (w: u64)
    ensures
        w == waited(now, arrival),
{
    if arrival <= now {
        now - arrival
    } else {
        0
    }
}

impl Session {
    /// A session whose vehicle was plugged in at `now` and unplugged at
    /// `unplug_time`.
    pub fn charged(now: u64, unplug_time: u64, vehicle: &Vehicle, charger: &Charger) -> (s: Session)
        ensures
            s == plugged_session(now, Some(unplug_time), *vehicle, *charger),
            s.vehicle == vehicle.name && s.vehicle_id == vehicle.id,
            s.charger == Some(charger.name) && s.charger_id == Some(charger.id),
            s.arrival_time == vehicle.arrival_time && s.plugin_time == Some(now) && s.unplug_time == Some(unplug_time),
    {
        Session {
            vehicle: vehicle.name.clone(),
            vehicle_id: vehicle.id,
            charge_profile_id: vehicle.charge_profile_id,
            charger: Some(charger.name.clone()),
            charger_id: Some(charger.id),
            arrival_time: vehicle.arrival_time,
            plugin_time: Some(now),
            unplug_time: Some(unplug_time),
            wait_duration_s: wait_time(now, vehicle.arrival_time),
            reneged: false,
            balked: false,
        }
    }

    /// A session whose vehicle was plugged in at `now` and is still charging.
    pub fn started(now: u64, vehicle: &Vehicle, charger: &Charger) -> (s: Session)
        ensures
            s == plugged_session(now, None, *vehicle, *charger),
            s.vehicle == vehicle.name && s.vehicle_id == vehicle.id,
            s.charger == Some(charger.name) && s.charger_id == Some(charger.id),
            s.arrival_time == vehicle.arrival_time && s.plugin_time == Some(now) && s.unplug_time is None,
    {
        Session {
            vehicle: vehicle.name.clone(),
            vehicle_id: vehicle.id,
            charge_profile_id: vehicle.charge_profile_id,
            charger: Some(charger.name.clone()),
            charger_id: Some(charger.id),
            arrival_time: vehicle.arrival_time,
            plugin_time: Some(now),
            unplug_time: None,
            wait_duration_s: wait_time(now, vehicle.arrival_time),
            reneged: false,
            balked: false,
        }
    }

    /// A session whose vehicle balked: it found the queue too long on
    /// arrival and left without waiting.
    pub fn balked(vehicle: &Vehicle) -> (s: Session)
        ensures
            s == unserved_session(0, *vehicle, false),
            s.vehicle == vehicle.name && s.vehicle_id == vehicle.id && s.charger is None && s.charger_id is None,
            s.balked && !s.reneged && s.plugin_time is None && s.wait_duration_s == 0,
    {
        Session {
            vehicle: vehicle.name.clone(),
            vehicle_id: vehicle.id,
            charge_profile_id: vehicle.charge_profile_id,
            charger: None,
            charger_id: None,
            arrival_time: vehicle.arrival_time,
            plugin_time: None,
            unplug_time: None,
            wait_duration_s: 0,
            reneged: false,
            balked: true,
        }
    }

    /// A session whose vehicle reneged: it left the queue at `now` without
    /// being charged.
    pub fn reneged(now: u64, vehicle: &Vehicle) -> (s: Session)
        ensures
            s == unserved_session(now, *vehicle, true),
            s.vehicle == vehicle.name && s.vehicle_id == vehicle.id && s.charger is None && s.charger_id is None,
            s.reneged && !s.balked && s.plugin_time is None,
    {
        Session {
            vehicle: vehicle.name.clone(),
            vehicle_id: vehicle.id,
            charge_profile_id: vehicle.charge_profile_id,
            charger: None,
            charger_id: None,
            arrival_time: vehicle.arrival_time,
            plugin_time: None,
            unplug_time: None,
            wait_duration_s: wait_time(now, vehicle.arrival_time),
            reneged: true,
            balked: false,
        }
    }

    /// Close a started session: the vehicle was unplugged at `now`.
    /// Fails, leaving the session as it was, if the session never started.
    pub fn finalize(&mut self, now: u64) -> (r: Result<(), SimulationError>)
        ensures
            old(self).plugin_time.is_some() ==> r is Ok && *final(self) == (Session {
                unplug_time: Some(now),
                ..*old(self)
            }),
            old(self).plugin_time.is_none() ==> (r matches Err(SimulationError::MissingSessionPluginTime))
                && *final(self) == *old(self),
    {
        if self.plugin_time.is_none() {
            return Err(SimulationError::MissingSessionPluginTime);
        }
        self.unplug_time = Some(now);
        Ok(())
    }
}

/// The session recorded when a vehicle is plugged in at a charger is that
/// vehicle's, under its own name, and names the charger only as its
/// charger; it waited from the vehicle's arrival to the plug-in.
pub proof fn lemma_plugged_session_fields(now: u64, unplug_time: Option<u64>, v: Vehicle, c: Charger)
    ensures
        plugged_session(now, unplug_time, v, c).vehicle == v.name,
        plugged_session(now, unplug_time, v, c).vehicle_id == v.id,
        plugged_session(now, unplug_time, v, c).charge_profile_id == v.charge_profile_id,
        plugged_session(now, unplug_time, v, c).charger == Some(c.name),
        plugged_session(now, unplug_time, v, c).charger_id == Some(c.id),
        plugged_session(now, unplug_time, v, c).arrival_time == v.arrival_time,
        plugged_session(now, unplug_time, v, c).plugin_time == Some(now),
        plugged_session(now, unplug_time, v, c).unplug_time == unplug_time,
        v.arrival_time <= now ==> plugged_session(now, unplug_time, v, c).wait_duration_s == now - v.arrival_time,
        !plugged_session(now, unplug_time, v, c).balked && !plugged_session(now, unplug_time, v, c).reneged,
{
}

/// The session of a vehicle that never charged is that vehicle's, under its
/// own name, with no charger; a balked one waited not at all, a reneged one
/// from arrival to the renege.
pub proof fn lemma_unserved_session_fields(now: u64, v: Vehicle, reneged: bool)
    ensures
        unserved_session(now, v, reneged).vehicle == v.name,
        unserved_session(now, v, reneged).vehicle_id == v.id,
        unserved_session(now, v, reneged).charger is None,
        unserved_session(now, v, reneged).charger_id is None,
        unserved_session(now, v, reneged).plugin_time is None,
        unserved_session(now, v, reneged).unplug_time is None,
        unserved_session(now, v, reneged).reneged == reneged,
        unserved_session(now, v, reneged).balked == !reneged,
        !reneged ==> unserved_session(now, v, reneged).wait_duration_s == 0,
        reneged && v.arrival_time <= now ==> unserved_session(now, v, reneged).wait_duration_s == now - v.arrival_time,
{
}

} // verus!
