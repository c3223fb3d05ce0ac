//! Starting and stopping the charging of a vehicle at a charger.

use crate::containers::EventQueue;
use crate::ev::Vehicle;
use crate::evse::charger::{unplug_event, Charger};
use crate::session::{plugged_session, Session};
use vstd::prelude::*;

verus! {

/// Start charging a vehicle that arrived no later than `now`, whose
/// charging takes `charge_duration_s` and which then stays plugged in, idle,
/// for `idle_duration_s` (both rounded up to whole seconds).
/// Marks the charger busy, records the session and schedules the unplug.
pub fn start_charging(
    now: u64,
    vehicle: &Vehicle,
    charger: &mut Charger,
    charge_duration_s: u64,
    idle_duration_s: u64,
    event_queue: &mut EventQueue,
    sessions: &mut Vec<Session>,
)
    requires
        vehicle.arrival_time <= now,
        now + charge_duration_s + idle_duration_s <= u64::MAX,
    ensures
        *final(charger) == (Charger { is_busy: true, ..*old(charger) }),
        final(event_queue)@ == old(event_queue)@.push(
            unplug_event(
                (now + charge_duration_s + idle_duration_s) as u64,
                vehicle.id,
                old(charger).id,
            ),
        ),
        final(sessions)@ == old(sessions)@.push(
            plugged_session(
                now,
                Some((now + charge_duration_s + idle_duration_s) as u64),
                *vehicle,
                *old(charger),
            ),
        ),
        final(sessions)@.last().wait_duration_s == now - vehicle.arrival_time,
        final(sessions)@.last().vehicle == vehicle.name,
        final(sessions)@.last().vehicle_id == vehicle.id,
        final(sessions)@.last().charger == Some(old(charger).name),
        final(sessions)@.last().charger_id == Some(old(charger).id),
        final(sessions)@.last().arrival_time == vehicle.arrival_time,
        final(sessions)@.last().plugin_time == Some(now),
        final(sessions)@.last().unplug_time == Some((now + charge_duration_s + idle_duration_s) as u64),
{
    charger.start_charging_discrete(
        now,
        vehicle,
        charge_duration_s,
        idle_duration_s,
        event_queue,
        sessions,
    );
}

/// Stop charging a vehicle: the charger is free again.
pub fn end_charging(now: u64, charger: &mut Charger)
    ensures
        *final(charger) == (Charger { is_busy: false, ..*old(charger) }),
{
    charger.end_charging(now);
}

} // verus!
