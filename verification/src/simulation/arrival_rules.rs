//! What an arriving vehicle does, in either simulation: it takes the first
//! free charger; if every charger is busy it joins the waiting queue when
//! the queue holds fewer vehicles than its longest queue, and otherwise it
//! balks. The vehicles at the chargers never count toward the queue. Also
//! what a renege and an unplug do.

use crate::containers::vehicle_list::lookup;
use crate::errors::SimulationError;
use crate::events::{Event, EventType};
use crate::evse::site::is_first_free;
use crate::simulation::accounting::lemma_lookup_id;
use crate::simulation::timestep::{timestep_arrival_step, StartedSession};
use crate::simulation::{event_step, renege_step, ChargeStart, Simulation};
use crate::evse::site::charger_position;
use crate::containers::waiting_queue::lemma_first_index_exists;
use vstd::prelude::*;

verus! {

/// In the discrete-event simulation, a known vehicle that arrives when
/// every charger is busy starts nowhere: it joins the back of the queue if
/// the queue holds fewer than its `max_queue_length` vehicles, whatever the
/// number of chargers, and otherwise balks, leaving the queue as it was and
/// recording a balked session of its own that waited not at all.
pub proof fn lemma_arrival_when_all_busy(
    s: Simulation,
    e: Event,
    t: Simulation,
    r: Result<Option<ChargeStart>, SimulationError>,
)
    requires
        event_step(s, e, t, r),
        e.event_type == EventType::Arrival,
        lookup(s.vehicle_list@, e.vehicle_id) is Some,
        forall|j: int| 0 <= j < s.site.chargers@.len() ==> (#[trigger] s.site.chargers@[j]).is_busy,
    ensures
        r == Ok::<Option<ChargeStart>, SimulationError>(None),
        t.site == s.site,
        t.event_queue == s.event_queue,
        t.vehicle_list == s.vehicle_list,
        s.waiting_queue@.len() < lookup(s.vehicle_list@, e.vehicle_id)->0.max_queue_length ==> {
            &&& t.waiting_queue@ == s.waiting_queue@.push(e.vehicle_id)
            &&& t.sessions@ == s.sessions@
        },
        s.waiting_queue@.len() >= lookup(s.vehicle_list@, e.vehicle_id)->0.max_queue_length ==> {
            &&& t.waiting_queue@ == s.waiting_queue@
            &&& t.sessions@.len() == s.sessions@.len() + 1
            &&& t.sessions@.subrange(0, s.sessions@.len() as int) == s.sessions@
            &&& t.sessions@.last().balked
            &&& !t.sessions@.last().reneged
            &&& t.sessions@.last().vehicle_id == e.vehicle_id
            &&& t.sessions@.last().plugin_time is None
            &&& t.sessions@.last().wait_duration_s == 0
        },
{
    lemma_lookup_id(s.vehicle_list@, e.vehicle_id);
    assert(!exists|i: int| is_first_free(s.site.chargers@, i));
    if s.waiting_queue@.len() >= lookup(s.vehicle_list@, e.vehicle_id)->0.max_queue_length {
        assert(t.sessions@.subrange(0, s.sessions@.len() as int) =~= s.sessions@);
    }
}

/// In the discrete-event simulation, a known vehicle that arrives when some
/// charger is free starts charging at the first free charger, at its
/// arrival; the queue and the sessions are left as they were.
pub proof fn lemma_arrival_when_free(
    s: Simulation,
    e: Event,
    t: Simulation,
    r: Result<Option<ChargeStart>, SimulationError>,
    k: int,
)
    requires
        event_step(s, e, t, r),
        e.event_type == EventType::Arrival,
        lookup(s.vehicle_list@, e.vehicle_id) is Some,
        0 <= k < s.site.chargers@.len(),
        !s.site.chargers@[k].is_busy,
    ensures
        r matches Ok(Some(c)) && c.vehicle_id == e.vehicle_id && c.time == e.time && exists|i: int|
            0 <= i < s.site.chargers@.len() && !s.site.chargers@[i].is_busy && c.charger_id
                == s.site.chargers@[i].id && forall|j: int| 0 <= j < i ==> (#[trigger] s.site.chargers@[j]).is_busy,
        t.waiting_queue@ == s.waiting_queue@,
        t.sessions@ == s.sessions@,
{
    crate::evse::site::lemma_free_has_first_free(s.site.chargers@, k);
    let i = crate::evse::site::first_free(s.site.chargers@)->0;
    assert(is_first_free(s.site.chargers@, i));
}

/// No arriving vehicle joins a queue that already holds its
/// `max_queue_length` vehicles or more: whenever an arrival changes the
/// queue, the queue was shorter than that and the vehicle joins its back.
pub proof fn lemma_arrival_joins_below_limit(
    s: Simulation,
    e: Event,
    t: Simulation,
    r: Result<Option<ChargeStart>, SimulationError>,
)
    requires
        event_step(s, e, t, r),
        e.event_type == EventType::Arrival,
        t.waiting_queue@ != s.waiting_queue@,
    ensures
        lookup(s.vehicle_list@, e.vehicle_id) matches Some(v) && s.waiting_queue@.len() < v.max_queue_length,
        t.waiting_queue@ == s.waiting_queue@.push(e.vehicle_id),
{
}

/// In the time-step simulation, a known vehicle that arrives when every
/// charger is busy starts nowhere: it joins the back of the queue if the
/// queue holds fewer than its `max_queue_length` vehicles, whatever the
/// number of chargers, and otherwise balks, leaving the queue as it was and
/// recording a balked session of its own that waited not at all.
pub proof fn lemma_timestep_arrival_when_all_busy(
    s: Simulation,
    e: Event,
    t: Simulation,
    r: Result<Option<StartedSession>, SimulationError>,
)
    requires
        timestep_arrival_step(s, e, t, r),
        lookup(s.vehicle_list@, e.vehicle_id) is Some,
        forall|j: int| 0 <= j < s.site.chargers@.len() ==> (#[trigger] s.site.chargers@[j]).is_busy,
    ensures
        r == Ok::<Option<StartedSession>, SimulationError>(None),
        t.site == s.site,
        t.event_queue == s.event_queue,
        t.vehicle_list == s.vehicle_list,
        s.waiting_queue@.len() < lookup(s.vehicle_list@, e.vehicle_id)->0.max_queue_length ==> {
            &&& t.waiting_queue@ == s.waiting_queue@.push(e.vehicle_id)
            &&& t.sessions@ == s.sessions@
        },
        s.waiting_queue@.len() >= lookup(s.vehicle_list@, e.vehicle_id)->0.max_queue_length ==> {
            &&& t.waiting_queue@ == s.waiting_queue@
            &&& t.sessions@.len() == s.sessions@.len() + 1
            &&& t.sessions@.subrange(0, s.sessions@.len() as int) == s.sessions@
            &&& t.sessions@.last().balked
            &&& !t.sessions@.last().reneged
            &&& t.sessions@.last().vehicle_id == e.vehicle_id
            &&& t.sessions@.last().plugin_time is None
            &&& t.sessions@.last().wait_duration_s == 0
        },
{
    lemma_lookup_id(s.vehicle_list@, e.vehicle_id);
    assert(!exists|i: int| is_first_free(s.site.chargers@, i));
    if s.waiting_queue@.len() >= lookup(s.vehicle_list@, e.vehicle_id)->0.max_queue_length {
        assert(t.sessions@.subrange(0, s.sessions@.len() as int) =~= s.sessions@);
    }
}

/// In the time-step simulation, a known vehicle that arrives when some
/// charger is free is plugged in at once at the first free charger: its
/// session, under its own name and that charger, is recorded as plugged in
/// at its arrival, the charger is marked busy, and the queue is left as it
/// was.
pub proof fn lemma_timestep_arrival_when_free(
    s: Simulation,
    e: Event,
    t: Simulation,
    r: Result<Option<StartedSession>, SimulationError>,
    k: int,
)
    requires
        timestep_arrival_step(s, e, t, r),
        lookup(s.vehicle_list@, e.vehicle_id) is Some,
        0 <= k < s.site.chargers@.len(),
        !s.site.chargers@[k].is_busy,
    ensures
        t.waiting_queue@ == s.waiting_queue@,
        t.sessions@.len() == s.sessions@.len() + 1,
        t.sessions@.subrange(0, s.sessions@.len() as int) == s.sessions@,
        exists|i: int|
            0 <= i < s.site.chargers@.len() && !s.site.chargers@[i].is_busy && (forall|j: int|
                0 <= j < i ==> (#[trigger] s.site.chargers@[j]).is_busy) && {
                &&& r == Ok::<Option<StartedSession>, SimulationError>(
                    Some(
                        StartedSession {
                            charger_id: s.site.chargers@[i].id,
                            vehicle_id: e.vehicle_id,
                            session_idx: s.sessions@.len() as usize,
                        },
                    ),
                )
                &&& t.site.chargers@[i].is_busy
                &&& t.sessions@.last().vehicle == lookup(s.vehicle_list@, e.vehicle_id)->0.name
                &&& t.sessions@.last().vehicle_id == e.vehicle_id
                &&& t.sessions@.last().charger == Some(s.site.chargers@[i].name)
                &&& t.sessions@.last().charger_id == Some(s.site.chargers@[i].id)
                &&& t.sessions@.last().plugin_time == Some(e.time)
                &&& t.sessions@.last().unplug_time is None
            },
{
    lemma_lookup_id(s.vehicle_list@, e.vehicle_id);
    crate::evse::site::lemma_free_has_first_free(s.site.chargers@, k);
    let i = crate::evse::site::first_free(s.site.chargers@)->0;
    assert(is_first_free(s.site.chargers@, i));
    assert(t.sessions@.subrange(0, s.sessions@.len() as int) =~= s.sessions@);
}

/// A vehicle that gives up waiting, in either simulation: if it is in the
/// queue it leaves its first place there, all others keeping their order,
/// and a reneged session of its own is recorded, with no charger and a wait
/// from its arrival to the renege; if it is not in the queue nothing
/// changes. Nothing starts charging.
pub proof fn lemma_renege(
    s: Simulation,
    e: Event,
    t: Simulation,
    r: Result<Option<ChargeStart>, SimulationError>,
)
    requires
        renege_step(s, e, t, r),
        lookup(s.vehicle_list@, e.vehicle_id) is Some,
    ensures
        r == Ok::<Option<ChargeStart>, SimulationError>(None),
        t.site == s.site,
        t.event_queue == s.event_queue,
        t.vehicle_list == s.vehicle_list,
        !s.waiting_queue@.contains(e.vehicle_id) ==> t.waiting_queue@ == s.waiting_queue@ && t.sessions@
            == s.sessions@,
        s.waiting_queue@.contains(e.vehicle_id) ==> {
            &&& exists|i: int|
                0 <= i < s.waiting_queue@.len() && s.waiting_queue@[i] == e.vehicle_id && (forall|j: int|
                    0 <= j < i ==> (#[trigger] s.waiting_queue@[j]) != e.vehicle_id) && t.waiting_queue@
                    == s.waiting_queue@.remove(i)
            &&& t.sessions@.len() == s.sessions@.len() + 1
            &&& t.sessions@.subrange(0, s.sessions@.len() as int) == s.sessions@
            &&& t.sessions@.last().reneged
            &&& !t.sessions@.last().balked
            &&& t.sessions@.last().vehicle_id == e.vehicle_id
            &&& t.sessions@.last().charger_id is None
            &&& t.sessions@.last().plugin_time is None
            &&& lookup(s.vehicle_list@, e.vehicle_id)->0.arrival_time <= e.time ==> t.sessions@.last().wait_duration_s
                == e.time - lookup(s.vehicle_list@, e.vehicle_id)->0.arrival_time
        },
{
    lemma_lookup_id(s.vehicle_list@, e.vehicle_id);
    if s.waiting_queue@.contains(e.vehicle_id) {
        lemma_first_index_exists(s.waiting_queue@, e.vehicle_id);
        assert(t.sessions@.subrange(0, s.sessions@.len() as int) =~= s.sessions@);
    }
}

/// In the discrete-event simulation, an unplug at a charger of the site
/// frees that charger, leaving the others as they were, and hands it to the
/// vehicle at the front of the queue, which leaves the queue and starts
/// there at once; with no vehicle waiting, nothing starts.
pub proof fn lemma_unplug(
    s: Simulation,
    e: Event,
    t: Simulation,
    r: Result<Option<ChargeStart>, SimulationError>,
    cid: crate::ids::Id,
    j: int,
)
    requires
        event_step(s, e, t, r),
        e.event_type == EventType::Unplug,
        e.charger_id == Some(cid),
        charger_position(s.site.chargers@, cid) == Some(j),
    ensures
        t.site.chargers@.len() == s.site.chargers@.len(),
        !t.site.chargers@[j].is_busy,
        t.site.chargers@[j].id == cid,
        forall|i: int| 0 <= i < s.site.chargers@.len() && i != j ==> t.site.chargers@[i] == s.site.chargers@[i],
        t.sessions@ == s.sessions@,
        t.event_queue == s.event_queue,
        s.waiting_queue@.len() == 0 ==> r == Ok::<Option<ChargeStart>, SimulationError>(None) && t.waiting_queue@
            == s.waiting_queue@,
        s.waiting_queue@.len() > 0 ==> t.waiting_queue@ == s.waiting_queue@.drop_first(),
        s.waiting_queue@.len() > 0 && lookup(s.vehicle_list@, s.waiting_queue@[0]) is Some ==> r == Ok::<
            Option<ChargeStart>,
            SimulationError,
        >(Some(ChargeStart { time: e.time, vehicle_id: s.waiting_queue@[0], charger_id: cid })),
{
    assert(crate::evse::site::charger_ids(s.site.chargers@)[j] == cid);
}

} // verus!
