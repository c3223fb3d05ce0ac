//! Accounting for every vehicle of a simulation, discrete-event or
//! time-step: each one is at every step expected, waiting, plugged in or
//! gone; no session records a wait beyond its vehicle's longest (a reneged
//! one records exactly that); once no event is left each vehicle has
//! exactly one session (charged, balked or reneged); and in the
//! discrete-event simulation each busy charger has exactly one pending
//! unplug, so that no charger serves two vehicles at once.

use crate::containers::event_queue::{is_next, pops};
use crate::containers::vehicle_list::{arrival_events, lookup, renege_times_fit, vehicle_ids};
use crate::counting::{count, lemma_count_positive, lemma_count_update, lemma_count_push, lemma_count_remove, lemma_count_witness, lemma_count_zero};
use crate::ev::Vehicle;
use crate::events::{Event, EventType};
use crate::evse::site::{charger_ids, charger_position};
use crate::evse::site::{first_free, lemma_site_wf_same_ids};
use crate::evse::{Charger, Site};
use crate::id_index::is_last_index;
use crate::ids::Id;
use crate::session::Session;
use crate::simulation::timestep::{finish_step, no_start, start_next_step, timestep_arrival_step, StartedSession};
use crate::simulation::{arrival_step, event_step, renege_step, start_step, unplug_step, ChargeStart, Simulation};
use crate::errors::SimulationError;
use vstd::prelude::*;

verus! {

/// Events of type `t` that concern vehicle `x`.
pub open spec fn event_of(t: EventType, x: Id) -> spec_fn(Event) -> bool {
    |e: Event| e.event_type == t && e.vehicle_id == x
}

/// The ID `x`.
pub open spec fn is_id(x: Id) -> spec_fn(Id) -> bool {
    |y: Id| y == x
}

/// Sessions of vehicle `x`.
pub open spec fn session_of(x: Id) -> spec_fn(Session) -> bool {
    |s: Session| s.vehicle_id == x
}

/// The number of pending events of type `t` for vehicle `x`.
pub open spec fn pending(s: Simulation, t: EventType, x: Id) -> nat {
    count(s.event_queue@, event_of(t, x))
}

/// The number of places vehicle `x` holds in the waiting queue.
pub open spec fn places(s: Simulation, x: Id) -> nat {
    count(s.waiting_queue@, is_id(x))
}

/// The number of sessions recorded for vehicle `x`.
pub open spec fn sessions_of(s: Simulation, x: Id) -> nat {
    count(s.sessions@, session_of(x))
}

/// Vehicle `x` is in one of the four stages a vehicle goes through:
/// - expected: its arrival and its renege are pending;
/// - waiting: it holds one place in the queue and its renege is pending;
/// - plugged in: its unplug is pending and its session is recorded;
/// - gone: only its session, and perhaps its (idle) renege, is left.
pub open spec fn accounted(s: Simulation, x: Id) -> bool {
    let na = pending(s, EventType::Arrival, x);
    let nr = pending(s, EventType::Renege, x);
    let nu = pending(s, EventType::Unplug, x);
    let nq = places(s, x);
    let ns = sessions_of(s, x);
    ||| na == 1 && nr == 1 && nu == 0 && nq == 0 && ns == 0
    ||| na == 0 && nr == 1 && nu == 0 && nq == 1 && ns == 0
    ||| na == 0 && nr <= 1 && nu == 1 && nq == 0 && ns == 1
    ||| na == 0 && nr <= 1 && nu == 0 && nq == 0 && ns == 1
}

/// No two vehicles of the list share an ID.
pub open spec fn distinct_ids(vs: Seq<Vehicle>) -> bool {
    forall|i: int, j: int| 0 <= i < j < vs.len() ==> #[trigger] vs[i].id != #[trigger] vs[j].id
}

/// The simulation knows vehicle `x`.
pub open spec fn known(s: Simulation, x: Id) -> bool {
    lookup(s.vehicle_list@, x) is Some
}

/// A vehicle's arrival is pending before, and not later than, its renege.
pub open spec fn arrival_before_renege(q: Seq<Event>) -> bool {
    forall|i: int, k: int|
        #![trigger q[i], q[k]]
        0 <= i < q.len() && 0 <= k < q.len() && q[i].event_type == EventType::Arrival
            && q[k].event_type == EventType::Renege && q[i].vehicle_id == q[k].vehicle_id ==> i < k
            && q[i].time <= q[k].time
}

/// Every event of `q` concerns a vehicle of `vs`.
pub open spec fn events_known(vs: Seq<Vehicle>, q: Seq<Event>) -> bool {
    forall|i: int| 0 <= i < q.len() ==> lookup(vs, (#[trigger] q[i]).vehicle_id) is Some
}

/// Every unplug of `q` names a charger of `cs`.
pub open spec fn unplugs_at(cs: Seq<Charger>, q: Seq<Event>) -> bool {
    forall|i: int|
        0 <= i < q.len() && (#[trigger] q[i]).event_type == EventType::Unplug ==> (q[i].charger_id matches Some(c)
            && charger_position(cs, c) is Some)
}

/// Every arrival of `q` is at its vehicle's arrival time, and every renege
/// once its vehicle's longest wait has passed.
pub open spec fn event_times(vs: Seq<Vehicle>, q: Seq<Event>) -> bool {
    forall|i: int|
        0 <= i < q.len() ==> match lookup(vs, (#[trigger] q[i]).vehicle_id) {
            Some(v) => {
                &&& q[i].event_type == EventType::Arrival ==> q[i].time == v.arrival_time
                &&& q[i].event_type == EventType::Renege ==> q[i].time == v.arrival_time + v.max_wait_s
            },
            None => true,
        }
}

/// Session `a` belongs to a vehicle of `vs` and records a wait no longer
/// than the vehicle's longest wait: exactly that long if it reneged.
pub open spec fn session_fits(vs: Seq<Vehicle>, a: Session) -> bool {
    lookup(vs, a.vehicle_id) matches Some(v) && a.wait_duration_s <= v.max_wait_s && (a.reneged
        ==> a.wait_duration_s == v.max_wait_s)
}

/// The bookkeeping of a simulation is consistent: every event, queue place
/// and session belongs to a known vehicle, every unplug to a charger of the
/// site, every arrival and renege is at its time, no session records a wait
/// beyond its vehicle's longest, and every known vehicle is accounted for.
pub open spec fn consistent(s: Simulation) -> bool {
    &&& s.wf()
    &&& distinct_ids(s.vehicle_list@)
    &&& events_known(s.vehicle_list@, s.event_queue@)
    &&& event_times(s.vehicle_list@, s.event_queue@)
    &&& forall|i: int| 0 <= i < s.waiting_queue@.len() ==> known(s, #[trigger] s.waiting_queue@[i])
    &&& forall|i: int| 0 <= i < s.sessions@.len() ==> session_fits(s.vehicle_list@, #[trigger] s.sessions@[i])
    &&& unplugs_at(s.site.chargers@, s.event_queue@)
    &&& arrival_before_renege(s.event_queue@)
    &&& forall|x: Id| known(s, x) ==> #[trigger] accounted(s, x)
}

/// `p` is `s` with its next event, `e`, taken from the event queue.
pub open spec fn took_next(s: Simulation, e: Event, p: Simulation) -> bool {
    &&& p.site == s.site
    &&& p.vehicle_list == s.vehicle_list
    &&& p.waiting_queue@ == s.waiting_queue@
    &&& p.sessions@ == s.sessions@
    &&& pops(s.event_queue@, e, p.event_queue@)
}

/// The vehicle that a lookup finds has the ID looked up.
pub proof fn lemma_lookup_id(vs: Seq<Vehicle>, x: Id)
    ensures
        lookup(vs, x) matches Some(v) ==> v.id == x,
{
    if exists|j: int| is_last_index(vehicle_ids(vs), x, j) {
        let j = choose|j: int| is_last_index(vehicle_ids(vs), x, j);
        assert(vehicle_ids(vs)[j] == x);
    }
}

/// With distinct IDs, a lookup of a vehicle's ID finds that vehicle.
pub proof fn lemma_lookup_distinct(vs: Seq<Vehicle>, m: int)
    requires
        distinct_ids(vs),
        0 <= m < vs.len(),
    ensures
        lookup(vs, vs[m].id) == Some(vs[m]),
{
    let ids = vehicle_ids(vs);
    assert forall|l: int| m < l < ids.len() implies ids[l] != vs[m].id by {
        assert(vs[m].id != vs[l].id);
    }
    assert(is_last_index(ids, vs[m].id, m));
    let j = choose|j: int| is_last_index(ids, vs[m].id, j);
    if j != m {
        if j < m {
            assert(vs[j].id != vs[m].id);
        } else {
            assert(ids[j] != vs[m].id);
        }
    }
}

/// A known vehicle is one of the list.
pub proof fn lemma_known_in_list(vs: Seq<Vehicle>, x: Id) -> (m: int)
    requires
        lookup(vs, x) is Some,
    ensures
        0 <= m < vs.len(),
        vs[m].id == x,
{
    let j = choose|j: int| is_last_index(vehicle_ids(vs), x, j);
    assert(vehicle_ids(vs)[j] == x);
    j
}

/// The arrival event of vehicle `v`.
spec fn arrival_of(v: Vehicle) -> Event {
    Event { time: v.arrival_time, event_type: EventType::Arrival, vehicle_id: v.id, charger_id: None }
}

/// The renege event of vehicle `v`.
spec fn renege_of(v: Vehicle) -> Event {
    Event {
        time: (v.arrival_time + v.max_wait_s) as u64,
        event_type: EventType::Renege,
        vehicle_id: v.id,
        charger_id: None,
    }
}

/// The arrival and renege events of a list of vehicles, position by
/// position.
proof fn lemma_arrival_events_at(vs: Seq<Vehicle>)
    ensures
        arrival_events(vs).len() == 2 * vs.len(),
        forall|m: int| 0 <= m < vs.len() ==> #[trigger] arrival_events(vs)[2 * m] == arrival_of(vs[m]),
        forall|m: int| 0 <= m < vs.len() ==> #[trigger] arrival_events(vs)[2 * m + 1] == renege_of(vs[m]),
    decreases vs.len(),
{
    if vs.len() > 0 {
        let rest = vs.drop_last();
        lemma_arrival_events_at(rest);
        assert forall|m: int| 0 <= m < vs.len() implies #[trigger] arrival_events(vs)[2 * m] == arrival_of(vs[m]) by {
            if m < vs.len() - 1 {
                assert(rest[m] == vs[m]);
                assert(arrival_events(rest)[2 * m] == arrival_events(vs)[2 * m]);
            }
        }
        assert forall|m: int| 0 <= m < vs.len() implies #[trigger] arrival_events(vs)[2 * m + 1] == renege_of(vs[m]) by {
            if m < vs.len() - 1 {
                assert(rest[m] == vs[m]);
                assert(arrival_events(rest)[2 * m + 1] == arrival_events(vs)[2 * m + 1]);
            }
        }
    }
}

/// The events of type `t` for `x` among the arrival and renege events of a
/// list: one per vehicle with ID `x` for arrivals and reneges, none for
/// unplugs.
proof fn lemma_arrival_events_count(vs: Seq<Vehicle>, t: EventType, x: Id)
    ensures
        count(arrival_events(vs), event_of(t, x)) == if t == EventType::Unplug {
            0
        } else {
            count(vehicle_ids(vs), is_id(x))
        },
    decreases vs.len(),
{
    if vs.len() > 0 {
        let rest = vs.drop_last();
        lemma_arrival_events_count(rest, t, x);
        let v = vs.last();
        let a = arrival_of(v);
        let r = renege_of(v);
        lemma_count_push(arrival_events(rest), a, event_of(t, x));
        lemma_count_push(arrival_events(rest).push(a), r, event_of(t, x));
        assert(vehicle_ids(vs) =~= vehicle_ids(rest).push(v.id));
        lemma_count_push(vehicle_ids(rest), v.id, is_id(x));
    }
}

/// With distinct IDs, each vehicle's ID occurs once among the IDs.
proof fn lemma_distinct_count(vs: Seq<Vehicle>, m: int)
    requires
        distinct_ids(vs),
        0 <= m < vs.len(),
    ensures
        count(vehicle_ids(vs), is_id(vs[m].id)) == 1,
{
    let ids = vehicle_ids(vs);
    lemma_count_remove(ids, m, is_id(vs[m].id));
    assert forall|i: int| 0 <= i < ids.remove(m).len() implies !is_id(vs[m].id)(#[trigger] ids.remove(m)[i]) by {
        if i < m {
            assert(vs[i].id != vs[m].id);
        } else {
            assert(vs[m].id != vs[i + 1].id);
        }
    }
    lemma_count_zero(ids.remove(m), is_id(vs[m].id));
}

/// A new simulation of vehicles with distinct IDs is consistent: each
/// vehicle is expected, with its arrival before its renege.
pub proof fn lemma_consistent_initially(s: Simulation)
    requires
        s.wf(),
        distinct_ids(s.vehicle_list@),
        renege_times_fit(s.vehicle_list@),
        s.event_queue@ == arrival_events(s.vehicle_list@),
        s.waiting_queue@ == Seq::<Id>::empty(),
        s.sessions@ == Seq::<Session>::empty(),
    ensures
        consistent(s),
{
    let vs = s.vehicle_list@;
    let q = s.event_queue@;
    lemma_arrival_events_at(vs);
    assert forall|i: int| 0 <= i < q.len() implies lookup(vs, (#[trigger] q[i]).vehicle_id) is Some by {
        let m = i / 2;
        lemma_lookup_distinct(vs, m);
        if i == 2 * m {
            assert(q[2 * m].vehicle_id == vs[m].id);
        } else {
            assert(q[2 * m + 1].vehicle_id == vs[m].id);
        }
    }
    assert forall|i: int| 0 <= i < q.len() implies match lookup(vs, (#[trigger] q[i]).vehicle_id) {
        Some(v) => {
            &&& q[i].event_type == EventType::Arrival ==> q[i].time == v.arrival_time
            &&& q[i].event_type == EventType::Renege ==> q[i].time == v.arrival_time + v.max_wait_s
        },
        None => true,
    } by {
        let m = i / 2;
        lemma_lookup_distinct(vs, m);
        assert(vs[m].arrival_time + vs[m].max_wait_s <= u64::MAX);
        if i == 2 * m {
            assert(q[2 * m] == arrival_of(vs[m]));
        } else {
            assert(q[2 * m + 1] == renege_of(vs[m]));
        }
    }
    assert forall|i: int| 0 <= i < q.len() && (#[trigger] q[i]).event_type == EventType::Unplug implies (q[i].charger_id matches Some(c) && charger_position(s.site.chargers@, c) is Some) by {
        let m = i / 2;
        if i == 2 * m {
            assert(q[2 * m].event_type == EventType::Arrival);
        } else {
            assert(q[2 * m + 1].event_type == EventType::Renege);
        }
    }
    assert forall|i: int, k: int|
        #![trigger q[i], q[k]]
        0 <= i < q.len() && 0 <= k < q.len() && q[i].event_type == EventType::Arrival
            && q[k].event_type == EventType::Renege && q[i].vehicle_id == q[k].vehicle_id implies i < k
            && q[i].time <= q[k].time by {
        let m = i / 2;
        let n = k / 2;
        if i != 2 * m {
            assert(q[2 * m + 1].event_type == EventType::Renege);
        }
        if k != 2 * n + 1 {
            assert(q[2 * n].event_type == EventType::Arrival);
        }
        assert(q[2 * m].vehicle_id == vs[m].id);
        assert(q[2 * n + 1].vehicle_id == vs[n].id);
        if m < n {
            assert(vs[m].id != vs[n].id);
        } else if n < m {
            assert(vs[n].id != vs[m].id);
        }
        assert(vs[m].arrival_time + vs[m].max_wait_s <= u64::MAX);
    }
    assert forall|x: Id| known(s, x) implies #[trigger] accounted(s, x) by {
        let m = lemma_known_in_list(vs, x);
        lemma_distinct_count(vs, m);
        lemma_arrival_events_count(vs, EventType::Arrival, x);
        lemma_arrival_events_count(vs, EventType::Renege, x);
        lemma_arrival_events_count(vs, EventType::Unplug, x);
    }
}

/// The sessions of `ss` that belong to each vehicle of `vs`, summed over
/// the vehicles.
spec fn sessions_of_all(ss: Seq<Session>, vs: Seq<Vehicle>) -> nat
    decreases vs.len(),
{
    if vs.len() == 0 {
        0
    } else {
        sessions_of_all(ss, vs.drop_last()) + count(ss, session_of(vs.last().id))
    }
}

/// Adding a session adds, to the sum, the number of vehicles it belongs to.
proof fn lemma_sessions_of_all_push(ss: Seq<Session>, a: Session, vs: Seq<Vehicle>)
    ensures
        sessions_of_all(ss.push(a), vs) == sessions_of_all(ss, vs) + count(vehicle_ids(vs), is_id(a.vehicle_id)),
    decreases vs.len(),
{
    if vs.len() > 0 {
        lemma_sessions_of_all_push(ss, a, vs.drop_last());
        lemma_count_push(ss, a, session_of(vs.last().id));
        assert(vehicle_ids(vs) =~= vehicle_ids(vs.drop_last()).push(vs.last().id));
        lemma_count_push(vehicle_ids(vs.drop_last()), vs.last().id, is_id(a.vehicle_id));
    }
}

/// Where every session belongs to one of the vehicles, whose IDs are
/// distinct, the sum counts each session once.
proof fn lemma_sessions_of_all_len(ss: Seq<Session>, vs: Seq<Vehicle>)
    requires
        distinct_ids(vs),
        forall|i: int| 0 <= i < ss.len() ==> exists|m: int| 0 <= m < vs.len() && vs[m].id == (#[trigger] ss[i]).vehicle_id,
    ensures
        sessions_of_all(ss, vs) == ss.len(),
    decreases ss.len(),
{
    if ss.len() == 0 {
        lemma_sessions_of_all_empty(ss, vs);
    } else {
        let init = ss.drop_last();
        let a = ss.last();
        assert forall|i: int| 0 <= i < init.len() implies exists|m: int| 0 <= m < vs.len() && vs[m].id == (#[trigger] init[i]).vehicle_id by {
            assert(init[i] == ss[i]);
        }
        lemma_sessions_of_all_len(init, vs);
        lemma_sessions_of_all_push(init, a, vs);
        assert(init.push(a) =~= ss);
        assert(ss[ss.len() - 1] == a);
        let m = choose|m: int| 0 <= m < vs.len() && vs[m].id == ss[ss.len() - 1].vehicle_id;
        lemma_distinct_count(vs, m);
    }
}

/// No session, no sum.
proof fn lemma_sessions_of_all_empty(ss: Seq<Session>, vs: Seq<Vehicle>)
    requires
        ss.len() == 0,
    ensures
        sessions_of_all(ss, vs) == 0,
    decreases vs.len(),
{
    if vs.len() > 0 {
        lemma_sessions_of_all_empty(ss, vs.drop_last());
    }
}

/// Where each vehicle has one session, the sum is the number of vehicles.
proof fn lemma_sessions_of_all_one_each(ss: Seq<Session>, vs: Seq<Vehicle>)
    requires
        forall|m: int| 0 <= m < vs.len() ==> #[trigger] count(ss, session_of(vs[m].id)) == 1,
    ensures
        sessions_of_all(ss, vs) == vs.len(),
    decreases vs.len(),
{
    if vs.len() > 0 {
        let init = vs.drop_last();
        assert forall|m: int| 0 <= m < init.len() implies #[trigger] count(ss, session_of(init[m].id)) == 1 by {
            assert(init[m] == vs[m]);
        }
        lemma_sessions_of_all_one_each(ss, init);
        assert(count(ss, session_of(vs[vs.len() - 1].id)) == 1);
    }
}

/// Once no event is left, every vehicle of a consistent simulation has
/// exactly one session (it charged, balked or reneged), every session
/// belongs to a vehicle of the list, so that there are as many sessions as
/// vehicles, and no vehicle is left waiting.
pub proof fn lemma_one_session_per_vehicle(s: Simulation)
    requires
        consistent(s),
        s.event_queue@.len() == 0,
    ensures
        forall|m: int| 0 <= m < s.vehicle_list@.len() ==> #[trigger] sessions_of(s, s.vehicle_list@[m].id) == 1,
        forall|i: int| 0 <= i < s.sessions@.len() ==> exists|m: int| 0 <= m < s.vehicle_list@.len()
            && s.vehicle_list@[m].id == (#[trigger] s.sessions@[i]).vehicle_id,
        s.sessions@.len() == s.vehicle_list@.len(),
        s.waiting_queue@.len() == 0,
{
    let vs = s.vehicle_list@;
    assert forall|m: int| 0 <= m < vs.len() implies #[trigger] sessions_of(s, vs[m].id) == 1 by {
        lemma_lookup_distinct(vs, m);
        assert(accounted(s, vs[m].id));
    }
    assert forall|i: int| 0 <= i < s.sessions@.len() implies exists|m: int| 0 <= m < vs.len()
        && vs[m].id == (#[trigger] s.sessions@[i]).vehicle_id by {
        let m = lemma_known_in_list(vs, s.sessions@[i].vehicle_id);
    }
    lemma_sessions_of_all_len(s.sessions@, vs);
    assert forall|m: int| 0 <= m < vs.len() implies #[trigger] count(s.sessions@, session_of(vs[m].id)) == 1 by {
        assert(sessions_of(s, vs[m].id) == 1);
    }
    lemma_sessions_of_all_one_each(s.sessions@, vs);
    if s.waiting_queue@.len() > 0 {
        let x = s.waiting_queue@[0];
        assert(known(s, x));
        assert(accounted(s, x));
        lemma_count_positive(s.waiting_queue@, is_id(x), 0);
    }
}

/// Taking an event out of a queue keeps its events known, its unplugs at
/// chargers and its arrivals before their reneges.
proof fn lemma_remove_keeps(vs: Seq<Vehicle>, cs: Seq<Charger>, q: Seq<Event>, k: int)
    requires
        events_known(vs, q),
        event_times(vs, q),
        unplugs_at(cs, q),
        arrival_before_renege(q),
        0 <= k < q.len(),
    ensures
        events_known(vs, q.remove(k)),
        event_times(vs, q.remove(k)),
        unplugs_at(cs, q.remove(k)),
        arrival_before_renege(q.remove(k)),
{
    let r = q.remove(k);
    assert forall|i: int| 0 <= i < r.len() implies match lookup(vs, (#[trigger] r[i]).vehicle_id) {
        Some(v) => {
            &&& r[i].event_type == EventType::Arrival ==> r[i].time == v.arrival_time
            &&& r[i].event_type == EventType::Renege ==> r[i].time == v.arrival_time + v.max_wait_s
        },
        None => true,
    } by {
        if i < k {
            assert(r[i] == q[i]);
        } else {
            assert(r[i] == q[i + 1]);
        }
    }
    assert forall|i: int| 0 <= i < r.len() implies r[i] == q[if i < k { i } else { i + 1 }] by {}
    assert forall|i: int| 0 <= i < r.len() implies lookup(vs, (#[trigger] r[i]).vehicle_id) is Some by {
        if i < k {
            assert(r[i] == q[i]);
        } else {
            assert(r[i] == q[i + 1]);
        }
    }
    assert forall|i: int| 0 <= i < r.len() && (#[trigger] r[i]).event_type == EventType::Unplug implies (r[i].charger_id matches Some(c)
        && charger_position(cs, c) is Some) by {
        if i < k {
            assert(r[i] == q[i]);
        } else {
            assert(r[i] == q[i + 1]);
        }
    }
    assert forall|i: int, j: int|
        #![trigger r[i], r[j]]
        0 <= i < r.len() && 0 <= j < r.len() && r[i].event_type == EventType::Arrival
            && r[j].event_type == EventType::Renege && r[i].vehicle_id == r[j].vehicle_id implies i < j
            && r[i].time <= r[j].time by {
        let a = if i < k { i } else { i + 1 };
        let b = if j < k { j } else { j + 1 };
        assert(r[i] == q[a]);
        assert(r[j] == q[b]);
    }
}

/// Adding an unplug of a known vehicle at a charger of the site to a queue
/// keeps its events known, its unplugs at chargers and its arrivals before
/// their reneges.
proof fn lemma_push_keeps(vs: Seq<Vehicle>, cs: Seq<Charger>, q: Seq<Event>, u: Event)
    requires
        events_known(vs, q),
        event_times(vs, q),
        unplugs_at(cs, q),
        arrival_before_renege(q),
        u.event_type == EventType::Unplug,
        lookup(vs, u.vehicle_id) is Some,
        u.charger_id matches Some(c) && charger_position(cs, c) is Some,
    ensures
        events_known(vs, q.push(u)),
        event_times(vs, q.push(u)),
        unplugs_at(cs, q.push(u)),
        arrival_before_renege(q.push(u)),
{
    let r = q.push(u);
    assert forall|i: int| 0 <= i < r.len() implies match lookup(vs, (#[trigger] r[i]).vehicle_id) {
        Some(v) => {
            &&& r[i].event_type == EventType::Arrival ==> r[i].time == v.arrival_time
            &&& r[i].event_type == EventType::Renege ==> r[i].time == v.arrival_time + v.max_wait_s
        },
        None => true,
    } by {
        if i < q.len() {
            assert(r[i] == q[i]);
        }
    }
    assert forall|i: int| 0 <= i < r.len() implies lookup(vs, (#[trigger] r[i]).vehicle_id) is Some by {
        if i < q.len() {
            assert(r[i] == q[i]);
        }
    }
    assert forall|i: int| 0 <= i < r.len() && (#[trigger] r[i]).event_type == EventType::Unplug implies (r[i].charger_id matches Some(c)
        && charger_position(cs, c) is Some) by {
        if i < q.len() {
            assert(r[i] == q[i]);
        }
    }
    assert forall|i: int, j: int|
        #![trigger r[i], r[j]]
        0 <= i < r.len() && 0 <= j < r.len() && r[i].event_type == EventType::Arrival
            && r[j].event_type == EventType::Renege && r[i].vehicle_id == r[j].vehicle_id implies i < j
            && r[i].time <= r[j].time by {
        assert(r[i] == q[i]);
        assert(r[j] == q[j]);
    }
}

/// Recording a session that fits keeps every session fitting.
proof fn lemma_push_session_fits(vs: Seq<Vehicle>, ss: Seq<Session>, a: Session)
    requires
        forall|i: int| 0 <= i < ss.len() ==> session_fits(vs, #[trigger] ss[i]),
        session_fits(vs, a),
    ensures
        forall|i: int| 0 <= i < ss.push(a).len() ==> session_fits(vs, #[trigger] ss.push(a)[i]),
{
    assert forall|i: int| 0 <= i < ss.push(a).len() implies session_fits(vs, #[trigger] ss.push(a)[i]) by {
        if i < ss.len() {
            assert(ss.push(a)[i] == ss[i]);
        }
    }
}

/// Chargers that keep their IDs, position by position, are found where
/// they were.
proof fn lemma_same_charger_ids(a: Seq<Charger>, b: Seq<Charger>)
    requires
        a.len() == b.len(),
        forall|j: int| 0 <= j < a.len() ==> #[trigger] b[j].id == a[j].id,
    ensures
        charger_ids(b) == charger_ids(a),
        forall|c: Id| #[trigger] charger_position(b, c) == charger_position(a, c),
{
    assert(charger_ids(b) =~= charger_ids(a));
}

/// Each charger of a well-formed site is found by its ID.
pub proof fn lemma_charger_found(site: Site, i: int)
    requires
        site.wf(),
        0 <= i < site.chargers@.len(),
    ensures
        charger_position(site.chargers@, site.chargers@[i].id) is Some,
{
    let ids = charger_ids(site.chargers@);
    assert(ids[i] == site.chargers@[i].id);
    assert(site.charger_map@.contains_key(ids[i]));
    assert(is_last_index(ids, ids[i], site.charger_map@[ids[i]] as int));
}

/// An arrival keeps a simulation consistent, and neither the arrival nor the
/// charging it starts fails.
proof fn lemma_arrival_keeps(
    s0: Simulation,
    e: Event,
    p: Simulation,
    s1: Simulation,
    r1: Result<Option<ChargeStart>, SimulationError>,
    charge_duration_s: u64,
    idle_duration_s: u64,
    s2: Simulation,
    r2: Result<(), SimulationError>,
)
    requires
        consistent(s0),
        took_next(s0, e, p),
        e.event_type == EventType::Arrival,
        arrival_step(p, e, s1, r1),
        r1 matches Ok(Some(c)) ==> start_step(s1, c, charge_duration_s, idle_duration_s, s2, r2),
        !(r1 matches Ok(Some(_))) ==> s2 == s1,
    ensures
        r1 is Ok,
        r1 matches Ok(Some(_)) ==> r2 is Ok,
        consistent(s2),
{
    let vs = s0.vehicle_list@;
    let q0 = s0.event_queue@;
    let q1 = p.event_queue@;
    let k = choose|k: int| is_next(q0, k) && q0[k] == e && q1 == q0.remove(k);
    let x0 = e.vehicle_id;
    assert(lookup(vs, q0[k].vehicle_id) is Some);
    lemma_lookup_id(vs, x0);
    let v = lookup(vs, x0)->0;
    lemma_remove_keeps(vs, s0.site.chargers@, q0, k);
    match first_free(p.site.chargers@) {
        Some(i) => {
            assert(crate::evse::site::is_first_free(p.site.chargers@, i));
            lemma_charger_found(p.site, i);
            let c = r1->Ok_0->0;
            let j = charger_position(s1.site.chargers@, c.charger_id)->0;
            let unplug = (c.time + charge_duration_s + idle_duration_s) as u64;
            let u = crate::evse::charger::unplug_event(unplug, v.id, c.charger_id);
            let sess = crate::session::plugged_session(c.time, Some(unplug), v, s1.site.chargers@[j]);
            lemma_same_charger_ids(s1.site.chargers@, s2.site.chargers@);
            lemma_site_wf_same_ids(s1.site, s2.site);
            lemma_push_keeps(vs, s2.site.chargers@, q1, u);
            assert forall|x: Id| known(s2, x) implies #[trigger] accounted(s2, x) by {
                assert(known(s0, x));
                assert(accounted(s0, x));
                lemma_count_remove(q0, k, event_of(EventType::Arrival, x));
                lemma_count_remove(q0, k, event_of(EventType::Renege, x));
                lemma_count_remove(q0, k, event_of(EventType::Unplug, x));
                lemma_count_push(q1, u, event_of(EventType::Arrival, x));
                lemma_count_push(q1, u, event_of(EventType::Renege, x));
                lemma_count_push(q1, u, event_of(EventType::Unplug, x));
                lemma_count_push(s0.sessions@, sess, session_of(x));
            }
            assert forall|i: int| 0 <= i < s2.sessions@.len() implies known(s2, (#[trigger] s2.sessions@[i]).vehicle_id) by {
                if i < s0.sessions@.len() {
                    assert(s2.sessions@[i] == s0.sessions@[i]);
                }
            }
        },
        None => {
            let sess = crate::session::unserved_session(e.time, v, false);
            lemma_site_wf_same_ids(s0.site, s2.site);
            if p.waiting_queue@.len() >= v.max_queue_length {
                assert forall|x: Id| known(s2, x) implies #[trigger] accounted(s2, x) by {
                    assert(known(s0, x));
                    assert(accounted(s0, x));
                    lemma_count_remove(q0, k, event_of(EventType::Arrival, x));
                    lemma_count_remove(q0, k, event_of(EventType::Renege, x));
                    lemma_count_remove(q0, k, event_of(EventType::Unplug, x));
                    lemma_count_push(s0.sessions@, sess, session_of(x));
                }
                assert forall|i: int| 0 <= i < s2.sessions@.len() implies known(s2, (#[trigger] s2.sessions@[i]).vehicle_id) by {
                    if i < s0.sessions@.len() {
                        assert(s2.sessions@[i] == s0.sessions@[i]);
                    }
                }
            } else {
                assert forall|x: Id| known(s2, x) implies #[trigger] accounted(s2, x) by {
                    assert(known(s0, x));
                    assert(accounted(s0, x));
                    lemma_count_remove(q0, k, event_of(EventType::Arrival, x));
                    lemma_count_remove(q0, k, event_of(EventType::Renege, x));
                    lemma_count_remove(q0, k, event_of(EventType::Unplug, x));
                    lemma_count_push(s0.waiting_queue@, x0, is_id(x));
                }
                assert forall|i: int| 0 <= i < s2.waiting_queue@.len() implies known(s2, #[trigger] s2.waiting_queue@[i]) by {
                    if i < s0.waiting_queue@.len() {
                        assert(s2.waiting_queue@[i] == s0.waiting_queue@[i]);
                    }
                }
            }
        },
    }
}

/// A renege keeps a simulation consistent and does not fail. A vehicle
/// whose renege comes is never still expected: its arrival came first.
proof fn lemma_renege_keeps(
    s0: Simulation,
    e: Event,
    p: Simulation,
    s1: Simulation,
    r1: Result<Option<ChargeStart>, SimulationError>,
)
    requires
        consistent(s0),
        took_next(s0, e, p),
        e.event_type == EventType::Renege,
        renege_step(p, e, s1, r1),
    ensures
        r1 == Ok::<Option<ChargeStart>, SimulationError>(None),
        consistent(s1),
{
    let vs = s0.vehicle_list@;
    let q0 = s0.event_queue@;
    let q1 = p.event_queue@;
    let w0 = s0.waiting_queue@;
    let k = choose|k: int| is_next(q0, k) && q0[k] == e && q1 == q0.remove(k);
    let x0 = e.vehicle_id;
    assert(lookup(vs, q0[k].vehicle_id) is Some);
    lemma_lookup_id(vs, x0);
    let v = lookup(vs, x0)->0;
    lemma_remove_keeps(vs, s0.site.chargers@, q0, k);
    assert(accounted(s0, x0));
    lemma_count_remove(q0, k, event_of(EventType::Arrival, x0));
    lemma_count_remove(q0, k, event_of(EventType::Renege, x0));
    if pending(s0, EventType::Arrival, x0) > 0 {
        // Its arrival is still pending, before the renege: the renege
        // cannot be next.
        let i = lemma_count_witness(q0, event_of(EventType::Arrival, x0));
        assert(q0[i].event_type == EventType::Arrival && q0[i].vehicle_id == q0[k].vehicle_id);
        assert(i < k && q0[i].time <= q0[k].time);
        assert(q0[k].time < q0[i].time);
    }
    lemma_site_wf_same_ids(s0.site, s1.site);
    if w0.contains(x0) {
        crate::containers::waiting_queue::lemma_first_index_exists(w0, x0);
        let i = choose|i: int| crate::containers::waiting_queue::is_first_index(w0, x0, i);
        let sess = crate::session::unserved_session(e.time, v, true);
        lemma_count_positive(w0, is_id(x0), i);
        assert forall|x: Id| known(s1, x) implies #[trigger] accounted(s1, x) by {
            assert(known(s0, x));
            assert(accounted(s0, x));
            lemma_count_remove(q0, k, event_of(EventType::Arrival, x));
            lemma_count_remove(q0, k, event_of(EventType::Renege, x));
            lemma_count_remove(q0, k, event_of(EventType::Unplug, x));
            lemma_count_remove(w0, i, is_id(x));
            lemma_count_push(s0.sessions@, sess, session_of(x));
        }
        assert forall|j: int| 0 <= j < s1.waiting_queue@.len() implies known(s1, #[trigger] s1.waiting_queue@[j]) by {
            if j < i {
                assert(s1.waiting_queue@[j] == w0[j]);
            } else {
                assert(s1.waiting_queue@[j] == w0[j + 1]);
            }
        }
        assert forall|j: int| 0 <= j < s1.sessions@.len() implies known(s1, (#[trigger] s1.sessions@[j]).vehicle_id) by {
            if j < s0.sessions@.len() {
                assert(s1.sessions@[j] == s0.sessions@[j]);
            }
        }
    } else {
        if places(s0, x0) > 0 {
            let i = lemma_count_witness(w0, is_id(x0));
            assert(w0[i] == x0);
        }
        assert forall|x: Id| known(s1, x) implies #[trigger] accounted(s1, x) by {
            assert(known(s0, x));
            assert(accounted(s0, x));
            lemma_count_remove(q0, k, event_of(EventType::Arrival, x));
            lemma_count_remove(q0, k, event_of(EventType::Renege, x));
            lemma_count_remove(q0, k, event_of(EventType::Unplug, x));
        }
    }
}

/// An unplug keeps a simulation consistent, and neither the unplug nor the
/// charging it lets the next vehicle in the queue start fails.
proof fn lemma_unplug_keeps(
    s0: Simulation,
    e: Event,
    p: Simulation,
    s1: Simulation,
    r1: Result<Option<ChargeStart>, SimulationError>,
    charge_duration_s: u64,
    idle_duration_s: u64,
    s2: Simulation,
    r2: Result<(), SimulationError>,
)
    requires
        consistent(s0),
        took_next(s0, e, p),
        e.event_type == EventType::Unplug,
        unplug_step(p, e, s1, r1),
        r1 matches Ok(Some(c)) ==> start_step(s1, c, charge_duration_s, idle_duration_s, s2, r2),
        !(r1 matches Ok(Some(_))) ==> s2 == s1,
    ensures
        r1 is Ok,
        r1 matches Ok(Some(_)) ==> r2 is Ok,
        consistent(s2),
{
    let vs = s0.vehicle_list@;
    let q0 = s0.event_queue@;
    let q1 = p.event_queue@;
    let w0 = s0.waiting_queue@;
    let k = choose|k: int| is_next(q0, k) && q0[k] == e && q1 == q0.remove(k);
    let x0 = e.vehicle_id;
    assert(lookup(vs, q0[k].vehicle_id) is Some);
    assert(q0[k].event_type == EventType::Unplug);
    let cid = e.charger_id->0;
    lemma_remove_keeps(vs, s0.site.chargers@, q0, k);
    lemma_same_charger_ids(s0.site.chargers@, s1.site.chargers@);
    lemma_site_wf_same_ids(s0.site, s1.site);
    // The vehicle that unplugs was plugged in, so it is not in the queue.
    assert(accounted(s0, x0));
    lemma_count_remove(q0, k, event_of(EventType::Unplug, x0));
    if w0.len() == 0 {
        assert forall|x: Id| known(s2, x) implies #[trigger] accounted(s2, x) by {
            assert(known(s0, x));
            assert(accounted(s0, x));
            lemma_count_remove(q0, k, event_of(EventType::Arrival, x));
            lemma_count_remove(q0, k, event_of(EventType::Renege, x));
            lemma_count_remove(q0, k, event_of(EventType::Unplug, x));
        }
    } else {
        let y = w0[0];
        assert(known(s0, y));
        lemma_lookup_id(vs, y);
        let v = lookup(vs, y)->0;
        let c = r1->Ok_0->0;
        assert(c.vehicle_id == y && c.charger_id == cid);
        let j = charger_position(s1.site.chargers@, cid)->0;
        let unplug = (c.time + charge_duration_s + idle_duration_s) as u64;
        let u = crate::evse::charger::unplug_event(unplug, v.id, cid);
        let sess = crate::session::plugged_session(c.time, Some(unplug), v, s1.site.chargers@[j]);
        lemma_same_charger_ids(s1.site.chargers@, s2.site.chargers@);
        lemma_site_wf_same_ids(s1.site, s2.site);
        lemma_push_keeps(vs, s2.site.chargers@, q1, u);
        assert(w0.drop_first() =~= w0.remove(0));
        lemma_count_positive(w0, is_id(y), 0);
        // The next vehicle still waits, so its renege is pending, not earlier
        // than the unplug: it has waited no longer than its longest wait.
        assert(accounted(s0, y));
        let ir = lemma_count_witness(q0, event_of(EventType::Renege, y));
        assert(q0[k].time <= q0[ir].time);
        assert(session_fits(vs, sess));
        lemma_push_session_fits(vs, s0.sessions@, sess);
        assert forall|x: Id| known(s2, x) implies #[trigger] accounted(s2, x) by {
            assert(known(s0, x));
            assert(accounted(s0, x));
            lemma_count_remove(q0, k, event_of(EventType::Arrival, x));
            lemma_count_remove(q0, k, event_of(EventType::Renege, x));
            lemma_count_remove(q0, k, event_of(EventType::Unplug, x));
            lemma_count_push(q1, u, event_of(EventType::Arrival, x));
            lemma_count_push(q1, u, event_of(EventType::Renege, x));
            lemma_count_push(q1, u, event_of(EventType::Unplug, x));
            lemma_count_remove(w0, 0, is_id(x));
            lemma_count_push(s0.sessions@, sess, session_of(x));
        }
        assert forall|i: int| 0 <= i < s2.waiting_queue@.len() implies known(s2, #[trigger] s2.waiting_queue@[i]) by {
            assert(s2.waiting_queue@[i] == w0[i + 1]);
        }
        assert forall|i: int| 0 <= i < s2.sessions@.len() implies known(s2, (#[trigger] s2.sessions@[i]).vehicle_id) by {
            if i < s0.sessions@.len() {
                assert(s2.sessions@[i] == s0.sessions@[i]);
            }
        }
    }
}

/// Every step of the simulation keeps it consistent: taking the next event
/// from the queue, handling it, and starting the charging it allows. On a
/// consistent simulation neither the handling nor the start fails.
pub proof fn lemma_consistent_step(
    s0: Simulation,
    e: Event,
    p: Simulation,
    s1: Simulation,
    r1: Result<Option<ChargeStart>, SimulationError>,
    charge_duration_s: u64,
    idle_duration_s: u64,
    s2: Simulation,
    r2: Result<(), SimulationError>,
)
    requires
        consistent(s0),
        took_next(s0, e, p),
        event_step(p, e, s1, r1),
        r1 matches Ok(Some(c)) ==> start_step(s1, c, charge_duration_s, idle_duration_s, s2, r2),
        !(r1 matches Ok(Some(_))) ==> s2 == s1,
    ensures
        r1 is Ok,
        r1 matches Ok(Some(_)) ==> r2 is Ok,
        consistent(s2),
{
    match e.event_type {
        EventType::Arrival => lemma_arrival_keeps(s0, e, p, s1, r1, charge_duration_s, idle_duration_s, s2, r2),
        EventType::Renege => lemma_renege_keeps(s0, e, p, s1, r1),
        EventType::Unplug => lemma_unplug_keeps(s0, e, p, s1, r1, charge_duration_s, idle_duration_s, s2, r2),
    }
}

/// In the time-step simulation, taking the next due event (an arrival or a
/// renege) and handling it keeps the simulation consistent, and the
/// handling does not fail. A vehicle that starts charging there has its
/// session recorded at once and no unplug event.
pub proof fn lemma_timestep_event_keeps(
    s0: Simulation,
    e: Event,
    p: Simulation,
    s1: Simulation,
    r: Result<Option<StartedSession>, SimulationError>,
)
    requires
        consistent(s0),
        took_next(s0, e, p),
        e.event_type != EventType::Unplug,
        e.event_type == EventType::Arrival ==> timestep_arrival_step(p, e, s1, r),
        e.event_type == EventType::Renege ==> renege_step(p, e, s1, no_start(r)),
    ensures
        r is Ok,
        consistent(s1),
{
    if e.event_type == EventType::Renege {
        lemma_renege_keeps(s0, e, p, s1, no_start(r));
        return;
    }
    let vs = s0.vehicle_list@;
    let q0 = s0.event_queue@;
    let q1 = p.event_queue@;
    let k = choose|k: int| is_next(q0, k) && q0[k] == e && q1 == q0.remove(k);
    let x0 = e.vehicle_id;
    assert(lookup(vs, q0[k].vehicle_id) is Some);
    lemma_lookup_id(vs, x0);
    let v = lookup(vs, x0)->0;
    lemma_remove_keeps(vs, s0.site.chargers@, q0, k);
    lemma_same_charger_ids(s0.site.chargers@, s1.site.chargers@);
    lemma_site_wf_same_ids(s0.site, s1.site);
    match first_free(p.site.chargers@) {
        Some(i) => {
            let sess = crate::session::plugged_session(e.time, None, v, p.site.chargers@[i]);
            assert forall|x: Id| known(s1, x) implies #[trigger] accounted(s1, x) by {
                assert(known(s0, x));
                assert(accounted(s0, x));
                lemma_count_remove(q0, k, event_of(EventType::Arrival, x));
                lemma_count_remove(q0, k, event_of(EventType::Renege, x));
                lemma_count_remove(q0, k, event_of(EventType::Unplug, x));
                lemma_count_push(s0.sessions@, sess, session_of(x));
            }
            assert forall|i: int| 0 <= i < s1.sessions@.len() implies known(s1, (#[trigger] s1.sessions@[i]).vehicle_id) by {
                if i < s0.sessions@.len() {
                    assert(s1.sessions@[i] == s0.sessions@[i]);
                }
            }
        },
        None => {
            let sess = crate::session::unserved_session(e.time, v, false);
            if p.waiting_queue@.len() >= v.max_queue_length {
                assert forall|x: Id| known(s1, x) implies #[trigger] accounted(s1, x) by {
                    assert(known(s0, x));
                    assert(accounted(s0, x));
                    lemma_count_remove(q0, k, event_of(EventType::Arrival, x));
                    lemma_count_remove(q0, k, event_of(EventType::Renege, x));
                    lemma_count_remove(q0, k, event_of(EventType::Unplug, x));
                    lemma_count_push(s0.sessions@, sess, session_of(x));
                }
                assert forall|i: int| 0 <= i < s1.sessions@.len() implies known(s1, (#[trigger] s1.sessions@[i]).vehicle_id) by {
                    if i < s0.sessions@.len() {
                        assert(s1.sessions@[i] == s0.sessions@[i]);
                    }
                }
            } else {
                assert forall|x: Id| known(s1, x) implies #[trigger] accounted(s1, x) by {
                    assert(known(s0, x));
                    assert(accounted(s0, x));
                    lemma_count_remove(q0, k, event_of(EventType::Arrival, x));
                    lemma_count_remove(q0, k, event_of(EventType::Renege, x));
                    lemma_count_remove(q0, k, event_of(EventType::Unplug, x));
                    lemma_count_push(s0.waiting_queue@, x0, is_id(x));
                }
                assert forall|i: int| 0 <= i < s1.waiting_queue@.len() implies known(s1, #[trigger] s1.waiting_queue@[i]) by {
                    if i < s0.waiting_queue@.len() {
                        assert(s1.waiting_queue@[i] == s0.waiting_queue@[i]);
                    }
                }
            }
        },
    }
}

/// In the time-step simulation, finishing a vehicle's charging keeps the
/// simulation consistent, whatever the result: the session is closed in
/// place, not added or dropped.
pub proof fn lemma_timestep_finish_keeps(
    s0: Simulation,
    cid: Id,
    session_idx: int,
    now: u64,
    s1: Simulation,
    r: Result<(), SimulationError>,
)
    requires
        consistent(s0),
        0 <= session_idx < s0.sessions@.len(),
        finish_step(s0, cid, session_idx, now, s1, r),
    ensures
        consistent(s1),
{
    let old_s = s0.sessions@[session_idx];
    if old_s.plugin_time is Some {
        let new_s = Session { unplug_time: Some(now), ..old_s };
        lemma_same_charger_ids(s0.site.chargers@, s1.site.chargers@);
        lemma_site_wf_same_ids(s0.site, s1.site);
        assert forall|x: Id| known(s1, x) implies #[trigger] accounted(s1, x) by {
            assert(known(s0, x));
            assert(accounted(s0, x));
            lemma_count_update(s0.sessions@, session_idx, new_s, session_of(x));
        }
        assert forall|i: int| 0 <= i < s1.sessions@.len() implies known(s1, (#[trigger] s1.sessions@[i]).vehicle_id) by {
            assert(s1.sessions@[i].vehicle_id == s0.sessions@[i].vehicle_id);
        }
    } else {
        lemma_unchanged_consistent(s0, s1);
    }
}

/// A simulation with the same site, vehicles, events, queue and sessions as
/// a consistent one is consistent.
proof fn lemma_unchanged_consistent(s0: Simulation, s1: Simulation)
    requires
        consistent(s0),
        crate::simulation::only_queue_and_sessions(s0, s1, s0.waiting_queue@, s0.sessions@),
    ensures
        consistent(s1),
{
    assert forall|x: Id| known(s1, x) implies #[trigger] accounted(s1, x) by {
        assert(known(s0, x));
        assert(accounted(s0, x));
    }
    assert forall|i: int| 0 <= i < s1.waiting_queue@.len() implies known(s1, #[trigger] s1.waiting_queue@[i]) by {
        assert(s1.waiting_queue@[i] == s0.waiting_queue@[i]);
    }
    assert forall|i: int| 0 <= i < s1.sessions@.len() implies known(s1, (#[trigger] s1.sessions@[i]).vehicle_id) by {
        assert(s1.sessions@[i] == s0.sessions@[i]);
    }
}

/// In the time-step simulation, starting the next queued vehicle at a
/// charger of the site, once every due event has been handled, keeps the
/// simulation consistent and does not fail.
pub proof fn lemma_timestep_start_next_keeps(
    s0: Simulation,
    cid: Id,
    now: u64,
    s1: Simulation,
    r: Result<Option<StartedSession>, SimulationError>,
)
    requires
        consistent(s0),
        charger_position(s0.site.chargers@, cid) is Some,
        forall|i: int| 0 <= i < s0.event_queue@.len() ==> now < #[trigger] s0.event_queue@[i].time,
        start_next_step(s0, cid, now, s1, r),
    ensures
        r is Ok,
        consistent(s1),
{
    let w0 = s0.waiting_queue@;
    if w0.len() > 0 {
        let vs = s0.vehicle_list@;
        let y = w0[0];
        assert(known(s0, y));
        lemma_lookup_id(vs, y);
        let v = lookup(vs, y)->0;
        let j = charger_position(s0.site.chargers@, cid)->0;
        let sess = crate::session::plugged_session(now, None, v, s0.site.chargers@[j]);
        lemma_same_charger_ids(s0.site.chargers@, s1.site.chargers@);
        lemma_site_wf_same_ids(s0.site, s1.site);
        assert(w0.drop_first() =~= w0.remove(0));
        lemma_count_positive(w0, is_id(y), 0);
        // The vehicle still waits, so its renege is pending and not yet due:
        // it has waited less than its longest wait.
        assert(accounted(s0, y));
        let ir = lemma_count_witness(s0.event_queue@, event_of(EventType::Renege, y));
        assert(now < s0.event_queue@[ir].time);
        assert(session_fits(vs, sess));
        lemma_push_session_fits(vs, s0.sessions@, sess);
        assert forall|x: Id| known(s1, x) implies #[trigger] accounted(s1, x) by {
            assert(known(s0, x));
            assert(accounted(s0, x));
            lemma_count_remove(w0, 0, is_id(x));
            lemma_count_push(s0.sessions@, sess, session_of(x));
        }
        assert forall|i: int| 0 <= i < s1.waiting_queue@.len() implies known(s1, #[trigger] s1.waiting_queue@[i]) by {
            assert(s1.waiting_queue@[i] == w0[i + 1]);
        }
        assert forall|i: int| 0 <= i < s1.sessions@.len() implies known(s1, (#[trigger] s1.sessions@[i]).vehicle_id) by {
            if i < s0.sessions@.len() {
                assert(s1.sessions@[i] == s0.sessions@[i]);
            }
        }
    } else {
        lemma_unchanged_consistent(s0, s1);
    }
}

/// Unplugs at charger `c`.
pub open spec fn unplug_at(c: Id) -> spec_fn(Event) -> bool {
    |e: Event| e.event_type == EventType::Unplug && e.charger_id == Some(c)
}

/// No two chargers of the list share an ID.
pub open spec fn distinct_charger_ids(cs: Seq<Charger>) -> bool {
    forall|i: int, j: int| 0 <= i < j < cs.len() ==> #[trigger] cs[i].id != #[trigger] cs[j].id
}

/// Each busy charger of the site has exactly one pending unplug, and each
/// free one none: no charger serves two vehicles at once.
pub open spec fn occupancy(s: Simulation) -> bool {
    &&& distinct_charger_ids(s.site.chargers@)
    &&& forall|j: int|
        0 <= j < s.site.chargers@.len() ==> #[trigger] count(s.event_queue@, unplug_at(s.site.chargers@[j].id))
            == if s.site.chargers@[j].is_busy {
            1nat
        } else {
            0nat
        }
}

/// With distinct IDs, a lookup of a charger's ID finds that charger.
pub proof fn lemma_charger_position_distinct(cs: Seq<Charger>, m: int)
    requires
        distinct_charger_ids(cs),
        0 <= m < cs.len(),
    ensures
        charger_position(cs, cs[m].id) == Some(m),
{
    let ids = charger_ids(cs);
    assert forall|l: int| m < l < ids.len() implies ids[l] != cs[m].id by {
        assert(cs[m].id != cs[l].id);
    }
    assert(is_last_index(ids, cs[m].id, m));
    let j = choose|j: int| is_last_index(ids, cs[m].id, j);
    if j != m {
        if j < m {
            assert(cs[j].id != cs[m].id);
        } else {
            assert(ids[j] != cs[m].id);
        }
    }
}

/// A new simulation whose chargers are all free and have distinct IDs has
/// no charger serving a vehicle.
pub proof fn lemma_occupancy_initially(s: Simulation)
    requires
        distinct_charger_ids(s.site.chargers@),
        forall|j: int| 0 <= j < s.site.chargers@.len() ==> !(#[trigger] s.site.chargers@[j]).is_busy,
        s.event_queue@ == arrival_events(s.vehicle_list@),
    ensures
        occupancy(s),
{
    crate::containers::vehicle_list::lemma_arrival_events_no_unplug(s.vehicle_list@);
    assert forall|j: int| 0 <= j < s.site.chargers@.len() implies #[trigger] count(s.event_queue@, unplug_at(s.site.chargers@[j].id))
        == 0 by {
        lemma_count_zero(s.event_queue@, unplug_at(s.site.chargers@[j].id));
    }
}

/// Once no event is left, every charger of a simulation that kept its
/// occupancy is free.
pub proof fn lemma_all_free_at_end(s: Simulation)
    requires
        occupancy(s),
        s.event_queue@.len() == 0,
    ensures
        forall|j: int| 0 <= j < s.site.chargers@.len() ==> !(#[trigger] s.site.chargers@[j]).is_busy,
{
    assert forall|j: int| 0 <= j < s.site.chargers@.len() implies !(#[trigger] s.site.chargers@[j]).is_busy by {
        assert(count(s.event_queue@, unplug_at(s.site.chargers@[j].id)) == 0);
    }
}

/// Every step of a consistent simulation keeps each busy charger with
/// exactly one pending unplug and each free one with none: a vehicle only
/// ever starts at a free charger, and an unplug frees the charger it names.
pub proof fn lemma_occupancy_step(
    s0: Simulation,
    e: Event,
    p: Simulation,
    s1: Simulation,
    r1: Result<Option<ChargeStart>, SimulationError>,
    charge_duration_s: u64,
    idle_duration_s: u64,
    s2: Simulation,
    r2: Result<(), SimulationError>,
)
    requires
        consistent(s0),
        occupancy(s0),
        took_next(s0, e, p),
        event_step(p, e, s1, r1),
        r1 matches Ok(Some(c)) ==> start_step(s1, c, charge_duration_s, idle_duration_s, s2, r2),
        !(r1 matches Ok(Some(_))) ==> s2 == s1,
    ensures
        occupancy(s2),
{
    lemma_consistent_step(s0, e, p, s1, r1, charge_duration_s, idle_duration_s, s2, r2);
    let q0 = s0.event_queue@;
    let q1 = p.event_queue@;
    let cs0 = s0.site.chargers@;
    let cs1 = s1.site.chargers@;
    let cs2 = s2.site.chargers@;
    let k = choose|k: int| is_next(q0, k) && q0[k] == e && q1 == q0.remove(k);
    assert(cs1.len() == cs0.len() && cs2.len() == cs0.len());
    assert(forall|j: int| 0 <= j < cs0.len() ==> #[trigger] cs1[j].id == cs0[j].id);
    assert(forall|j: int| 0 <= j < cs0.len() ==> #[trigger] cs2[j].id == cs0[j].id);
    match r1 {
        Ok(Some(c)) => {
            // The vehicle starts at charger `c.charger_id`, which was free
            // before the step (an arrival found it free; an unplug freed it).
            let vs = s0.vehicle_list@;
            let v = lookup(vs, c.vehicle_id)->0;
            let j2 = charger_position(cs1, c.charger_id)->0;
            let unplug = (c.time + charge_duration_s + idle_duration_s) as u64;
            let u = crate::evse::charger::unplug_event(unplug, v.id, c.charger_id);
            assert(cs1[j2].id == c.charger_id) by {
                assert(charger_ids(cs1)[j2] == c.charger_id);
            }
            assert forall|j: int| 0 <= j < cs2.len() implies #[trigger] count(s2.event_queue@, unplug_at(cs2[j].id))
                == if cs2[j].is_busy {
                1nat
            } else {
                0nat
            } by {
                lemma_count_remove(q0, k, unplug_at(cs0[j].id));
                lemma_count_push(q1, u, unplug_at(cs0[j].id));
                assert(count(q0, unplug_at(cs0[j].id)) == if cs0[j].is_busy { 1nat } else { 0nat });
                if j != j2 {
                    assert(cs0[j].id != cs0[j2].id) by {
                        if j < j2 {
                            assert(cs0[j].id != cs0[j2].id);
                        } else {
                            assert(cs0[j2].id != cs0[j].id);
                        }
                    }
                }
                match e.event_type {
                    EventType::Arrival => {
                        let i = first_free(p.site.chargers@)->0;
                        assert(crate::evse::site::is_first_free(cs0, i));
                        lemma_charger_position_distinct(cs0, i);
                        assert(j2 == i);
                    },
                    EventType::Renege => {},
                    EventType::Unplug => {
                        let cid = e.charger_id->0;
                        let jj = charger_position(cs0, cid)->0;
                        assert(charger_ids(cs0)[jj] == cid);
                        lemma_charger_position_distinct(cs0, jj);
                        lemma_charger_position_distinct(cs1, jj);
                        assert(j2 == jj);
                    },
                }
            }
        },
        _ => {
            assert forall|j: int| 0 <= j < cs2.len() implies #[trigger] count(s2.event_queue@, unplug_at(cs2[j].id))
                == if cs2[j].is_busy {
                1nat
            } else {
                0nat
            } by {
                lemma_count_remove(q0, k, unplug_at(cs0[j].id));
                assert(count(q0, unplug_at(cs0[j].id)) == if cs0[j].is_busy { 1nat } else { 0nat });
                if e.event_type == EventType::Unplug {
                    let cid = e.charger_id->0;
                    let jj = charger_position(cs0, cid)->0;
                    assert(charger_ids(cs0)[jj] == cid);
                    if j != jj {
                        if j < jj {
                            assert(cs0[j].id != cs0[jj].id);
                        } else {
                            assert(cs0[jj].id != cs0[j].id);
                        }
                    }
                }
            }
        },
    }
    assert forall|i: int, j: int| 0 <= i < j < cs2.len() implies #[trigger] cs2[i].id != #[trigger] cs2[j].id by {
        assert(cs0[i].id != cs0[j].id);
    }
}

/// The chargers of the site have distinct IDs, each has at most one
/// pending unplug, and a charger with one is busy (a charger may also be
/// busy with none, as one that started busy).
pub open spec fn unplugs_single(s: Simulation) -> bool {
    &&& distinct_charger_ids(s.site.chargers@)
    &&& forall|j: int|
        0 <= j < s.site.chargers@.len() ==> #[trigger] count(s.event_queue@, unplug_at(s.site.chargers@[j].id))
            <= 1 && (count(s.event_queue@, unplug_at(s.site.chargers@[j].id)) > 0 ==> s.site.chargers@[j].is_busy)
}

/// A consistent new simulation whose chargers have distinct IDs has no
/// pending unplug, so at most one at each charger.
pub proof fn lemma_unplugs_single_initially(s: Simulation)
    requires
        consistent(s),
        distinct_charger_ids(s.site.chargers@),
        s.sessions@.len() == 0,
    ensures
        unplugs_single(s),
{
    let q = s.event_queue@;
    assert forall|j: int| 0 <= j < s.site.chargers@.len() implies #[trigger] count(q, unplug_at(s.site.chargers@[j].id))
        == 0 by {
        let c = s.site.chargers@[j].id;
        if count(q, unplug_at(c)) > 0 {
            let k = lemma_count_witness(q, unplug_at(c));
            let x = q[k].vehicle_id;
            assert(lookup(s.vehicle_list@, x) is Some);
            assert(accounted(s, x));
            lemma_count_positive(q, event_of(EventType::Unplug, x), k);
            lemma_count_zero(s.sessions@, session_of(x));
        }
    }
}

/// Every step of a consistent simulation keeps at most one pending unplug
/// at each charger, and only at a busy one.
pub proof fn lemma_unplugs_single_step(
    s0: Simulation,
    e: Event,
    p: Simulation,
    s1: Simulation,
    r1: Result<Option<ChargeStart>, SimulationError>,
    charge_duration_s: u64,
    idle_duration_s: u64,
    s2: Simulation,
    r2: Result<(), SimulationError>,
)
    requires
        consistent(s0),
        unplugs_single(s0),
        took_next(s0, e, p),
        event_step(p, e, s1, r1),
        r1 matches Ok(Some(c)) ==> start_step(s1, c, charge_duration_s, idle_duration_s, s2, r2),
        !(r1 matches Ok(Some(_))) ==> s2 == s1,
    ensures
        unplugs_single(s2),
{
    lemma_consistent_step(s0, e, p, s1, r1, charge_duration_s, idle_duration_s, s2, r2);
    let q0 = s0.event_queue@;
    let q1 = p.event_queue@;
    let cs0 = s0.site.chargers@;
    let cs1 = s1.site.chargers@;
    let cs2 = s2.site.chargers@;
    let k = choose|k: int| is_next(q0, k) && q0[k] == e && q1 == q0.remove(k);
    assert(cs1.len() == cs0.len() && cs2.len() == cs0.len());
    assert(forall|j: int| 0 <= j < cs0.len() ==> #[trigger] cs1[j].id == cs0[j].id);
    assert(forall|j: int| 0 <= j < cs0.len() ==> #[trigger] cs2[j].id == cs0[j].id);
    match r1 {
        Ok(Some(c)) => {
            let vs = s0.vehicle_list@;
            let v = lookup(vs, c.vehicle_id)->0;
            let j2 = charger_position(cs1, c.charger_id)->0;
            let unplug = (c.time + charge_duration_s + idle_duration_s) as u64;
            let u = crate::evse::charger::unplug_event(unplug, v.id, c.charger_id);
            assert(cs1[j2].id == c.charger_id) by {
                assert(charger_ids(cs1)[j2] == c.charger_id);
            }
            assert forall|j: int| 0 <= j < cs2.len() implies #[trigger] count(s2.event_queue@, unplug_at(cs2[j].id)) <= 1
                && (count(s2.event_queue@, unplug_at(cs2[j].id)) > 0 ==> cs2[j].is_busy) by {
                lemma_count_remove(q0, k, unplug_at(cs0[j].id));
                lemma_count_push(q1, u, unplug_at(cs0[j].id));
                assert(count(q0, unplug_at(cs0[j].id)) <= 1);
                if j != j2 {
                    if j < j2 {
                        assert(cs0[j].id != cs0[j2].id);
                    } else {
                        assert(cs0[j2].id != cs0[j].id);
                    }
                }
                match e.event_type {
                    EventType::Arrival => {
                        let i = first_free(p.site.chargers@)->0;
                        assert(crate::evse::site::is_first_free(cs0, i));
                        lemma_charger_position_distinct(cs0, i);
                        assert(j2 == i);
                    },
                    EventType::Renege => {},
                    EventType::Unplug => {
                        let cid = e.charger_id->0;
                        let jj = charger_position(cs0, cid)->0;
                        assert(charger_ids(cs0)[jj] == cid);
                        lemma_charger_position_distinct(cs0, jj);
                        lemma_charger_position_distinct(cs1, jj);
                        assert(j2 == jj);
                        if j != jj {
                            if j < jj {
                                assert(cs0[j].id != cs0[jj].id);
                            } else {
                                assert(cs0[jj].id != cs0[j].id);
                            }
                        }
                    },
                }
            }
        },
        _ => {
            assert forall|j: int| 0 <= j < cs2.len() implies #[trigger] count(s2.event_queue@, unplug_at(cs2[j].id)) <= 1
                && (count(s2.event_queue@, unplug_at(cs2[j].id)) > 0 ==> cs2[j].is_busy) by {
                lemma_count_remove(q0, k, unplug_at(cs0[j].id));
                assert(count(q0, unplug_at(cs0[j].id)) <= 1);
                if e.event_type == EventType::Unplug {
                    let cid = e.charger_id->0;
                    let jj = charger_position(cs0, cid)->0;
                    assert(charger_ids(cs0)[jj] == cid);
                    if j != jj {
                        if j < jj {
                            assert(cs0[j].id != cs0[jj].id);
                        } else {
                            assert(cs0[jj].id != cs0[j].id);
                        }
                    }
                }
            }
        },
    }
    assert forall|i: int, j: int| 0 <= i < j < cs2.len() implies #[trigger] cs2[i].id != #[trigger] cs2[j].id by {
        assert(cs0[i].id != cs0[j].id);
    }
}

} // verus!
