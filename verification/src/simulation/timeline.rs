//! The timeline of a discrete-event run: sessions are recorded in time
//! order, no two sessions overlap on one charger, and a vehicle that waited
//! is plugged in at the unplug that frees its charger.

use crate::containers::event_queue::is_next;
use crate::containers::vehicle_list::lookup;
use crate::counting::{count, lemma_count_positive, lemma_count_remove};
use crate::errors::SimulationError;
use crate::events::{Event, EventType};
use crate::evse::site::{charger_ids, charger_position, first_free};
use crate::ids::Id;
use crate::session::Session;
use crate::simulation::accounting::{
    consistent, lemma_consistent_step, lemma_lookup_id, lemma_unplugs_single_step, took_next, unplug_at, unplugs_single,
};
use crate::simulation::{event_step, start_step, ChargeStart, Simulation};
use vstd::prelude::*;

verus! {

/// The time at which a session was recorded: its vehicle's arrival plus
/// its wait (the plug-in time of a session that charged).
pub open spec fn recorded(a: Session) -> int {
    a.arrival_time + a.wait_duration_s
}

/// An unplug at charger `c` at time `u` is pending in `q`.
pub open spec fn unplug_pending(q: Seq<Event>, c: Id, u: u64) -> bool {
    exists|k: int|
        0 <= k < q.len() && (#[trigger] q[k]).event_type == EventType::Unplug && q[k].charger_id == Some(c)
            && q[k].time == u
}

/// Sessions are recorded in time order.
pub open spec fn recorded_in_order(ss: Seq<Session>) -> bool {
    forall|i: int, j: int| 0 <= i < j < ss.len() ==> recorded(#[trigger] ss[i]) <= recorded(#[trigger] ss[j])
}

/// No two sessions overlap on one charger: a session that charged ends
/// before any later session at the same charger is plugged in.
pub open spec fn no_overlap(ss: Seq<Session>) -> bool {
    forall|i: int, j: int|
        0 <= i < j < ss.len() && (#[trigger] ss[i]).plugin_time is Some && (#[trigger] ss[j]).plugin_time is Some
            && ss[i].charger_id == ss[j].charger_id ==> (ss[i].unplug_time matches Some(u) && u
            <= ss[j].plugin_time->0)
}

/// A vehicle that waited before it charged was plugged in when another
/// session at the same charger ended.
pub open spec fn plugged_at_freeing(ss: Seq<Session>) -> bool {
    forall|j: int|
        0 <= j < ss.len() && (#[trigger] ss[j]).plugin_time is Some && ss[j].wait_duration_s > 0 ==> exists|i: int|
            0 <= i < ss.len() && (#[trigger] ss[i]).plugin_time is Some && ss[i].charger_id == ss[j].charger_id
                && ss[i].unplug_time == ss[j].plugin_time
}

/// The timeline of simulation `s` when the last event handled was at
/// `now`: no pending event is earlier, every waiting vehicle has arrived,
/// every session was recorded by `now` and in time order, each session that
/// charged has ended by `now` or has its unplug pending, each pending
/// unplug ends a recorded session, and a vehicle that waited was plugged in
/// when another session at its charger ended.
pub open spec fn timeline(s: Simulation, now: u64) -> bool {
    let q = s.event_queue@;
    let w = s.waiting_queue@;
    let ss = s.sessions@;
    &&& forall|k: int| 0 <= k < q.len() ==> now <= (#[trigger] q[k]).time
    &&& forall|i: int|
        0 <= i < w.len() ==> (lookup(s.vehicle_list@, #[trigger] w[i]) matches Some(v) && v.arrival_time <= now)
    &&& forall|i: int| 0 <= i < ss.len() ==> recorded(#[trigger] ss[i]) <= now
    &&& forall|i: int|
        0 <= i < ss.len() && (#[trigger] ss[i]).plugin_time is Some ==> (ss[i].charger_id matches Some(c)
            && ss[i].unplug_time matches Some(u) && (u <= now || unplug_pending(q, c, u)))
    &&& forall|k: int|
        0 <= k < q.len() && (#[trigger] q[k]).event_type == EventType::Unplug ==> exists|i: int|
            0 <= i < ss.len() && (#[trigger] ss[i]).plugin_time is Some && ss[i].charger_id == q[k].charger_id
                && ss[i].unplug_time == Some(q[k].time)
    &&& recorded_in_order(ss)
    &&& plugged_at_freeing(ss)
}

/// A new simulation, with no vehicle waiting and no session recorded, has
/// a timeline from time 0.
pub proof fn lemma_timeline_initially(s: Simulation)
    requires
        consistent(s),
        s.waiting_queue@.len() == 0,
        s.sessions@.len() == 0,
    ensures
        timeline(s, 0),
{
    let q = s.event_queue@;
    assert forall|k: int| 0 <= k < q.len() && (#[trigger] q[k]).event_type == EventType::Unplug implies exists|i: int|
        0 <= i < s.sessions@.len() && (#[trigger] s.sessions@[i]).plugin_time is Some && s.sessions@[i].charger_id
            == q[k].charger_id && s.sessions@[i].unplug_time == Some(q[k].time) by {
        assert(crate::simulation::accounting::unplugs_at(s.site.chargers@, q));
        assert(q[k].event_type == EventType::Unplug);
        // A consistent new simulation has no session, so no unplug either:
        // its unplug belongs to a plugged-in vehicle, which has a session.
        let x = q[k].vehicle_id;
        assert(lookup(s.vehicle_list@, x) is Some);
        assert(crate::simulation::accounting::accounted(s, x));
        crate::counting::lemma_count_positive(q, crate::simulation::accounting::event_of(EventType::Unplug, x), k);
        crate::counting::lemma_count_zero(s.sessions@, crate::simulation::accounting::session_of(x));
    }
}

/// A pending unplug stays pending when another event is taken out.
proof fn lemma_pending_after_remove(q: Seq<Event>, k: int, c: Id, u: u64)
    requires
        unplug_pending(q, c, u),
        0 <= k < q.len(),
    ensures
        unplug_pending(q.remove(k), c, u) || (q[k].event_type == EventType::Unplug && q[k].charger_id == Some(c)
            && q[k].time == u),
{
    let m = choose|m: int|
        0 <= m < q.len() && (#[trigger] q[m]).event_type == EventType::Unplug && q[m].charger_id == Some(c)
            && q[m].time == u;
    if m < k {
        assert(q.remove(k)[m] == q[m]);
    } else if m > k {
        assert(q.remove(k)[m - 1] == q[m]);
    }
}

/// A pending unplug stays pending when an event is added.
proof fn lemma_pending_after_push(q: Seq<Event>, x: Event, c: Id, u: u64)
    requires
        unplug_pending(q, c, u),
    ensures
        unplug_pending(q.push(x), c, u),
{
    let m = choose|m: int|
        0 <= m < q.len() && (#[trigger] q[m]).event_type == EventType::Unplug && q[m].charger_id == Some(c)
            && q[m].time == u;
    assert(q.push(x)[m] == q[m]);
}

/// A pending unplug at a charger counts among its unplugs.
proof fn lemma_pending_counts(q: Seq<Event>, c: Id, u: u64)
    requires
        unplug_pending(q, c, u),
    ensures
        count(q, unplug_at(c)) > 0,
{
    let m = choose|m: int|
        0 <= m < q.len() && (#[trigger] q[m]).event_type == EventType::Unplug && q[m].charger_id == Some(c)
            && q[m].time == u;
    lemma_count_positive(q, unplug_at(c), m);
}

/// The sessions of `ss` that charged are on record in `q` at `t`: each has
/// a charger and an unplug time, and has ended by `t` or has its unplug
/// pending in `q`.
spec fn sessions_on_record(ss: Seq<Session>, q: Seq<Event>, t: u64) -> bool {
    forall|i: int|
        0 <= i < ss.len() && (#[trigger] ss[i]).plugin_time is Some ==> (ss[i].charger_id matches Some(c)
            && ss[i].unplug_time matches Some(u) && (u <= t || unplug_pending(q, c, u)))
}

/// Each pending unplug of `q` ends a session of `ss`.
spec fn unplugs_on_record(ss: Seq<Session>, q: Seq<Event>) -> bool {
    forall|k: int|
        0 <= k < q.len() && (#[trigger] q[k]).event_type == EventType::Unplug ==> exists|i: int|
            0 <= i < ss.len() && (#[trigger] ss[i]).plugin_time is Some && ss[i].charger_id == q[k].charger_id
                && ss[i].unplug_time == Some(q[k].time)
}

/// Recording a session that never charged, at `t`, keeps the sessions in
/// time order and on record, and keeps both laws.
proof fn lemma_push_unserved(ss: Seq<Session>, q: Seq<Event>, x: Session, t: u64)
    requires
        forall|i: int| 0 <= i < ss.len() ==> recorded(#[trigger] ss[i]) <= t,
        sessions_on_record(ss, q, t),
        unplugs_on_record(ss, q),
        recorded_in_order(ss),
        plugged_at_freeing(ss),
        x.plugin_time is None,
        recorded(x) == t,
    ensures
        forall|i: int| 0 <= i < ss.push(x).len() ==> recorded(#[trigger] ss.push(x)[i]) <= t,
        sessions_on_record(ss.push(x), q, t),
        unplugs_on_record(ss.push(x), q),
        recorded_in_order(ss.push(x)),
        no_overlap(ss) ==> no_overlap(ss.push(x)),
        plugged_at_freeing(ss.push(x)),
{
    let s2 = ss.push(x);
    assert forall|i: int| 0 <= i < ss.len() implies s2[i] == ss[i] by {}
    assert forall|i: int| 0 <= i < s2.len() implies recorded(#[trigger] s2[i]) <= t by {
        if i < ss.len() {
            assert(s2[i] == ss[i]);
        }
    }
    assert forall|k: int| 0 <= k < q.len() && (#[trigger] q[k]).event_type == EventType::Unplug implies exists|i: int|
        0 <= i < s2.len() && (#[trigger] s2[i]).plugin_time is Some && s2[i].charger_id == q[k].charger_id
            && s2[i].unplug_time == Some(q[k].time) by {
        let i = choose|i: int|
            0 <= i < ss.len() && (#[trigger] ss[i]).plugin_time is Some && ss[i].charger_id == q[k].charger_id
                && ss[i].unplug_time == Some(q[k].time);
        assert(s2[i] == ss[i]);
    }
    assert forall|j: int|
        0 <= j < s2.len() && (#[trigger] s2[j]).plugin_time is Some && s2[j].wait_duration_s > 0 implies exists|i: int|
        0 <= i < s2.len() && (#[trigger] s2[i]).plugin_time is Some && s2[i].charger_id == s2[j].charger_id
            && s2[i].unplug_time == s2[j].plugin_time by {
        assert(s2[j] == ss[j]);
        let i = choose|i: int|
            0 <= i < ss.len() && (#[trigger] ss[i]).plugin_time is Some && ss[i].charger_id == ss[j].charger_id
                && ss[i].unplug_time == ss[j].plugin_time;
        assert(s2[i] == ss[i]);
    }
}

/// One step of a run keeps the timeline, with the clock moved to the time
/// of the event handled, which is not earlier than the last.
pub proof fn lemma_timeline_step(
    s0: Simulation,
    e: Event,
    p: Simulation,
    s1: Simulation,
    r1: Result<Option<ChargeStart>, SimulationError>,
    charge_duration_s: u64,
    idle_duration_s: u64,
    s2: Simulation,
    r2: Result<(), SimulationError>,
    now: u64,
)
    requires
        consistent(s0),
        timeline(s0, now),
        took_next(s0, e, p),
        event_step(p, e, s1, r1),
        r1 matches Ok(Some(c)) ==> start_step(s1, c, charge_duration_s, idle_duration_s, s2, r2) && c.time
            + charge_duration_s + idle_duration_s <= u64::MAX,
        !(r1 matches Ok(Some(_))) ==> s2 == s1,
    ensures
        now <= e.time,
        timeline(s2, e.time),
        unplugs_single(s0) && no_overlap(s0.sessions@) ==> unplugs_single(s2) && no_overlap(s2.sessions@),
{
    let single = unplugs_single(s0) && no_overlap(s0.sessions@);
    if single {
        lemma_unplugs_single_step(s0, e, p, s1, r1, charge_duration_s, idle_duration_s, s2, r2);
    }
    lemma_consistent_step(s0, e, p, s1, r1, charge_duration_s, idle_duration_s, s2, r2);
    let vs = s0.vehicle_list@;
    let q0 = s0.event_queue@;
    let q1 = p.event_queue@;
    let w0 = s0.waiting_queue@;
    let ss0 = s0.sessions@;
    let t = e.time;
    let k = choose|k: int| is_next(q0, k) && q0[k] == e && q1 == q0.remove(k);
    assert(now <= q0[k].time);
    assert forall|m: int| 0 <= m < q1.len() implies t <= (#[trigger] q1[m]).time by {
        if m < k {
            assert(q1[m] == q0[m]);
        } else {
            assert(q1[m] == q0[m + 1]);
        }
    }
    assert(unplugs_on_record(ss0, q1)) by {
        assert forall|m: int| 0 <= m < q1.len() && (#[trigger] q1[m]).event_type == EventType::Unplug implies exists|i: int|
            0 <= i < ss0.len() && (#[trigger] ss0[i]).plugin_time is Some && ss0[i].charger_id == q1[m].charger_id
                && ss0[i].unplug_time == Some(q1[m].time) by {
            if m < k {
                assert(q1[m] == q0[m]);
            } else {
                assert(q1[m] == q0[m + 1]);
            }
        }
    }
    assert(sessions_on_record(ss0, q1, t)) by {
        assert forall|i: int| 0 <= i < ss0.len() && (#[trigger] ss0[i]).plugin_time is Some implies (ss0[i].charger_id matches Some(c)
            && ss0[i].unplug_time matches Some(u) && (u <= t || unplug_pending(q1, c, u))) by {
            let c = ss0[i].charger_id->0;
            let u = ss0[i].unplug_time->0;
            if !(u <= now) {
                lemma_pending_after_remove(q0, k, c, u);
            }
        }
    }
    assert(forall|i: int| 0 <= i < ss0.len() ==> recorded(#[trigger] ss0[i]) <= t);
    let x0 = e.vehicle_id;
    assert(lookup(vs, q0[k].vehicle_id) is Some);
    lemma_lookup_id(vs, x0);
    match r1 {
        Ok(None) => {
            match e.event_type {
                EventType::Arrival => {
                    let v = lookup(vs, x0)->0;
                    if w0.len() >= v.max_queue_length {
                        lemma_push_unserved(ss0, q1, crate::session::unserved_session(t, v, false), t);
                    } else {
                        assert forall|i: int| 0 <= i < s2.waiting_queue@.len() implies (lookup(vs, #[trigger] s2.waiting_queue@[i]) matches Some(v)
                            && v.arrival_time <= t) by {
                            if i < w0.len() {
                                assert(s2.waiting_queue@[i] == w0[i]);
                            }
                        }
                    }
                },
                EventType::Renege => {
                    if w0.contains(x0) {
                        let v = lookup(vs, x0)->0;
                        crate::containers::waiting_queue::lemma_first_index_exists(w0, x0);
                        let i0 = choose|i: int| crate::containers::waiting_queue::is_first_index(w0, x0, i);
                        lemma_push_unserved(ss0, q1, crate::session::unserved_session(t, v, true), t);
                        assert forall|i: int| 0 <= i < s2.waiting_queue@.len() implies (lookup(vs, #[trigger] s2.waiting_queue@[i]) matches Some(v)
                            && v.arrival_time <= t) by {
                            if i < i0 {
                                assert(s2.waiting_queue@[i] == w0[i]);
                            } else {
                                assert(s2.waiting_queue@[i] == w0[i + 1]);
                            }
                        }
                    }
                },
                EventType::Unplug => {},
            }
        },
        Ok(Some(c)) => {
            let cs0 = s0.site.chargers@;
            let cs1 = s1.site.chargers@;
            let cc = c.charger_id;
            let v = lookup(vs, c.vehicle_id)->0;
            lemma_lookup_id(vs, c.vehicle_id);
            let j = charger_position(cs1, cc)->0;
            assert(charger_ids(cs1)[j] == cc);
            let un = (c.time + charge_duration_s + idle_duration_s) as u64;
            let u_ev = crate::evse::charger::unplug_event(un, v.id, cc);
            let b = crate::session::plugged_session(c.time, Some(un), v, cs1[j]);
            let q2 = s2.event_queue@;
            let ss2 = s2.sessions@;
            assert(q2 == q1.push(u_ev));
            assert(ss2 == ss0.push(b));
            assert(ss2.len() == ss0.len() + 1);
            assert forall|i: int| 0 <= i < ss0.len() implies ss2[i] == ss0[i] by {}
            assert(ss2[ss0.len() as int] == b);
            // A vehicle that started at the unplug just handled had waited
            // no earlier than the queue's front.
            if e.event_type == EventType::Arrival {
                assert(v.arrival_time == t);
            } else {
                assert(lookup(vs, w0[0]) matches Some(v) && v.arrival_time <= now);
            }
            // No unplug at the charger is pending once the event is taken.
            if single {
                if e.event_type == EventType::Arrival {
                    let i0 = first_free(p.site.chargers@)->0;
                    assert(crate::evse::site::is_first_free(cs0, i0));
                    assert(cs0[i0].id == cc);
                    assert(count(q0, unplug_at(cs0[i0].id)) <= 1);
                    lemma_count_remove(q0, k, unplug_at(cc));
                } else {
                    let cid = e.charger_id->0;
                    assert(cid == cc);
                    let jj = charger_position(cs0, cid)->0;
                    assert(charger_ids(cs0)[jj] == cid);
                    assert(cs0[jj].id == cid);
                    lemma_count_positive(q0, unplug_at(cid), k);
                    assert(count(q0, unplug_at(cs0[jj].id)) <= 1);
                    lemma_count_remove(q0, k, unplug_at(cc));
                }
                assert(count(q1, unplug_at(cc)) == 0);
            }
            assert(recorded(b) == t);
            // The timeline after the start.
            assert forall|m: int| 0 <= m < q2.len() implies t <= (#[trigger] q2[m]).time by {
                if m < q1.len() {
                    assert(q2[m] == q1[m]);
                }
            }
            assert forall|i: int| 0 <= i < ss2.len() implies recorded(#[trigger] ss2[i]) <= t by {
                if i < ss0.len() {
                    assert(ss2[i] == ss0[i]);
                }
            }
            assert forall|i: int| 0 <= i < ss2.len() && (#[trigger] ss2[i]).plugin_time is Some implies (ss2[i].charger_id matches Some(c)
                && ss2[i].unplug_time matches Some(u) && (u <= t || unplug_pending(q2, c, u))) by {
                if i < ss0.len() {
                    assert(ss2[i] == ss0[i]);
                    let c2 = ss0[i].charger_id->0;
                    let u = ss0[i].unplug_time->0;
                    if !(u <= t) {
                        lemma_pending_after_push(q1, u_ev, c2, u);
                    }
                } else {
                    assert(q2[q1.len() as int] == u_ev);
                }
            }
            assert forall|m: int| 0 <= m < q2.len() && (#[trigger] q2[m]).event_type == EventType::Unplug implies exists|i: int|
                0 <= i < ss2.len() && (#[trigger] ss2[i]).plugin_time is Some && ss2[i].charger_id == q2[m].charger_id
                    && ss2[i].unplug_time == Some(q2[m].time) by {
                if m < q1.len() {
                    assert(q2[m] == q1[m]);
                    let i = choose|i: int|
                        0 <= i < ss0.len() && (#[trigger] ss0[i]).plugin_time is Some && ss0[i].charger_id
                            == q1[m].charger_id && ss0[i].unplug_time == Some(q1[m].time);
                    assert(ss2[i] == ss0[i]);
                } else {
                    assert(ss2[ss0.len() as int] == b);
                }
            }
            assert forall|i: int, j2: int| 0 <= i < j2 < ss2.len() implies recorded(#[trigger] ss2[i]) <= recorded(
                #[trigger] ss2[j2],
            ) by {
                assert(ss2[i] == ss0[i]);
                if j2 < ss0.len() {
                    assert(ss2[j2] == ss0[j2]);
                }
            }
            assert forall|i: int, j2: int|
                single && 0 <= i < j2 < ss2.len() && (#[trigger] ss2[i]).plugin_time is Some && (#[trigger] ss2[j2]).plugin_time is Some
                    && ss2[i].charger_id == ss2[j2].charger_id implies (ss2[i].unplug_time matches Some(u) && u
                <= ss2[j2].plugin_time->0) by {
                assert(ss2[i] == ss0[i]);
                if j2 < ss0.len() {
                    assert(ss2[j2] == ss0[j2]);
                } else {
                    let u = ss0[i].unplug_time->0;
                    if !(u <= t) {
                        lemma_pending_counts(q1, cc, u);
                    }
                }
            }
            assert forall|j2: int|
                0 <= j2 < ss2.len() && (#[trigger] ss2[j2]).plugin_time is Some && ss2[j2].wait_duration_s > 0 implies exists|i: int|
                0 <= i < ss2.len() && (#[trigger] ss2[i]).plugin_time is Some && ss2[i].charger_id == ss2[j2].charger_id
                    && ss2[i].unplug_time == ss2[j2].plugin_time by {
                if j2 < ss0.len() {
                    assert(ss2[j2] == ss0[j2]);
                    let i = choose|i: int|
                        0 <= i < ss0.len() && (#[trigger] ss0[i]).plugin_time is Some && ss0[i].charger_id
                            == ss0[j2].charger_id && ss0[i].unplug_time == ss0[j2].plugin_time;
                    assert(ss2[i] == ss0[i]);
                } else {
                    // Only a vehicle from the queue waits: it starts at the
                    // unplug just handled, which ends a recorded session.
                    assert(e.event_type == EventType::Unplug);
                    assert(q0[k].event_type == EventType::Unplug);
                    let i = choose|i: int|
                        0 <= i < ss0.len() && (#[trigger] ss0[i]).plugin_time is Some && ss0[i].charger_id
                            == q0[k].charger_id && ss0[i].unplug_time == Some(q0[k].time);
                    assert(ss2[i] == ss0[i]);
                }
            }
            assert forall|i: int| 0 <= i < s2.waiting_queue@.len() implies (lookup(vs, #[trigger] s2.waiting_queue@[i]) matches Some(v)
                && v.arrival_time <= t) by {
                if e.event_type == EventType::Unplug {
                    assert(s2.waiting_queue@[i] == w0[i + 1]);
                } else {
                    assert(s2.waiting_queue@[i] == w0[i]);
                }
            }
        },
        Err(_) => {},
    }
}

} // verus!
