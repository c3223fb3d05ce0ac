//! The timeline of the time-step simulation: each session that charged was
//! plugged in after its vehicle arrived and unplugged after that; no two
//! sessions overlap on one charger; a vehicle that waited was plugged in
//! when its charger was freed; and vehicles are plugged in in the order in
//! which they arrived.

use crate::containers::event_queue::is_next;
use crate::containers::vehicle_list::lookup;
use crate::containers::waiting_queue::is_first_index;
use crate::errors::SimulationError;
use crate::events::EventType;
use crate::evse::site::{charger_ids, charger_position, first_free, is_first_free};
use crate::evse::Charger;
use crate::ids::Id;
use crate::session::Session;
use crate::simulation::accounting::{consistent, distinct_charger_ids, lemma_lookup_id};
use crate::simulation::timeline::{no_overlap, plugged_at_freeing};
use crate::simulation::timestep::{
    due_event_step, due_events_handled, finish_start_step, finished_in_turn, no_start, StartedSession,
};
use crate::simulation::accounting::{
    lemma_one_session_per_vehicle, lemma_timestep_event_keeps, lemma_timestep_finish_keeps,
    lemma_timestep_start_next_keeps, sessions_of,
};
use crate::simulation::{no_idle_wait, Simulation};
use vstd::prelude::*;

verus! {

/// Session `a` has been plugged in and not yet unplugged.
pub open spec fn is_open(a: Session) -> bool {
    a.plugin_time is Some && a.unplug_time is None
}

/// The arrival time of the vehicle with ID `x` among `vs`.
pub open spec fn arrival_of_id(vs: Seq<crate::ev::Vehicle>, x: Id) -> int {
    lookup(vs, x)->0.arrival_time as int
}

/// Each session that charged, at charger `c`, was plugged in no earlier
/// than its vehicle arrived and by `now`, waited from arrival to plug-in,
/// and, if it has been unplugged, was unplugged no earlier than plugged in
/// and by `now`.
pub open spec fn session_times(ss: Seq<Session>, now: u64) -> bool {
    forall|i: int|
        0 <= i < ss.len() && (#[trigger] ss[i]).plugin_time is Some ==> {
            let p = ss[i].plugin_time->0;
            &&& ss[i].charger_id is Some
            &&& ss[i].arrival_time <= p <= now
            &&& ss[i].wait_duration_s == p - ss[i].arrival_time
            &&& ss[i].unplug_time matches Some(u) ==> p <= u <= now
        }
}

/// Vehicles are plugged in in the order in which they arrived: of two
/// sessions that charged, the one whose vehicle arrived earlier was not
/// plugged in later.
pub open spec fn first_come_first_served(ss: Seq<Session>) -> bool {
    forall|i: int, j: int|
        0 <= i < ss.len() && 0 <= j < ss.len() && (#[trigger] ss[i]).plugin_time is Some
            && (#[trigger] ss[j]).plugin_time is Some && ss[i].arrival_time < ss[j].arrival_time
            ==> ss[i].plugin_time->0 <= ss[j].plugin_time->0
}

/// The sessions of a time-step simulation at `now`, with chargers `cs`:
/// their times, each open session's charger busy, at most one open session
/// per charger, and the three laws.
pub open spec fn session_record(ss: Seq<Session>, cs: Seq<Charger>, now: u64) -> bool {
    &&& session_times(ss, now)
    &&& forall|i: int|
        0 <= i < ss.len() && is_open(#[trigger] ss[i]) ==> (charger_position(cs, ss[i].charger_id->0) matches Some(
            j,
        ) && cs[j].is_busy)
    &&& forall|i: int, j: int|
        0 <= i < j < ss.len() && is_open(#[trigger] ss[i]) && is_open(#[trigger] ss[j]) ==> ss[i].charger_id
            != ss[j].charger_id
    &&& no_overlap(ss)
    &&& plugged_at_freeing(ss)
    &&& first_come_first_served(ss)
}

/// The timeline of a time-step simulation at time `now`: no pending event
/// is earlier, the waiting vehicles have arrived and wait in the order of
/// arrival, no vehicle that charged arrived after one still waiting, the
/// sessions are on record, and no vehicle waits while a charger is free.
pub open spec fn ts_timeline(s: Simulation, now: u64) -> bool {
    let vs = s.vehicle_list@;
    let q = s.event_queue@;
    let w = s.waiting_queue@;
    let ss = s.sessions@;
    &&& distinct_charger_ids(s.site.chargers@)
    &&& forall|k: int| 0 <= k < q.len() ==> now <= (#[trigger] q[k]).time
    &&& forall|m: int| 0 <= m < w.len() ==> arrival_of_id(vs, #[trigger] w[m]) <= now
    &&& forall|m: int, n: int|
        0 <= m < n < w.len() ==> arrival_of_id(vs, #[trigger] w[m]) <= arrival_of_id(vs, #[trigger] w[n])
    &&& forall|i: int, m: int|
        0 <= i < ss.len() && 0 <= m < w.len() && (#[trigger] ss[i]).plugin_time is Some ==> ss[i].arrival_time
            <= arrival_of_id(vs, #[trigger] w[m])
    &&& session_record(ss, s.site.chargers@, now)
    &&& no_idle_wait(s)
}

/// A new time-step simulation, with no vehicle waiting and no session yet,
/// and chargers of distinct IDs, has a timeline from time 0.
pub proof fn lemma_ts_timeline_initially(s: Simulation)
    requires
        distinct_charger_ids(s.site.chargers@),
        s.waiting_queue@.len() == 0,
        s.sessions@.len() == 0,
    ensures
        ts_timeline(s, 0),
{
}

/// Advancing the clock by one second, once no pending event is due, keeps
/// the timeline.
pub proof fn lemma_ts_timeline_advance(s: Simulation, now: u64)
    requires
        ts_timeline(s, now),
        now < u64::MAX,
        forall|k: int| 0 <= k < s.event_queue@.len() ==> now < #[trigger] s.event_queue@[k].time,
    ensures
        ts_timeline(s, (now + 1) as u64),
{
}

/// Recording a session that never charged keeps the sessions on record,
/// and keeps no session that charged after a waiting vehicle arrived.
proof fn lemma_record_push_unserved(ss: Seq<Session>, cs: Seq<Charger>, now: u64, x: Session)
    requires
        session_record(ss, cs, now),
        x.plugin_time is None,
    ensures
        session_record(ss.push(x), cs, now),
{
    let s2 = ss.push(x);
    assert forall|i: int| 0 <= i < ss.len() implies s2[i] == ss[i] by {}
    assert forall|j: int|
        0 <= j < s2.len() && (#[trigger] s2[j]).plugin_time is Some && s2[j].wait_duration_s > 0 implies exists|i: int|
        0 <= i < s2.len() && (#[trigger] s2[i]).plugin_time is Some && s2[i].charger_id == s2[j].charger_id
            && s2[i].unplug_time == s2[j].plugin_time by {
        assert(s2[j] == ss[j]);
        let i = choose|i: int|
            0 <= i < ss.len() && (#[trigger] ss[i]).plugin_time is Some && ss[i].charger_id == ss[j].charger_id
                && ss[i].unplug_time == ss[j].plugin_time;
        assert(s2[i] == ss[i]);
    }
}

/// The waiting vehicles of `w` have arrived by `now`, in order, and no
/// vehicle of `ss` that charged arrived after one of them.
spec fn queue_timely(vs: Seq<crate::ev::Vehicle>, w: Seq<Id>, ss: Seq<Session>, now: u64) -> bool {
    &&& forall|m: int| 0 <= m < w.len() ==> arrival_of_id(vs, #[trigger] w[m]) <= now
    &&& forall|m: int, n: int|
        0 <= m < n < w.len() ==> arrival_of_id(vs, #[trigger] w[m]) <= arrival_of_id(vs, #[trigger] w[n])
    &&& forall|i: int, m: int|
        0 <= i < ss.len() && 0 <= m < w.len() && (#[trigger] ss[i]).plugin_time is Some ==> ss[i].arrival_time
            <= arrival_of_id(vs, #[trigger] w[m])
}

/// Taking a vehicle out of the queue keeps it timely.
proof fn lemma_queue_remove(vs: Seq<crate::ev::Vehicle>, w: Seq<Id>, ss: Seq<Session>, now: u64, i0: int)
    requires
        queue_timely(vs, w, ss, now),
        0 <= i0 < w.len(),
    ensures
        queue_timely(vs, w.remove(i0), ss, now),
{
    let w2 = w.remove(i0);
    assert forall|m: int| 0 <= m < w2.len() implies w2[m] == w[if m < i0 { m } else { m + 1 }] by {}
    assert forall|m: int, n: int| 0 <= m < n < w2.len() implies arrival_of_id(vs, #[trigger] w2[m]) <= arrival_of_id(
        vs,
        #[trigger] w2[n],
    ) by {
        let a = if m < i0 { m } else { m + 1 };
        let b = if n < i0 { n } else { n + 1 };
        assert(w2[m] == w[a] && w2[n] == w[b]);
    }
    assert forall|i: int, m: int|
        0 <= i < ss.len() && 0 <= m < w2.len() && (#[trigger] ss[i]).plugin_time is Some implies ss[i].arrival_time
        <= arrival_of_id(vs, #[trigger] w2[m]) by {
        let a = if m < i0 { m } else { m + 1 };
        assert(w2[m] == w[a]);
    }
}

/// Recording a session that never charged keeps the queue timely.
proof fn lemma_queue_push_unserved(vs: Seq<crate::ev::Vehicle>, w: Seq<Id>, ss: Seq<Session>, now: u64, x: Session)
    requires
        queue_timely(vs, w, ss, now),
        x.plugin_time is None,
    ensures
        queue_timely(vs, w, ss.push(x), now),
{
    assert forall|i: int, m: int|
        0 <= i < ss.push(x).len() && 0 <= m < w.len() && (#[trigger] ss.push(x)[i]).plugin_time is Some implies ss.push(
        x,
    )[i].arrival_time <= arrival_of_id(vs, #[trigger] w[m]) by {
        assert(ss.push(x)[i] == ss[i]);
    }
}

/// Handling one due event (an arrival or a renege) keeps the timeline.
pub proof fn lemma_ts_due_event(
    s0: Simulation,
    p: Simulation,
    e: crate::events::Event,
    s1: Simulation,
    r: Option<StartedSession>,
    now: u64,
)
    requires
        consistent(s0),
        ts_timeline(s0, now),
        due_event_step(s0, p, e, s1, r, now),
    ensures
        ts_timeline(s1, now),
{
    let vs = s0.vehicle_list@;
    let q0 = s0.event_queue@;
    let q1 = p.event_queue@;
    let w0 = s0.waiting_queue@;
    let ss0 = s0.sessions@;
    let cs0 = s0.site.chargers@;
    let cs1 = s1.site.chargers@;
    let k = choose|k: int| is_next(q0, k) && q0[k] == e && q1 == q0.remove(k);
    assert(now <= q0[k].time);
    assert(e.time == now);
    assert forall|m: int| 0 <= m < q1.len() implies now <= (#[trigger] q1[m]).time by {
        if m < k {
            assert(q1[m] == q0[m]);
        } else {
            assert(q1[m] == q0[m + 1]);
        }
    }
    let x0 = e.vehicle_id;
    assert(lookup(vs, q0[k].vehicle_id) is Some);
    lemma_lookup_id(vs, x0);
    let v = lookup(vs, x0)->0;
    assert(v.arrival_time == e.time || e.event_type != EventType::Arrival);
    let res = Ok::<Option<StartedSession>, SimulationError>(r);
    crate::simulation::timestep::lemma_event_keeps_no_idle_wait(p, e, s1, res);
    assert(queue_timely(vs, w0, ss0, now));
    if e.event_type == EventType::Arrival {
        match first_free(cs0) {
            Some(i) => {
                assert(is_first_free(cs0, i));
                assert(w0.len() == 0);
                let b = crate::session::plugged_session(now, None, v, cs0[i]);
                let ss1 = s1.sessions@;
                assert(ss1 == ss0.push(b));
                assert forall|m: int| 0 <= m < ss0.len() implies ss1[m] == ss0[m] by {}
                assert(ss1[ss0.len() as int] == b);
                assert(charger_ids(cs1) =~= charger_ids(cs0));
                assert forall|c: Id| #[trigger] charger_position(cs1, c) == charger_position(cs0, c) by {}
                crate::simulation::accounting::lemma_charger_position_distinct(cs0, i);
                // No session is open at the free charger.
                assert forall|a: int| 0 <= a < ss0.len() && is_open(#[trigger] ss0[a]) implies ss0[a].charger_id
                    != Some(cs0[i].id) by {
                    if ss0[a].charger_id == Some(cs0[i].id) {
                        assert(charger_position(cs0, cs0[i].id) == Some(i));
                    }
                }
                assert(session_times(ss1, now)) by {
                    assert forall|a: int| 0 <= a < ss1.len() && (#[trigger] ss1[a]).plugin_time is Some implies {
                        let pp = ss1[a].plugin_time->0;
                        &&& ss1[a].charger_id is Some
                        &&& ss1[a].arrival_time <= pp <= now
                        &&& ss1[a].wait_duration_s == pp - ss1[a].arrival_time
                        &&& ss1[a].unplug_time matches Some(u) ==> pp <= u <= now
                    } by {
                        if a < ss0.len() {
                            assert(ss1[a] == ss0[a]);
                        }
                    }
                }
                assert forall|a: int| 0 <= a < ss1.len() && is_open(#[trigger] ss1[a]) implies (charger_position(
                    cs1,
                    ss1[a].charger_id->0,
                ) matches Some(j) && cs1[j].is_busy) by {
                    if a < ss0.len() {
                        assert(ss1[a] == ss0[a]);
                    }
                }
                assert forall|a: int, c: int| 0 <= a < c < ss1.len() && is_open(#[trigger] ss1[a]) && is_open(
                    #[trigger] ss1[c],
                ) implies ss1[a].charger_id != ss1[c].charger_id by {
                    assert(ss1[a] == ss0[a]);
                    if c < ss0.len() {
                        assert(ss1[c] == ss0[c]);
                    }
                }
                assert forall|a: int, c: int|
                    0 <= a < c < ss1.len() && (#[trigger] ss1[a]).plugin_time is Some && (#[trigger] ss1[c]).plugin_time is Some
                        && ss1[a].charger_id == ss1[c].charger_id implies (ss1[a].unplug_time matches Some(u) && u
                    <= ss1[c].plugin_time->0) by {
                    assert(ss1[a] == ss0[a]);
                    if c < ss0.len() {
                        assert(ss1[c] == ss0[c]);
                    }
                }
                assert forall|c: int|
                    0 <= c < ss1.len() && (#[trigger] ss1[c]).plugin_time is Some && ss1[c].wait_duration_s > 0 implies exists|a: int|
                    0 <= a < ss1.len() && (#[trigger] ss1[a]).plugin_time is Some && ss1[a].charger_id == ss1[c].charger_id
                        && ss1[a].unplug_time == ss1[c].plugin_time by {
                    assert(ss1[c] == ss0[c]);
                    let a = choose|a: int|
                        0 <= a < ss0.len() && (#[trigger] ss0[a]).plugin_time is Some && ss0[a].charger_id
                            == ss0[c].charger_id && ss0[a].unplug_time == ss0[c].plugin_time;
                    assert(ss1[a] == ss0[a]);
                }
                assert forall|a: int, c: int|
                    0 <= a < ss1.len() && 0 <= c < ss1.len() && (#[trigger] ss1[a]).plugin_time is Some
                        && (#[trigger] ss1[c]).plugin_time is Some && ss1[a].arrival_time < ss1[c].arrival_time
                        implies ss1[a].plugin_time->0 <= ss1[c].plugin_time->0 by {
                    if a < ss0.len() {
                        assert(ss1[a] == ss0[a]);
                    }
                    if c < ss0.len() {
                        assert(ss1[c] == ss0[c]);
                    }
                }
            },
            None => {
                if w0.len() >= v.max_queue_length {
                    let x = crate::session::unserved_session(e.time, v, false);
                    lemma_record_push_unserved(ss0, cs0, now, x);
                    lemma_queue_push_unserved(vs, w0, ss0, now, x);
                } else {
                    let w1 = s1.waiting_queue@;
                    assert(w1 == w0.push(x0));
                    assert forall|m: int| 0 <= m < w0.len() implies w1[m] == w0[m] by {}
                    assert(w1[w0.len() as int] == x0);
                    assert(arrival_of_id(vs, x0) == now);
                    assert forall|m: int, n: int| 0 <= m < n < w1.len() implies arrival_of_id(vs, #[trigger] w1[m])
                        <= arrival_of_id(vs, #[trigger] w1[n]) by {
                        assert(w1[m] == w0[m]);
                        if n < w0.len() {
                            assert(w1[n] == w0[n]);
                        }
                    }
                    assert forall|m: int| 0 <= m < w1.len() implies arrival_of_id(vs, #[trigger] w1[m]) <= now by {
                        if m < w0.len() {
                            assert(w1[m] == w0[m]);
                        }
                    }
                    assert forall|i: int, m: int|
                        0 <= i < ss0.len() && 0 <= m < w1.len() && (#[trigger] ss0[i]).plugin_time is Some implies ss0[i].arrival_time
                        <= arrival_of_id(vs, #[trigger] w1[m]) by {
                        if m < w0.len() {
                            assert(w1[m] == w0[m]);
                        }
                    }
                }
            },
        }
    } else {
        if w0.contains(x0) {
            crate::containers::waiting_queue::lemma_first_index_exists(w0, x0);
            let i0 = choose|i: int| is_first_index(w0, x0, i);
            let x = crate::session::unserved_session(e.time, v, true);
            lemma_record_push_unserved(ss0, cs0, now, x);
            lemma_queue_remove(vs, w0, ss0, now, i0);
            lemma_queue_push_unserved(vs, w0.remove(i0), ss0, now, x);
        }
    }
}

/// Finishing the charging at charger `cid`, whose open session is at
/// `idx`, and starting the next queued vehicle there keeps the timeline.
pub proof fn lemma_ts_finish_start(
    s0: Simulation,
    cid: Id,
    idx: usize,
    now: u64,
    m: Simulation,
    t: Simulation,
    r: Option<StartedSession>,
)
    requires
        consistent(s0),
        ts_timeline(s0, now),
        finish_start_step(s0, cid, idx, now, m, t, r),
        idx < s0.sessions@.len(),
        is_open(s0.sessions@[idx as int]),
        s0.sessions@[idx as int].charger_id == Some(cid),
    ensures
        ts_timeline(t, now),
{
    let vs = s0.vehicle_list@;
    let w0 = s0.waiting_queue@;
    let ss0 = s0.sessions@;
    let cs0 = s0.site.chargers@;
    let csm = m.site.chargers@;
    let cst = t.site.chargers@;
    let ssm = m.sessions@;
    let old_s = ss0[idx as int];
    let closed = Session { unplug_time: Some(now), ..old_s };
    assert(ssm == ss0.update(idx as int, closed));
    let j = charger_position(cs0, cid)->0;
    assert(charger_ids(cs0)[j] == cid);
    assert(cs0[j].id == cid);
    assert(cs0[j].is_busy);
    crate::simulation::accounting::lemma_charger_position_distinct(cs0, j);
    assert(charger_ids(csm) =~= charger_ids(cs0));
    assert(charger_ids(cst) =~= charger_ids(cs0));
    assert forall|c: Id| #[trigger] charger_position(csm, c) == charger_position(cs0, c) by {}
    assert forall|c: Id| #[trigger] charger_position(cst, c) == charger_position(cs0, c) by {}
    crate::simulation::timestep::lemma_finish_then_start_keeps_no_idle_wait(
        s0,
        cid,
        idx as int,
        now,
        m,
        Ok::<(), SimulationError>(()),
        t,
        Ok::<Option<StartedSession>, SimulationError>(r),
    );
    assert forall|a: int| 0 <= a < ss0.len() && a != idx implies ssm[a] == ss0[a] by {}
    assert(ssm[idx as int] == closed);
    // The other open sessions are at other chargers, which stay busy.
    assert forall|a: int| 0 <= a < ss0.len() && a != idx && is_open(#[trigger] ss0[a]) implies (ss0[a].charger_id != Some(
        cid,
    ) && (charger_position(cs0, ss0[a].charger_id->0) matches Some(j2) && j2 != j && cs0[j2].is_busy)) by {
        if a < idx {
            assert(ss0[a].charger_id != ss0[idx as int].charger_id);
        } else {
            assert(ss0[idx as int].charger_id != ss0[a].charger_id);
        }
        let j2 = charger_position(cs0, ss0[a].charger_id->0)->0;
        assert(charger_ids(cs0)[j2] == ss0[a].charger_id->0);
    }
    // No session at `cid` after the open one charged.
    assert forall|c: int| idx < c < ss0.len() && (#[trigger] ss0[c]).plugin_time is Some implies ss0[c].charger_id
        != Some(cid) by {
        if ss0[c].charger_id == Some(cid) {
            assert(ss0[idx as int].plugin_time is Some);
        }
    }
    // The sessions once the charging is finished.
    assert(session_record(ssm, csm, now)) by {
        assert forall|a: int| 0 <= a < ssm.len() && (#[trigger] ssm[a]).plugin_time is Some implies {
            let pp = ssm[a].plugin_time->0;
            &&& ssm[a].charger_id is Some
            &&& ssm[a].arrival_time <= pp <= now
            &&& ssm[a].wait_duration_s == pp - ssm[a].arrival_time
            &&& ssm[a].unplug_time matches Some(u) ==> pp <= u <= now
        } by {
            if a != idx {
                assert(ssm[a] == ss0[a]);
            } else {
                assert(ss0[a].plugin_time is Some);
            }
        }
        assert forall|a: int| 0 <= a < ssm.len() && is_open(#[trigger] ssm[a]) implies (charger_position(
            csm,
            ssm[a].charger_id->0,
        ) matches Some(j2) && csm[j2].is_busy) by {
            assert(ssm[a] == ss0[a]);
        }
        assert forall|a: int, c: int| 0 <= a < c < ssm.len() && is_open(#[trigger] ssm[a]) && is_open(
            #[trigger] ssm[c],
        ) implies ssm[a].charger_id != ssm[c].charger_id by {
            assert(ssm[a] == ss0[a] && ssm[c] == ss0[c]);
        }
        assert forall|a: int, c: int|
            0 <= a < c < ssm.len() && (#[trigger] ssm[a]).plugin_time is Some && (#[trigger] ssm[c]).plugin_time is Some
                && ssm[a].charger_id == ssm[c].charger_id implies (ssm[a].unplug_time matches Some(u) && u
            <= ssm[c].plugin_time->0) by {
            if a == idx {
                assert(ssm[c] == ss0[c]);
            } else if c == idx {
                assert(ssm[a] == ss0[a]);
                assert(ss0[c].plugin_time is Some);
            } else {
                assert(ssm[a] == ss0[a] && ssm[c] == ss0[c]);
            }
        }
        assert forall|c: int|
            0 <= c < ssm.len() && (#[trigger] ssm[c]).plugin_time is Some && ssm[c].wait_duration_s > 0 implies exists|a: int|
            0 <= a < ssm.len() && (#[trigger] ssm[a]).plugin_time is Some && ssm[a].charger_id == ssm[c].charger_id
                && ssm[a].unplug_time == ssm[c].plugin_time by {
            assert(ss0[c].plugin_time is Some);
            assert(ss0[c].wait_duration_s == ssm[c].wait_duration_s);
            let a = choose|a: int|
                0 <= a < ss0.len() && (#[trigger] ss0[a]).plugin_time is Some && ss0[a].charger_id == ss0[c].charger_id
                    && ss0[a].unplug_time == ss0[c].plugin_time;
            assert(a != idx);
            assert(ssm[a] == ss0[a]);
        }
        assert forall|a: int, c: int|
            0 <= a < ssm.len() && 0 <= c < ssm.len() && (#[trigger] ssm[a]).plugin_time is Some
                && (#[trigger] ssm[c]).plugin_time is Some && ssm[a].arrival_time < ssm[c].arrival_time
                implies ssm[a].plugin_time->0 <= ssm[c].plugin_time->0 by {
            assert(ss0[a].plugin_time is Some && ss0[c].plugin_time is Some);
        }
    }
    assert(queue_timely(vs, w0, ssm, now)) by {
        assert forall|i: int, n: int|
            0 <= i < ssm.len() && 0 <= n < w0.len() && (#[trigger] ssm[i]).plugin_time is Some implies ssm[i].arrival_time
            <= arrival_of_id(vs, #[trigger] w0[n]) by {
            assert(ss0[i].plugin_time is Some);
        }
    }
    if w0.len() > 0 {
        let y = w0[0];
        assert(lookup(vs, y) is Some);
        lemma_lookup_id(vs, y);
        let v = lookup(vs, y)->0;
        let b = crate::session::plugged_session(now, None, v, csm[j]);
        let sst = t.sessions@;
        let wt = t.waiting_queue@;
        assert(sst == ssm.push(b));
        assert(wt == w0.drop_first());
        assert forall|a: int| 0 <= a < ssm.len() implies sst[a] == ssm[a] by {}
        assert(sst[ssm.len() as int] == b);
        assert(b.charger_id == Some(cid));
        assert(arrival_of_id(vs, y) <= now);
        assert forall|a: int| 0 <= a < ssm.len() && (#[trigger] ssm[a]).plugin_time is Some implies ssm[a].arrival_time
            <= b.arrival_time by {
            assert(ssm[a].arrival_time <= arrival_of_id(vs, w0[0]));
        }
        // No session is open at `cid` once its charging is finished.
        assert forall|a: int| 0 <= a < ssm.len() && is_open(#[trigger] ssm[a]) implies ssm[a].charger_id != Some(cid) by {
            assert(ssm[a] == ss0[a]);
        }
        assert(session_times(sst, now)) by {
            assert forall|a: int| 0 <= a < sst.len() && (#[trigger] sst[a]).plugin_time is Some implies {
                let pp = sst[a].plugin_time->0;
                &&& sst[a].charger_id is Some
                &&& sst[a].arrival_time <= pp <= now
                &&& sst[a].wait_duration_s == pp - sst[a].arrival_time
                &&& sst[a].unplug_time matches Some(u) ==> pp <= u <= now
            } by {
                if a < ssm.len() {
                    assert(sst[a] == ssm[a]);
                }
            }
        }
        assert forall|a: int| 0 <= a < sst.len() && is_open(#[trigger] sst[a]) implies (charger_position(
            cst,
            sst[a].charger_id->0,
        ) matches Some(j2) && cst[j2].is_busy) by {
            if a < ssm.len() {
                assert(sst[a] == ssm[a]);
            }
        }
        assert forall|a: int, c: int| 0 <= a < c < sst.len() && is_open(#[trigger] sst[a]) && is_open(
            #[trigger] sst[c],
        ) implies sst[a].charger_id != sst[c].charger_id by {
            assert(sst[a] == ssm[a]);
            if c < ssm.len() {
                assert(sst[c] == ssm[c]);
            }
        }
        assert forall|a: int, c: int|
            0 <= a < c < sst.len() && (#[trigger] sst[a]).plugin_time is Some && (#[trigger] sst[c]).plugin_time is Some
                && sst[a].charger_id == sst[c].charger_id implies (sst[a].unplug_time matches Some(u) && u
            <= sst[c].plugin_time->0) by {
            assert(sst[a] == ssm[a]);
            if c < ssm.len() {
                assert(sst[c] == ssm[c]);
            }
        }
        assert forall|c: int|
            0 <= c < sst.len() && (#[trigger] sst[c]).plugin_time is Some && sst[c].wait_duration_s > 0 implies exists|a: int|
            0 <= a < sst.len() && (#[trigger] sst[a]).plugin_time is Some && sst[a].charger_id == sst[c].charger_id
                && sst[a].unplug_time == sst[c].plugin_time by {
            if c < ssm.len() {
                assert(sst[c] == ssm[c]);
                let a = choose|a: int|
                    0 <= a < ssm.len() && (#[trigger] ssm[a]).plugin_time is Some && ssm[a].charger_id
                        == ssm[c].charger_id && ssm[a].unplug_time == ssm[c].plugin_time;
                assert(sst[a] == ssm[a]);
            } else {
                assert(sst[idx as int] == closed);
            }
        }
        assert forall|a: int, c: int|
            0 <= a < sst.len() && 0 <= c < sst.len() && (#[trigger] sst[a]).plugin_time is Some
                && (#[trigger] sst[c]).plugin_time is Some && sst[a].arrival_time < sst[c].arrival_time
                implies sst[a].plugin_time->0 <= sst[c].plugin_time->0 by {
            if a < ssm.len() {
                assert(sst[a] == ssm[a]);
            }
            if c < ssm.len() {
                assert(sst[c] == ssm[c]);
            }
        }
        assert forall|n: int| 0 <= n < wt.len() implies wt[n] == w0[n + 1] by {}
        assert forall|n: int| 0 <= n < wt.len() implies arrival_of_id(vs, #[trigger] wt[n]) <= now by {
            assert(wt[n] == w0[n + 1]);
        }
        assert forall|n: int, o: int| 0 <= n < o < wt.len() implies arrival_of_id(vs, #[trigger] wt[n])
            <= arrival_of_id(vs, #[trigger] wt[o]) by {
            assert(wt[n] == w0[n + 1] && wt[o] == w0[o + 1]);
        }
        assert forall|i: int, n: int|
            0 <= i < sst.len() && 0 <= n < wt.len() && (#[trigger] sst[i]).plugin_time is Some implies sst[i].arrival_time
            <= arrival_of_id(vs, #[trigger] wt[n]) by {
            assert(wt[n] == w0[n + 1]);
            assert(arrival_of_id(vs, w0[0]) <= arrival_of_id(vs, w0[n + 1]));
            if i < ssm.len() {
                assert(sst[i] == ssm[i]);
            }
        }
    }
}

/// Each finished charger of `finished` is named once, with the position of
/// its open session.
pub open spec fn finishes_open(s: Simulation, finished: Seq<(Id, usize)>) -> bool {
    &&& forall|k: int|
        0 <= k < finished.len() ==> (#[trigger] finished[k]).1 < s.sessions@.len() && is_open(
            s.sessions@[finished[k].1 as int],
        ) && s.sessions@[finished[k].1 as int].charger_id == Some(finished[k].0)
    &&& forall|k: int, l: int| 0 <= k < l < finished.len() ==> (#[trigger] finished[k]).0 != (#[trigger] finished[l]).0
}

/// Handling due events, in turn, keeps a consistent simulation consistent
/// and keeps its timeline.
proof fn lemma_due_trace(
    tr: Seq<Simulation>,
    ps: Seq<Simulation>,
    es: Seq<crate::events::Event>,
    rs: Seq<Option<StartedSession>>,
    now: u64,
    n: int,
)
    requires
        due_events_handled(tr, ps, es, rs, now),
        consistent(tr[0]),
        ts_timeline(tr[0], now),
        0 <= n <= es.len(),
    ensures
        consistent(tr[n]),
        ts_timeline(tr[n], now),
    decreases n,
{
    if n > 0 {
        lemma_due_trace(tr, ps, es, rs, now, n - 1);
        let k = n - 1;
        assert(due_event_step(tr[k], ps[k], es[k], tr[k + 1], rs[k], now));
        let res = Ok::<Option<StartedSession>, SimulationError>(rs[k]);
        assert(no_start(res) == Ok::<Option<crate::simulation::ChargeStart>, SimulationError>(None));
        lemma_timestep_event_keeps(tr[k], es[k], ps[k], tr[k + 1], res);
        lemma_ts_due_event(tr[k], ps[k], es[k], tr[k + 1], rs[k], now);
    }
}

/// Finishing chargers in turn, each named once with its open session, and
/// starting the next queued vehicle at each, once no event is due, keeps a
/// consistent simulation consistent and keeps its timeline.
proof fn lemma_finish_trace(
    tr: Seq<Simulation>,
    ms: Seq<Simulation>,
    rs: Seq<Option<StartedSession>>,
    finished: Seq<(Id, usize)>,
    now: u64,
    n: int,
)
    requires
        finished_in_turn(tr, ms, rs, finished, now),
        consistent(tr[0]),
        ts_timeline(tr[0], now),
        finishes_open(tr[0], finished),
        forall|i: int| 0 <= i < tr[0].event_queue@.len() ==> now < #[trigger] tr[0].event_queue@[i].time,
        0 <= n <= finished.len(),
    ensures
        consistent(tr[n]),
        ts_timeline(tr[n], now),
        tr[n].event_queue == tr[0].event_queue,
        tr[0].sessions@.len() <= tr[n].sessions@.len(),
        forall|l: int|
            n <= l < finished.len() ==> tr[n].sessions@[(#[trigger] finished[l]).1 as int]
                == tr[0].sessions@[finished[l].1 as int],
    decreases n,
{
    if n > 0 {
        lemma_finish_trace(tr, ms, rs, finished, now, n - 1);
        let k = n - 1;
        let s0 = tr[k];
        let m = ms[k];
        let t = tr[k + 1];
        let cid = finished[k].0;
        let idx = finished[k].1;
        assert(finish_start_step(s0, cid, idx, now, m, t, rs[k]));
        assert(s0.sessions@[idx as int] == tr[0].sessions@[idx as int]);
        lemma_timestep_finish_keeps(s0, cid, idx as int, now, m, Ok::<(), SimulationError>(()));
        let j = charger_position(s0.site.chargers@, cid)->0;
        assert(charger_ids(m.site.chargers@) =~= charger_ids(s0.site.chargers@));
        assert(charger_position(m.site.chargers@, cid) == charger_position(s0.site.chargers@, cid));
        lemma_timestep_start_next_keeps(m, cid, now, t, Ok::<Option<StartedSession>, SimulationError>(rs[k]));
        lemma_ts_finish_start(s0, cid, idx, now, m, t, rs[k]);
        assert forall|l: int| n <= l < finished.len() implies t.sessions@[(#[trigger] finished[l]).1 as int]
            == tr[0].sessions@[finished[l].1 as int] by {
            assert(finished[k].0 != finished[l].0);
            assert(s0.sessions@[finished[l].1 as int] == tr[0].sessions@[finished[l].1 as int]);
            assert(finished[l].1 != idx);
        }
    }
}

/// One operation of a time-step run, taking `s` at clock `now` to `t` at
/// clock `now2`: handling the due events; or, once no event is due,
/// finishing chargers (each named once with its open session) and starting
/// the next queued vehicle at each; or, once no event is due, advancing the
/// clock by one second.
pub open spec fn ts_op(s: Simulation, now: u64, t: Simulation, now2: u64) -> bool {
    ||| now2 == now && exists|
        tr: Seq<Simulation>,
        ps: Seq<Simulation>,
        es: Seq<crate::events::Event>,
        rs: Seq<Option<StartedSession>>,
    | #[trigger] due_events_handled(tr, ps, es, rs, now) && tr[0] == s && tr.last() == t
    ||| now2 == now && (forall|i: int| 0 <= i < s.event_queue@.len() ==> now < #[trigger] s.event_queue@[i].time)
        && exists|finished: Seq<(Id, usize)>, tr: Seq<Simulation>, ms: Seq<Simulation>, rs: Seq<Option<StartedSession>>|
        #[trigger] finished_in_turn(tr, ms, rs, finished, now) && finishes_open(s, finished) && tr[0] == s
            && tr.last() == t
    ||| t == s && now < u64::MAX && now2 == now + 1 && (forall|i: int|
        0 <= i < s.event_queue@.len() ==> now < #[trigger] s.event_queue@[i].time)
}

/// `states`, at `clocks`, is a time-step run: each follows the one before
/// by one operation.
pub open spec fn ts_run(states: Seq<Simulation>, clocks: Seq<u64>) -> bool {
    &&& states.len() >= 1
    &&& clocks.len() == states.len()
    &&& forall|i: int| 0 <= i < states.len() - 1 ==> #[trigger] ts_op(states[i], clocks[i], states[i + 1], clocks[i + 1])
}

/// The laws of a whole time-step run from a consistent new simulation whose
/// chargers have distinct IDs: at every point the sessions that charged
/// were plugged in after arrival and unplugged after plug-in, no two
/// overlap on a charger, a vehicle that waited was plugged in when its
/// charger was freed, and vehicles were plugged in first come, first
/// served; once no event is left, every vehicle has exactly one session.
pub proof fn lemma_ts_run(states: Seq<Simulation>, clocks: Seq<u64>)
    requires
        ts_run(states, clocks),
        consistent(states[0]),
        distinct_charger_ids(states[0].site.chargers@),
        states[0].waiting_queue@.len() == 0,
        states[0].sessions@.len() == 0,
        clocks[0] == 0,
    ensures
        consistent(states.last()),
        ts_timeline(states.last(), clocks.last()),
        session_times(states.last().sessions@, clocks.last()),
        no_overlap(states.last().sessions@),
        plugged_at_freeing(states.last().sessions@),
        first_come_first_served(states.last().sessions@),
        states.last().event_queue@.len() == 0 ==> forall|m: int|
            0 <= m < states.last().vehicle_list@.len() ==> #[trigger] sessions_of(
                states.last(),
                states.last().vehicle_list@[m].id,
            ) == 1,
{
    lemma_ts_timeline_initially(states[0]);
    lemma_ts_run_prefix(states, clocks, states.len() - 1);
    if states.last().event_queue@.len() == 0 {
        lemma_one_session_per_vehicle(states.last());
    }
}

/// The laws hold at each point of a time-step run.
proof fn lemma_ts_run_prefix(states: Seq<Simulation>, clocks: Seq<u64>, n: int)
    requires
        ts_run(states, clocks),
        consistent(states[0]),
        ts_timeline(states[0], clocks[0]),
        0 <= n < states.len(),
    ensures
        consistent(states[n]),
        ts_timeline(states[n], clocks[n]),
    decreases n,
{
    if n > 0 {
        lemma_ts_run_prefix(states, clocks, n - 1);
        let i = n - 1;
        let s = states[i];
        let t = states[n];
        let now = clocks[i];
        assert(ts_op(states[i], clocks[i], states[i + 1], clocks[i + 1]));
        assert(states[i + 1] == t && clocks[i + 1] == clocks[n]);
        if exists|tr: Seq<Simulation>, ps: Seq<Simulation>, es: Seq<crate::events::Event>, rs: Seq<Option<StartedSession>>|
            #[trigger] due_events_handled(tr, ps, es, rs, now) && tr[0] == s && tr.last() == t && clocks[n] == now {
            let (tr, ps, es, rs) = choose|
                tr: Seq<Simulation>,
                ps: Seq<Simulation>,
                es: Seq<crate::events::Event>,
                rs: Seq<Option<StartedSession>>,
            | #[trigger] due_events_handled(tr, ps, es, rs, now) && tr[0] == s && tr.last() == t && clocks[n] == now;
            lemma_due_trace(tr, ps, es, rs, now, es.len() as int);
        } else if clocks[n] == now && (forall|k: int| 0 <= k < s.event_queue@.len() ==> now < #[trigger] s.event_queue@[k].time)
            && exists|finished: Seq<(Id, usize)>, tr: Seq<Simulation>, ms: Seq<Simulation>, rs: Seq<Option<StartedSession>>|
            #[trigger] finished_in_turn(tr, ms, rs, finished, now) && finishes_open(s, finished) && tr[0] == s
                && tr.last() == t {
            let (finished, tr, ms, rs) = choose|
                finished: Seq<(Id, usize)>,
                tr: Seq<Simulation>,
                ms: Seq<Simulation>,
                rs: Seq<Option<StartedSession>>,
            | #[trigger] finished_in_turn(tr, ms, rs, finished, now) && finishes_open(s, finished) && tr[0] == s
                && tr.last() == t;
            lemma_finish_trace(tr, ms, rs, finished, now, finished.len() as int);
        } else {
            lemma_ts_timeline_advance(s, now);
        }
    }
}

} // verus!
