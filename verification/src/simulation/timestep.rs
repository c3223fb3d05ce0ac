//! The time-step charging simulation.
//!
//! Time advances one second at a time. In each step the events that are
//! due are handled one by one; arriving vehicles start charging at once
//! where a charger is free. The charging itself (power sharing, state of
//! charge, energy) is computed in floating point beside the simulation,
//! which is told when a vehicle has finished (`finish_charging`) and then
//! starts the next queued vehicle at that charger (`start_next`);
//! `handle_due_events` and `finish_and_start_next` do these in turn, each
//! stating the steps it took. With chargers of distinct IDs, they keep the
//! timeline of `timestep_timeline`, whose `lemma_ts_run` states the laws of
//! any run made of these operations.

use crate::containers::event_queue::pops;
use crate::containers::vehicle_list::{arrival_events, lemma_arrival_events_no_unplug, lookup, renege_times_fit};
use crate::containers::VehicleList;
use crate::errors::SimulationError;
use crate::events::{Event, EventType};
use crate::evse::charger::Charger;
use crate::evse::site::{charger_position, first_free, lemma_site_wf_same_ids};
use crate::evse::Site;
use crate::ids::{id_to_string, uuid_text, Id};
use crate::session::{plugged_session, Session};
use crate::simulation::accounting::{
    consistent, distinct_ids, lemma_charger_found, lemma_one_session_per_vehicle, lemma_timestep_event_keeps,
    lemma_timestep_finish_keeps, lemma_timestep_start_next_keeps, sessions_of,
};
use crate::simulation::accounting::distinct_charger_ids;
use crate::simulation::timestep_timeline::{
    finishes_open, lemma_ts_due_event, lemma_ts_finish_start, lemma_ts_timeline_advance, lemma_ts_timeline_initially,
    ts_timeline,
};
use crate::simulation::{joins_or_balks, no_idle_wait, renege_step, Simulation};
use vstd::prelude::*;

verus! {

/// A vehicle that has started charging: its charger and the position of
/// its session in the list of sessions.
#[derive(Debug, Clone, Copy, PartialEq, Eq, Structural)]
pub struct StartedSession {
    pub charger_id: Id,
    pub vehicle_id: Id,
    pub session_idx: usize,
}

/// `t` is `s` with the charger at position `i` now busy and session `session`
/// recorded; all else is unchanged.
pub open spec fn charger_taken(s: Simulation, i: int, session: Session, t: Simulation) -> bool {
    &&& t.site.id == s.site.id
    &&& t.site.name == s.site.name
    &&& t.site.charger_map == s.site.charger_map
    &&& t.site.chargers@ == s.site.chargers@.update(i, Charger { is_busy: true, ..s.site.chargers@[i] })
    &&& t.vehicle_list == s.vehicle_list
    &&& t.event_queue == s.event_queue
    &&& t.sessions@ == s.sessions@.push(session)
}

/// What an arrival does in the time-step simulation: as in the
/// discrete-event one, except that the vehicle starts charging at once at
/// the first free charger.
pub open spec fn timestep_arrival_step(
    s: Simulation,
    e: Event,
    t: Simulation,
    r: Result<Option<StartedSession>, SimulationError>,
) -> bool {
    match lookup(s.vehicle_list@, e.vehicle_id) {
        None => {
            &&& r matches Err(SimulationError::InvalidVehicleId(m)) && m@ == uuid_text(e.vehicle_id)
            &&& crate::simulation::only_queue_and_sessions(s, t, s.waiting_queue@, s.sessions@)
        },
        Some(v) => match first_free(s.site.chargers@) {
            Some(i) => {
                &&& r == Ok::<Option<StartedSession>, SimulationError>(
                    Some(
                        StartedSession {
                            charger_id: s.site.chargers@[i].id,
                            vehicle_id: e.vehicle_id,
                            session_idx: s.sessions@.len() as usize,
                        },
                    ),
                )
                &&& t.waiting_queue == s.waiting_queue
                &&& charger_taken(s, i, plugged_session(e.time, None, v, s.site.chargers@[i]), t)
            },
            None => r == Ok::<Option<StartedSession>, SimulationError>(None) && joins_or_balks(s, e, v, t),
        },
    }
}

/// What finishing the charging at charger `cid` at `now` does: the session
/// at `session_idx` is closed at `now` and the charger is freed. Fails,
/// changing nothing, if that session is not at charger `cid`; fails if it
/// never started, or if no charger has that ID.
pub open spec fn finish_step(s: Simulation, cid: Id, session_idx: int, now: u64, t: Simulation, r: Result<(), SimulationError>) -> bool {
    let session = s.sessions@[session_idx];
    if session.charger_id != Some(cid) {
        &&& r matches Err(SimulationError::InvalidChargerId(m)) && m@ == uuid_text(cid)
        &&& crate::simulation::only_queue_and_sessions(s, t, s.waiting_queue@, s.sessions@)
    } else if session.plugin_time is None {
        &&& r matches Err(SimulationError::MissingSessionPluginTime)
        &&& crate::simulation::only_queue_and_sessions(s, t, s.waiting_queue@, s.sessions@)
    } else {
        let sessions = s.sessions@.update(session_idx, Session { unplug_time: Some(now), ..session });
        match charger_position(s.site.chargers@, cid) {
            None => {
                &&& r matches Err(SimulationError::InvalidChargerId(m)) && m@ == uuid_text(cid)
                &&& crate::simulation::only_queue_and_sessions(s, t, s.waiting_queue@, sessions)
            },
            Some(j) => {
                &&& r is Ok
                &&& t.site.id == s.site.id
                &&& t.site.name == s.site.name
                &&& t.site.charger_map == s.site.charger_map
                &&& t.site.chargers@ == s.site.chargers@.update(j, Charger { is_busy: false, ..s.site.chargers@[j] })
                &&& t.vehicle_list == s.vehicle_list
                &&& t.event_queue == s.event_queue
                &&& t.waiting_queue == s.waiting_queue
                &&& t.sessions@ == sessions
            },
        }
    }
}

/// What starting the next queued vehicle at charger `cid` at `now` does: the
/// vehicle at the front of the queue leaves it and starts charging there.
pub open spec fn start_next_step(s: Simulation, cid: Id, now: u64, t: Simulation, r: Result<Option<StartedSession>, SimulationError>) -> bool {
    if s.waiting_queue@.len() == 0 {
        r == Ok::<Option<StartedSession>, SimulationError>(None) && crate::simulation::only_queue_and_sessions(
            s,
            t,
            s.waiting_queue@,
            s.sessions@,
        )
    } else {
        let next = s.waiting_queue@[0];
        let queue = s.waiting_queue@.drop_first();
        match lookup(s.vehicle_list@, next) {
            None => {
                &&& r matches Err(SimulationError::InvalidVehicleId(m)) && m@ == uuid_text(next)
                &&& crate::simulation::only_queue_and_sessions(s, t, queue, s.sessions@)
            },
            Some(v) => match charger_position(s.site.chargers@, cid) {
                None => {
                    &&& r matches Err(SimulationError::InvalidChargerId(m)) && m@ == uuid_text(cid)
                    &&& crate::simulation::only_queue_and_sessions(s, t, queue, s.sessions@)
                },
                Some(j) => {
                    &&& r == Ok::<Option<StartedSession>, SimulationError>(
                        Some(
                            StartedSession {
                                charger_id: cid,
                                vehicle_id: next,
                                session_idx: s.sessions@.len() as usize,
                            },
                        ),
                    )
                    &&& t.waiting_queue@ == queue
                    &&& charger_taken(s, j, plugged_session(now, None, v, s.site.chargers@[j]), t)
                },
            },
        }
    }
}

/// A result that starts no charging, as the discrete-event handlers give it.
pub open spec fn no_start(r: Result<Option<StartedSession>, SimulationError>) -> Result<Option<crate::simulation::ChargeStart>, SimulationError> {
    match r {
        Ok(_) => Ok(None),
        Err(x) => Err(x),
    }
}

/// The started sessions among `rs`, in order.
pub open spec fn somes(rs: Seq<Option<StartedSession>>) -> Seq<StartedSession>
    decreases rs.len(),
{
    if rs.len() == 0 {
        Seq::empty()
    } else {
        match rs.last() {
            Some(x) => somes(rs.drop_last()).push(x),
            None => somes(rs.drop_last()),
        }
    }
}

/// `t` follows `s` by handling the due event `e` (an arrival or a renege,
/// at or before `now`), which is taken first, giving `p`; `r` is the
/// vehicle that started charging, if any.
pub open spec fn due_event_step(s: Simulation, p: Simulation, e: Event, t: Simulation, r: Option<StartedSession>, now: u64) -> bool {
    &&& e.time <= now
    &&& e.event_type != EventType::Unplug
    &&& pops(s.event_queue@, e, p.event_queue@)
    &&& p == (Simulation { event_queue: p.event_queue, ..s })
    &&& e.event_type == EventType::Arrival ==> timestep_arrival_step(
        p,
        e,
        t,
        Ok::<Option<StartedSession>, SimulationError>(r),
    )
    &&& e.event_type == EventType::Renege ==> renege_step(
        p,
        e,
        t,
        Ok::<Option<crate::simulation::ChargeStart>, SimulationError>(None),
    ) && r is None
}

/// The states `tr` handle the due events `es` in turn (`ps` the states once
/// each is taken), with started vehicles `rs`.
pub open spec fn due_events_handled(
    tr: Seq<Simulation>,
    ps: Seq<Simulation>,
    es: Seq<Event>,
    rs: Seq<Option<StartedSession>>,
    now: u64,
) -> bool {
    &&& tr.len() == es.len() + 1
    &&& ps.len() == es.len()
    &&& rs.len() == es.len()
    &&& forall|k: int| 0 <= k < es.len() ==> #[trigger] due_event_step(tr[k], ps[k], es[k], tr[k + 1], rs[k], now)
}

/// `t` follows `s` by finishing the charging at charger `cid`, whose
/// session is at `idx`, at `now` (giving `m`), and then starting the next
/// queued vehicle there; `r` is the vehicle that started, if any.
pub open spec fn finish_start_step(s: Simulation, cid: Id, idx: usize, now: u64, m: Simulation, t: Simulation, r: Option<StartedSession>) -> bool {
    &&& finish_step(s, cid, idx as int, now, m, Ok::<(), SimulationError>(()))
    &&& start_next_step(m, cid, now, t, Ok::<Option<StartedSession>, SimulationError>(r))
}

/// The states `tr` finish each charger of `finished` in turn and start the
/// next queued vehicle there (`ms` the states once each is finished), with
/// started vehicles `rs`.
pub open spec fn finished_in_turn(
    tr: Seq<Simulation>,
    ms: Seq<Simulation>,
    rs: Seq<Option<StartedSession>>,
    finished: Seq<(Id, usize)>,
    now: u64,
) -> bool {
    &&& tr.len() == finished.len() + 1
    &&& ms.len() == finished.len()
    &&& rs.len() == finished.len()
    &&& forall|k: int|
        0 <= k < finished.len() ==> #[trigger] finish_start_step(
            tr[k],
            finished[k].0,
            finished[k].1,
            now,
            ms[k],
            tr[k + 1],
            rs[k],
        )
}

/// Finishing the charging at charger `cid` (session `idx`) at `now`, or
/// then starting the next queued vehicle there, failed with `x`, leaving
/// `t`.
pub open spec fn finish_start_failed(s: Simulation, cid: Id, idx: usize, now: u64, t: Simulation, x: SimulationError) -> bool {
    ||| finish_step(s, cid, idx as int, now, t, Err::<(), SimulationError>(x))
    ||| exists|m: Simulation|
        #[trigger] finish_step(s, cid, idx as int, now, m, Ok::<(), SimulationError>(())) && start_next_step(
            m,
            cid,
            now,
            t,
            Err::<Option<StartedSession>, SimulationError>(x),
        )
}

/// A time-step EV charging simulation.
#[derive(Debug)]
pub struct TimeStepSimulation {
    sim: Simulation,
    current_time: u64,
}

impl TimeStepSimulation {
    /// The state of the site, the vehicles, the pending events, the queue
    /// and the sessions.
    pub closed spec fn state(&self) -> Simulation {
        self.sim
    }

    /// The current simulation time (s).
    pub closed spec fn now(&self) -> u64 {
        self.current_time
    }

    /// The indexes are sound and no unplug event is pending (the time-step
    /// simulation schedules none).
    pub open spec fn wf(&self) -> bool {
        &&& self.state().wf()
        &&& forall|i: int| 0 <= i < self.state().event_queue@.len() ==> #[trigger] self.state().event_queue@[i].event_type != EventType::Unplug
    }

    /// Create a new simulation object at time 0: every vehicle's arrival and
    /// renege is scheduled, the queue is empty and no session is recorded.
    /// With vehicles of distinct IDs the simulation is consistent.
    pub fn new(site: Site, vehicle_list: VehicleList) -> (s: Self)
        requires
            renege_times_fit(vehicle_list@),
            site.wf(),
            vehicle_list.wf(),
        ensures
            s.wf(),
            s.now() == 0,
            s.state().site == site,
            s.state().vehicle_list == vehicle_list,
            s.state().event_queue@ == arrival_events(vehicle_list@),
            s.state().waiting_queue@ == Seq::<Id>::empty(),
            s.state().sessions@ == Seq::<Session>::empty(),
            distinct_ids(vehicle_list@) ==> consistent(s.state()),
            distinct_charger_ids(site.chargers@) ==> ts_timeline(s.state(), 0),
    {
        proof {
            lemma_arrival_events_no_unplug(vehicle_list@);
        }
        let s = TimeStepSimulation { sim: Simulation::new(site, vehicle_list), current_time: 0 };
        proof {
            if distinct_charger_ids(s.sim.site.chargers@) {
                lemma_ts_timeline_initially(s.sim);
            }
        }
        s
    }

    /// The current simulation time (s).
    pub fn current_time(&self) -> (t: u64)
        ensures
            t == self.now(),
    {
        self.current_time
    }

    /// The charging site.
    pub fn site(&self) -> (s: &Site)
        ensures
            *s == self.state().site,
    {
        &self.sim.site
    }

    /// The vehicles of the simulation.
    pub fn vehicle_list(&self) -> (l: &VehicleList)
        ensures
            *l == self.state().vehicle_list,
    {
        &self.sim.vehicle_list
    }

    /// Whether events are still pending.
    pub fn has_pending_events(&self) -> (b: bool)
        ensures
            b == (self.state().event_queue@.len() > 0),
    {
        !self.sim.event_queue.is_empty()
    }

    /// Whether vehicles are waiting in the queue.
    pub fn has_waiting_vehicles(&self) -> (b: bool)
        ensures
            b == (self.state().waiting_queue@.len() > 0),
    {
        !self.sim.waiting_queue.is_empty()
    }

    /// Take the next event if it is due (at or before the current time).
    pub fn pop_due_event(&mut self) -> (r: Option<Event>)
        requires
            old(self).wf(),
        ensures
            final(self).wf(),
            final(self).now() == old(self).now(),
            match r {
                None => {
                    &&& *final(self) == *old(self)
                    &&& forall|i: int| 0 <= i < old(self).state().event_queue@.len() ==> old(self).now() < #[trigger] old(self).state().event_queue@[i].time
                },
                Some(e) => {
                    &&& e.time <= old(self).now()
                    &&& pops(old(self).state().event_queue@, e, final(self).state().event_queue@)
                    &&& final(self).state() == (Simulation { event_queue: final(self).state().event_queue, ..old(self).state() })
                },
            },
    {
        let due = match self.sim.event_queue.peek() {
            Some(e) => e.time <= self.current_time,
            None => false,
        };
        proof {
            let q = old(self).state().event_queue@;
            if !due && q.len() > 0 {
                let k = choose|k: int| crate::containers::event_queue::is_next(q, k) && self.sim.event_queue@[k].time > old(self).now();
                assert forall|i: int| 0 <= i < q.len() implies old(self).now() < #[trigger] q[i].time by {
                    assert(q[k].time <= q[i].time);
                }
            }
        }
        if !due {
            return None;
        }
        let r = self.sim.event_queue.pop();
        proof {
            let e = r->0;
            let i = choose|i: int| crate::containers::event_queue::is_next(old(self).state().event_queue@, i) && old(self).state().event_queue@[i] == e && self.sim.event_queue@ == old(self).state().event_queue@.remove(i);
            let k = choose|k: int| crate::containers::event_queue::is_next(old(self).state().event_queue@, k);
            crate::containers::event_queue::lemma_next_is_unique(old(self).state().event_queue@, i, k);
            assert forall|j: int| 0 <= j < self.sim.event_queue@.len() implies #[trigger] self.sim.event_queue@[j].event_type != EventType::Unplug by {
                if j < i {
                    assert(self.sim.event_queue@[j] == old(self).state().event_queue@[j]);
                } else {
                    assert(self.sim.event_queue@[j] == old(self).state().event_queue@[j + 1]);
                }
            }
        }
        r
    }

    /// Handle an arrival or a renege that was taken from the event queue.
    /// Returns the vehicle that started charging, if any.
    pub fn handle_event(&mut self, e: &Event) -> (r: Result<Option<StartedSession>, SimulationError>)
        requires
            old(self).wf(),
            e.event_type != EventType::Unplug,
        ensures
            final(self).wf(),
            final(self).now() == old(self).now(),
            e.event_type == EventType::Arrival ==> timestep_arrival_step(old(self).state(), *e, final(self).state(), r),
            e.event_type == EventType::Renege ==> renege_step(old(self).state(), *e, final(self).state(), no_start(r))
                && !(r matches Ok(Some(_))),
    {
        match e.event_type {
            EventType::Arrival => self.handle_arrival(e),
            _ => {
                match self.sim.handle_renege(e) {
                    Ok(_) => Ok(None),
                    Err(er) => Err(er),
                }
            },
        }
    }

    fn handle_arrival(&mut self, e: &Event) -> (r: Result<Option<StartedSession>, SimulationError>)
        requires
            old(self).wf(),
        ensures
            final(self).wf(),
            final(self).now() == old(self).now(),
            timestep_arrival_step(old(self).state(), *e, final(self).state(), r),
    {
        let vehicle = self.sim.vehicle_list.get_vehicle(&e.vehicle_id)?;
        match self.sim.site.first_free_index() {
            Some(i) => {
                let ghost before = self.sim.site;
                let session_idx = self.sim.site.chargers[i].start_charging_timestep(
                    e.time,
                    vehicle,
                    &mut self.sim.sessions,
                );
                proof {
                    lemma_site_wf_same_ids(before, self.sim.site);
                }
                Ok(
                    Some(
                        StartedSession {
                            charger_id: self.sim.site.chargers[i].id,
                            vehicle_id: e.vehicle_id,
                            session_idx,
                        },
                    ),
                )
            },
            None => {
                if self.sim.waiting_queue.len() >= vehicle.max_queue_length {
                    self.sim.sessions.push(Session::balked(vehicle));
                } else {
                    self.sim.waiting_queue.push_back(e.vehicle_id);
                }
                Ok(None)
            },
        }
    }

    /// Finish the charging at charger `charger_id`, whose session is at
    /// `session_idx`: the session is closed at the current time and the
    /// charger is freed.
    pub fn finish_charging(&mut self, charger_id: &Id, session_idx: usize) -> (r: Result<(), SimulationError>)
        requires
            old(self).wf(),
            session_idx < old(self).state().sessions@.len(),
        ensures
            final(self).wf(),
            final(self).now() == old(self).now(),
            finish_step(old(self).state(), *charger_id, session_idx as int, old(self).now(), final(self).state(), r),
    {
        let belongs = match self.sim.sessions[session_idx].charger_id {
            Some(c) => c == *charger_id,
            None => false,
        };
        if !belongs {
            return Err(SimulationError::InvalidChargerId(id_to_string(*charger_id)));
        }
        let closed = self.sim.sessions[session_idx].finalize(self.current_time);
        if let Err(e) = closed {
            assert(self.sim.sessions@ =~= old(self).state().sessions@);
            return Err(e);
        }
        let j = self.sim.site.charger_position_of(charger_id)?;
        let ghost before = self.sim.site;
        self.sim.site.chargers[j].end_charging(self.current_time);
        proof {
            lemma_site_wf_same_ids(before, self.sim.site);
        }
        Ok(())
    }

    /// Start the vehicle at the front of the queue, if any, charging at
    /// charger `charger_id`.
    pub fn start_next(&mut self, charger_id: &Id) -> (r: Result<Option<StartedSession>, SimulationError>)
        requires
            old(self).wf(),
        ensures
            final(self).wf(),
            final(self).now() == old(self).now(),
            start_next_step(old(self).state(), *charger_id, old(self).now(), final(self).state(), r),
    {
        let next = match self.sim.waiting_queue.pop_front() {
            Some(id) => id,
            None => return Ok(None),
        };
        let vehicle = self.sim.vehicle_list.get_vehicle(&next)?;
        let j = self.sim.site.charger_position_of(charger_id)?;
        let ghost before = self.sim.site;
        let session_idx = self.sim.site.chargers[j].start_charging_timestep(
            self.current_time,
            vehicle,
            &mut self.sim.sessions,
        );
        proof {
            lemma_site_wf_same_ids(before, self.sim.site);
        }
        Ok(Some(StartedSession { charger_id: *charger_id, vehicle_id: next, session_idx }))
    }

    /// Advance the simulation clock by one time step (one second).
    /// Once no pending event is due, the timeline is kept.
    pub fn advance_time(&mut self)
        requires
            old(self).now() < u64::MAX,
        ensures
            final(self).now() == old(self).now() + 1,
            final(self).state() == old(self).state(),
            ts_timeline(old(self).state(), old(self).now()) && (forall|k: int|
                0 <= k < old(self).state().event_queue@.len() ==> old(self).now()
                    < #[trigger] old(self).state().event_queue@[k].time) ==> ts_timeline(
                final(self).state(),
                final(self).now(),
            ),
    {
        proof {
            if ts_timeline(self.sim, self.current_time) && (forall|k: int|
                0 <= k < self.sim.event_queue@.len() ==> self.current_time < #[trigger] self.sim.event_queue@[k].time) {
                lemma_ts_timeline_advance(self.sim, self.current_time);
            }
        }
        self.current_time = self.current_time + 1;
    }

    /// Handle, in turn, every pending event that is due (at or before the
    /// current time). Returns the vehicles that started charging. A
    /// consistent simulation stays consistent and none of its events fails.
    pub fn handle_due_events(&mut self) -> (r: Result<Vec<StartedSession>, SimulationError>)
        requires
            old(self).wf(),
        ensures
            final(self).wf(),
            final(self).now() == old(self).now(),
            final(self).state().vehicle_list == old(self).state().vehicle_list,
            old(self).state().sessions@.len() <= final(self).state().sessions@.len(),
            r is Ok ==> forall|i: int|
                0 <= i < final(self).state().event_queue@.len() ==> final(self).now()
                    < #[trigger] final(self).state().event_queue@[i].time,
            r matches Ok(v) ==> forall|i: int|
                0 <= i < v@.len() ==> (#[trigger] v@[i]).session_idx < final(self).state().sessions@.len()
                    && charger_position(final(self).state().site.chargers@, v@[i].charger_id) is Some,
            r matches Ok(v) ==> exists|
                tr: Seq<Simulation>,
                ps: Seq<Simulation>,
                es: Seq<Event>,
                rs: Seq<Option<StartedSession>>,
            |
                #[trigger] due_events_handled(tr, ps, es, rs, old(self).now()) && tr[0] == old(self).state()
                    && tr.last() == final(self).state() && v@ == somes(rs),
            consistent(old(self).state()) ==> r is Ok && consistent(final(self).state()),
            consistent(old(self).state()) && ts_timeline(old(self).state(), old(self).now()) ==> ts_timeline(
                final(self).state(),
                final(self).now(),
            ),
    {
        let mut started: Vec<StartedSession> = Vec::new();
        let ghost mut tr: Seq<Simulation> = seq![self.state()];
        let ghost mut ps: Seq<Simulation> = Seq::empty();
        let ghost mut es: Seq<Event> = Seq::empty();
        let ghost mut rs: Seq<Option<StartedSession>> = Seq::empty();
        loop
            invariant
                due_events_handled(tr, ps, es, rs, old(self).now()),
                tr[0] == old(self).state(),
                tr.last() == self.state(),
                started@ == somes(rs),
                self.wf(),
                self.now() == old(self).now(),
                self.state().vehicle_list == old(self).state().vehicle_list,
                old(self).state().sessions@.len() <= self.state().sessions@.len(),
                consistent(old(self).state()) ==> consistent(self.state()),
                consistent(old(self).state()) && ts_timeline(old(self).state(), old(self).now()) ==> ts_timeline(
                    self.state(),
                    old(self).now(),
                ),
                forall|i: int|
                    0 <= i < started@.len() ==> (#[trigger] started@[i]).session_idx < self.state().sessions@.len()
                        && charger_position(self.state().site.chargers@, started@[i].charger_id) is Some,
            decreases self.state().event_queue@.len(),
        {
            let ghost s0 = self.state();
            let e = match self.pop_due_event() {
                None => {
                    assert(due_events_handled(tr, ps, es, rs, old(self).now()));
                    return Ok(started);
                },
                Some(e) => e,
            };
            let ghost p = self.state();
            proof {
                let k = choose|k: int|
                    crate::containers::event_queue::is_next(s0.event_queue@, k) && s0.event_queue@[k] == e
                        && p.event_queue@ == s0.event_queue@.remove(k);
                assert(s0.event_queue@[k].event_type != EventType::Unplug);
            }
            let r = self.handle_event(&e);
            let ghost s1 = self.state();
            proof {
                if consistent(old(self).state()) {
                    lemma_timestep_event_keeps(s0, e, p, s1, r);
                }
                assert(crate::evse::site::charger_ids(s1.site.chargers@) =~= crate::evse::site::charger_ids(
                    p.site.chargers@,
                ));
                if let Ok(Some(st)) = r {
                    let i = first_free(p.site.chargers@)->0;
                    assert(crate::evse::site::is_first_free(p.site.chargers@, i));
                    lemma_charger_found(p.site, i);
                }
            }
            match r {
                Ok(Some(st)) => {
                    started.push(st);
                },
                Ok(None) => {},
                Err(x) => {
                    return Err(x);
                },
            }
            proof {
                let x = r->Ok_0;
                assert(due_event_step(s0, p, e, s1, x, old(self).now()));
                if consistent(old(self).state()) && ts_timeline(old(self).state(), old(self).now()) {
                    lemma_ts_due_event(s0, p, e, s1, x, old(self).now());
                }
                lemma_due_events_extend(tr, ps, es, rs, p, e, s1, x, old(self).now());
                lemma_somes_push(rs, x);
                tr = tr.push(s1);
                ps = ps.push(p);
                es = es.push(e);
                rs = rs.push(x);
            }
        }
    }

    /// Finish, in turn, the charging at each of the `finished` chargers
    /// (each with the position of its session) and start the vehicle at the
    /// front of the queue, if any, at the charger so freed. Returns the
    /// vehicles that started charging. Once every due event has been
    /// handled, a consistent simulation stays consistent.
    pub fn finish_and_start_next(&mut self, finished: &[(Id, usize)]) -> (r: Result<
        Vec<StartedSession>,
        SimulationError,
    >)
        requires
            old(self).wf(),
            forall|i: int| 0 <= i < finished@.len() ==> (#[trigger] finished@[i]).1 < old(self).state().sessions@.len(),
        ensures
            final(self).wf(),
            final(self).now() == old(self).now(),
            final(self).state().vehicle_list == old(self).state().vehicle_list,
            final(self).state().event_queue == old(self).state().event_queue,
            old(self).state().sessions@.len() <= final(self).state().sessions@.len(),
            r matches Ok(v) ==> forall|i: int|
                0 <= i < v@.len() ==> (#[trigger] v@[i]).session_idx < final(self).state().sessions@.len()
                    && charger_position(final(self).state().site.chargers@, v@[i].charger_id) is Some,
            r matches Ok(v) ==> exists|tr: Seq<Simulation>, ms: Seq<Simulation>, rs: Seq<Option<StartedSession>>|
                #[trigger] finished_in_turn(tr, ms, rs, finished@, old(self).now()) && tr[0] == old(self).state()
                    && tr.last() == final(self).state() && v@ == somes(rs),
            consistent(old(self).state()) && (forall|i: int|
                0 <= i < old(self).state().event_queue@.len() ==> old(self).now()
                    < #[trigger] old(self).state().event_queue@[i].time) ==> consistent(final(self).state()),
            r matches Err(x) ==> exists|
                tr: Seq<Simulation>,
                ms: Seq<Simulation>,
                rs: Seq<Option<StartedSession>>,
                k: int,
            |
                #[trigger] finished_in_turn(tr, ms, rs, finished@.subrange(0, k), old(self).now()) && 0 <= k
                    < finished@.len() && tr[0] == old(self).state() && finish_start_failed(
                    tr.last(),
                    finished@[k].0,
                    finished@[k].1,
                    old(self).now(),
                    final(self).state(),
                    x,
                ),
            consistent(old(self).state()) && (forall|i: int|
                0 <= i < old(self).state().event_queue@.len() ==> old(self).now()
                    < #[trigger] old(self).state().event_queue@[i].time) && ts_timeline(old(self).state(), old(self).now())
                && finishes_open(old(self).state(), finished@) ==> r is Ok && ts_timeline(
                final(self).state(),
                final(self).now(),
            ),
    {
        let mut started: Vec<StartedSession> = Vec::new();
        let ghost timely = ts_timeline(old(self).state(), old(self).now()) && finishes_open(
            old(self).state(),
            finished@,
        );
        let ghost mut tr: Seq<Simulation> = seq![self.state()];
        let ghost mut ms: Seq<Simulation> = Seq::empty();
        let ghost mut rs: Seq<Option<StartedSession>> = Seq::empty();
        let ghost good = consistent(old(self).state()) && (forall|i: int|
            0 <= i < old(self).state().event_queue@.len() ==> old(self).now()
                < #[trigger] old(self).state().event_queue@[i].time);
        let mut k: usize = 0;
        while k < finished.len()
            invariant
                0 <= k <= finished@.len(),
                finished_in_turn(tr, ms, rs, finished@.subrange(0, k as int), old(self).now()),
                tr[0] == old(self).state(),
                tr.last() == self.state(),
                started@ == somes(rs),
                self.wf(),
                self.now() == old(self).now(),
                self.state().vehicle_list == old(self).state().vehicle_list,
                self.state().event_queue == old(self).state().event_queue,
                old(self).state().sessions@.len() <= self.state().sessions@.len(),
                forall|i: int| 0 <= i < finished@.len() ==> (#[trigger] finished@[i]).1 < old(self).state().sessions@.len(),
                good == (consistent(old(self).state()) && (forall|i: int|
                    0 <= i < old(self).state().event_queue@.len() ==> old(self).now()
                        < #[trigger] old(self).state().event_queue@[i].time)),
                good ==> consistent(self.state()),
                timely == (ts_timeline(old(self).state(), old(self).now()) && finishes_open(old(self).state(), finished@)),
                good && timely ==> ts_timeline(self.state(), old(self).now()),
                good && timely ==> forall|l: int|
                    k <= l < finished@.len() ==> self.state().sessions@[(#[trigger] finished@[l]).1 as int]
                        == old(self).state().sessions@[finished@[l].1 as int],
                forall|i: int|
                    0 <= i < started@.len() ==> (#[trigger] started@[i]).session_idx < self.state().sessions@.len()
                        && charger_position(self.state().site.chargers@, started@[i].charger_id) is Some,
            decreases finished@.len() - k,
        {
            let (cid, idx) = finished[k];
            assert(finished@[k as int].1 < old(self).state().sessions@.len());
            let ghost s0 = self.state();
            let r1 = self.finish_charging(&cid, idx);
            let ghost s1 = self.state();
            proof {
                if good {
                    lemma_timestep_finish_keeps(s0, cid, idx as int, self.now(), s1, r1);
                }
                assert(crate::evse::site::charger_ids(s1.site.chargers@) =~= crate::evse::site::charger_ids(
                    s0.site.chargers@,
                ));
            }
            proof {
                if good && timely {
                    assert(finished@[k as int].0 == cid && finished@[k as int].1 == idx);
                    assert(s0.sessions@[idx as int] == old(self).state().sessions@[idx as int]);
                    assert(crate::simulation::timestep_timeline::is_open(s0.sessions@[idx as int]));
                    assert(s0.sessions@[idx as int].charger_id == Some(cid));
                    assert(charger_position(s0.site.chargers@, cid) is Some);
                }
            }
            match r1 {
                Err(x) => {
                    proof {
                        assert(finish_start_failed(s0, cid, idx, old(self).now(), s1, x));
                    }
                    return Err(x);
                },
                Ok(()) => {
                    assert(finish_step(s0, cid, idx as int, old(self).now(), s1, Ok::<(), SimulationError>(())));
                },
            }
            let r2 = self.start_next(&cid);
            let ghost s2 = self.state();
            proof {
                if good {
                    lemma_timestep_start_next_keeps(s1, cid, self.now(), s2, r2);
                }
                assert(crate::evse::site::charger_ids(s2.site.chargers@) =~= crate::evse::site::charger_ids(
                    s1.site.chargers@,
                ));
            }
            match r2 {
                Ok(Some(st)) => {
                    started.push(st);
                },
                Ok(None) => {},
                Err(x) => {
                    proof {
                        assert(finish_step(s0, cid, idx as int, old(self).now(), s1, Ok::<(), SimulationError>(())));
                        assert(finish_start_failed(s0, cid, idx, old(self).now(), s2, x));
                    }
                    return Err(x);
                },
            }
            proof {
                let x = r2->Ok_0;
                assert(finish_start_step(s0, cid, idx, old(self).now(), s1, s2, x));
                if good && timely {
                    assert(finished@[k as int].0 == cid && finished@[k as int].1 == idx);
                    assert(s0.sessions@[idx as int] == old(self).state().sessions@[idx as int]);
                    lemma_ts_finish_start(s0, cid, idx, old(self).now(), s1, s2, x);
                    assert forall|l: int| k + 1 <= l < finished@.len() implies s2.sessions@[(#[trigger] finished@[l]).1 as int]
                        == old(self).state().sessions@[finished@[l].1 as int] by {
                        assert(finished@[k as int].0 != finished@[l].0);
                        assert(s0.sessions@[finished@[l].1 as int] == old(self).state().sessions@[finished@[l].1 as int]);
                        assert(finished@[l].1 != idx);
                    }
                }
                lemma_finished_extend(tr, ms, rs, finished@, k as int, s1, s2, x, old(self).now());
                lemma_somes_push(rs, x);
                tr = tr.push(s2);
                ms = ms.push(s1);
                rs = rs.push(x);
            }
            k = k + 1;
        }
        assert(finished@.subrange(0, k as int) =~= finished@);
        Ok(started)
    }

    /// Get the simulation's session data. Once no event is left, every
    /// vehicle of a consistent simulation has exactly one session, and there
    /// are as many sessions as vehicles.
    pub fn get_sessions(&self) -> (s: &[Session])
        ensures
            s@ == self.state().sessions@,
            consistent(self.state()) && self.state().event_queue@.len() == 0 ==> {
                &&& forall|m: int|
                    0 <= m < self.state().vehicle_list@.len() ==> #[trigger] sessions_of(
                        self.state(),
                        self.state().vehicle_list@[m].id,
                    ) == 1
                &&& s@.len() == self.state().vehicle_list@.len()
                &&& self.state().waiting_queue@.len() == 0
            },
    {
        proof {
            if consistent(self.state()) && self.state().event_queue@.len() == 0 {
                lemma_one_session_per_vehicle(self.state());
            }
        }
        self.sim.sessions.as_slice()
    }
}

/// No vehicle waits at a free charger after an arrival or a renege has been
/// handled, if none did before.
pub proof fn lemma_event_keeps_no_idle_wait(
    s0: Simulation,
    e: Event,
    s1: Simulation,
    r: Result<Option<StartedSession>, SimulationError>,
)
    requires
        s0.wf(),
        no_idle_wait(s0),
        e.event_type == EventType::Arrival ==> timestep_arrival_step(s0, e, s1, r),
        e.event_type == EventType::Renege ==> renege_step(s0, e, s1, no_start(r)),
        e.event_type != EventType::Unplug,
        r is Ok,
    ensures
        no_idle_wait(s1),
{
    let cs0 = s0.site.chargers@;
    if s1.waiting_queue@.len() > 0 {
        if e.event_type == EventType::Arrival {
            match first_free(cs0) {
                Some(i) => {
                    assert(crate::evse::site::is_first_free(cs0, i));
                    assert(!cs0[i].is_busy);
                },
                None => {
                    assert forall|i: int| 0 <= i < s1.site.chargers@.len() implies #[trigger] s1.site.chargers@[i].is_busy by {
                        if !cs0[i].is_busy {
                            crate::evse::site::lemma_free_has_first_free(cs0, i);
                        }
                    }
                },
            }
        } else {
            assert(s0.waiting_queue@.len() > 0);
            assert forall|i: int| 0 <= i < s1.site.chargers@.len() implies #[trigger] s1.site.chargers@[i].is_busy by {
                assert(cs0[i].is_busy);
            }
        }
    }
}

/// No vehicle waits at a free charger after a vehicle has finished at a
/// charger and the next queued vehicle has started there, if none did
/// before.
pub proof fn lemma_finish_then_start_keeps_no_idle_wait(
    s0: Simulation,
    cid: Id,
    session_idx: int,
    now: u64,
    s1: Simulation,
    r1: Result<(), SimulationError>,
    s2: Simulation,
    r2: Result<Option<StartedSession>, SimulationError>,
)
    requires
        s0.wf(),
        no_idle_wait(s0),
        0 <= session_idx < s0.sessions@.len(),
        finish_step(s0, cid, session_idx, now, s1, r1),
        r1 is Ok,
        start_next_step(s1, cid, now, s2, r2),
        r2 is Ok,
    ensures
        no_idle_wait(s2),
{
    let cs0 = s0.site.chargers@;
    let cs1 = s1.site.chargers@;
    if s0.waiting_queue@.len() > 0 {
        let j = charger_position(cs0, cid)->0;
        assert(crate::evse::site::charger_ids(cs1) =~= crate::evse::site::charger_ids(cs0));
        assert(charger_position(cs1, cid) == Some(j));
        assert forall|i: int| 0 <= i < s2.site.chargers@.len() implies #[trigger] s2.site.chargers@[i].is_busy by {
            if i != j {
                assert(cs0[i].is_busy);
            }
        }
    }
}

/// Adding a started vehicle, or none, to the results adds it, or nothing,
/// to the started sessions.
proof fn lemma_somes_push(rs: Seq<Option<StartedSession>>, x: Option<StartedSession>)
    ensures
        somes(rs.push(x)) == match x {
            Some(y) => somes(rs).push(y),
            None => somes(rs),
        },
{
    assert(rs.push(x).drop_last() =~= rs);
}

/// Handling one more due event extends the handling of due events.
proof fn lemma_due_events_extend(
    tr: Seq<Simulation>,
    ps: Seq<Simulation>,
    es: Seq<Event>,
    rs: Seq<Option<StartedSession>>,
    p: Simulation,
    e: Event,
    t: Simulation,
    x: Option<StartedSession>,
    now: u64,
)
    requires
        due_events_handled(tr, ps, es, rs, now),
        due_event_step(tr.last(), p, e, t, x, now),
    ensures
        due_events_handled(tr.push(t), ps.push(p), es.push(e), rs.push(x), now),
        tr.push(t)[0] == tr[0],
{
    assert forall|k: int| 0 <= k < es.push(e).len() implies #[trigger] due_event_step(
        tr.push(t)[k],
        ps.push(p)[k],
        es.push(e)[k],
        tr.push(t)[k + 1],
        rs.push(x)[k],
        now,
    ) by {
        if k < es.len() {
            assert(tr.push(t)[k] == tr[k] && tr.push(t)[k + 1] == tr[k + 1]);
            assert(ps.push(p)[k] == ps[k] && es.push(e)[k] == es[k] && rs.push(x)[k] == rs[k]);
        } else {
            assert(tr.push(t)[k] == tr.last());
        }
    }
}

/// Finishing one more charger, and starting the next vehicle there,
/// extends the finishing of chargers in turn.
proof fn lemma_finished_extend(
    tr: Seq<Simulation>,
    ms: Seq<Simulation>,
    rs: Seq<Option<StartedSession>>,
    finished: Seq<(Id, usize)>,
    k: int,
    m: Simulation,
    t: Simulation,
    x: Option<StartedSession>,
    now: u64,
)
    requires
        0 <= k < finished.len(),
        finished_in_turn(tr, ms, rs, finished.subrange(0, k), now),
        finish_start_step(tr.last(), finished[k].0, finished[k].1, now, m, t, x),
    ensures
        finished_in_turn(tr.push(t), ms.push(m), rs.push(x), finished.subrange(0, k + 1), now),
        tr.push(t)[0] == tr[0],
{
    let f = finished.subrange(0, k + 1);
    assert forall|j: int| 0 <= j < f.len() implies #[trigger] finish_start_step(
        tr.push(t)[j],
        f[j].0,
        f[j].1,
        now,
        ms.push(m)[j],
        tr.push(t)[j + 1],
        rs.push(x)[j],
    ) by {
        if j < k {
            assert(tr.push(t)[j] == tr[j] && tr.push(t)[j + 1] == tr[j + 1]);
            assert(ms.push(m)[j] == ms[j] && rs.push(x)[j] == rs[j]);
            assert(f[j] == finished.subrange(0, k)[j]);
        } else {
            assert(tr.push(t)[j] == tr.last());
        }
    }
}

} // verus!
