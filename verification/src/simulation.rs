//! The discrete-event charging simulation: what happens at the site when a
//! vehicle arrives, gives up waiting, or unplugs.
//!
//! The simulation is driven event by event: the next event is taken from
//! `event_queue` and handed to `handle_event`. Where the event lets a
//! vehicle start charging, `handle_event` names the vehicle and the charger;
//! the charging time is then computed from the vehicle's charge profile and
//! passed to `start_charging`, which records the session and schedules the
//! unplug. `run` does so until no event is left, with the charging time
//! computed by the function it is given.

pub mod accounting;
pub mod arrival_rules;
pub mod timeline;
pub mod timestep_timeline;
pub mod timestep;

use crate::containers::vehicle_list::{arrival_events, lookup, renege_times_fit};
use crate::containers::waiting_queue::is_first_index;
use crate::containers::{EventQueue, VehicleList, WaitingQueue};
use crate::errors::SimulationError;
use crate::ev::Vehicle;
use crate::events::{Event, EventType};
use crate::evse::charger::{unplug_event, Charger};
use crate::evse::site::{charger_position, first_free, lemma_site_wf_same_ids};
use crate::evse::Site;
use crate::ids::{uuid_text, Id};
use crate::session::{plugged_session, unserved_session, Session};
use crate::counting::{count, lemma_count_push, lemma_count_remove};
use crate::containers::event_queue::is_next;
use crate::simulation::timeline::{
    lemma_timeline_initially, lemma_timeline_step, no_overlap, plugged_at_freeing, recorded_in_order, timeline,
};
use crate::simulation::accounting::{
    unplugs_single, lemma_unplugs_single_initially,
    consistent, distinct_charger_ids, distinct_ids, lemma_all_free_at_end, lemma_consistent_initially,
    lemma_consistent_step, lemma_occupancy_initially, lemma_occupancy_step, lemma_one_session_per_vehicle,
    occupancy, sessions_of, took_next,
};
use vstd::prelude::*;

verus! {

/// A vehicle that is to start charging at a charger.
#[derive(Debug, Clone, Copy, PartialEq, Eq, Structural)]
pub struct ChargeStart {
    /// The simulation time (s) at which charging starts.
    pub time: u64,
    pub vehicle_id: Id,
    pub charger_id: Id,
}

/// A discrete-event EV charging simulation.
#[derive(Debug)]
pub struct Simulation {
    pub site: Site,
    pub vehicle_list: VehicleList,
    pub event_queue: EventQueue,
    pub waiting_queue: WaitingQueue,
    pub sessions: Vec<Session>,
}

/// `t` is `s` with only its waiting queue and sessions changed, to `queue`
/// and `sessions`.
pub open spec fn only_queue_and_sessions(s: Simulation, t: Simulation, queue: Seq<Id>, sessions: Seq<Session>) -> bool {
    &&& t.site == s.site
    &&& t.vehicle_list == s.vehicle_list
    &&& t.event_queue == s.event_queue
    &&& t.waiting_queue@ == queue
    &&& t.sessions@ == sessions
}

/// The error of a lookup of vehicle `id` that found none.
pub open spec fn no_vehicle(r: Result<Option<ChargeStart>, SimulationError>, id: Id) -> bool {
    r matches Err(SimulationError::InvalidVehicleId(m)) && m@ == uuid_text(id)
}

/// What an arriving vehicle `v` that finds every charger busy does: it
/// balks (a balked session is recorded) when the queue already holds at
/// least `max_queue_length` vehicles, and otherwise joins the back of the
/// queue.
pub open spec fn joins_or_balks(s: Simulation, e: Event, v: Vehicle, t: Simulation) -> bool {
    if s.waiting_queue@.len() >= v.max_queue_length {
        only_queue_and_sessions(s, t, s.waiting_queue@, s.sessions@.push(unserved_session(e.time, v, false)))
    } else {
        only_queue_and_sessions(s, t, s.waiting_queue@.push(e.vehicle_id), s.sessions@)
    }
}

/// What an arrival does. The arriving vehicle starts charging at the first
/// free charger; if every charger is busy it balks (a balked session is
/// recorded) when the queue already holds at least `max_queue_length`
/// vehicles, and otherwise joins the back of the queue.
pub open spec fn arrival_step(
    s: Simulation,
    e: Event,
    t: Simulation,
    r: Result<Option<ChargeStart>, SimulationError>,
) -> bool {
    match lookup(s.vehicle_list@, e.vehicle_id) {
        None => no_vehicle(r, e.vehicle_id) && only_queue_and_sessions(s, t, s.waiting_queue@, s.sessions@),
        Some(v) => match first_free(s.site.chargers@) {
            Some(i) => {
                &&& r == Ok::<Option<ChargeStart>, SimulationError>(
                    Some(
                        ChargeStart {
                            time: e.time,
                            vehicle_id: e.vehicle_id,
                            charger_id: s.site.chargers@[i].id,
                        },
                    ),
                )
                &&& only_queue_and_sessions(s, t, s.waiting_queue@, s.sessions@)
            },
            None => r == Ok::<Option<ChargeStart>, SimulationError>(None) && joins_or_balks(s, e, v, t),
        },
    }
}

/// What a renege does. A vehicle still in the queue leaves it (its first
/// place there) and a reneged session is recorded; otherwise nothing
/// happens.
pub open spec fn renege_step(
    s: Simulation,
    e: Event,
    t: Simulation,
    r: Result<Option<ChargeStart>, SimulationError>,
) -> bool {
    if s.waiting_queue@.contains(e.vehicle_id) {
        let i = choose|i: int| is_first_index(s.waiting_queue@, e.vehicle_id, i);
        let queue = s.waiting_queue@.remove(i);
        match lookup(s.vehicle_list@, e.vehicle_id) {
            None => no_vehicle(r, e.vehicle_id) && only_queue_and_sessions(s, t, queue, s.sessions@),
            Some(v) => {
                &&& r == Ok::<Option<ChargeStart>, SimulationError>(None)
                &&& only_queue_and_sessions(s, t, queue, s.sessions@.push(unserved_session(e.time, v, true)))
            },
        }
    } else {
        r == Ok::<Option<ChargeStart>, SimulationError>(None) && only_queue_and_sessions(
            s,
            t,
            s.waiting_queue@,
            s.sessions@,
        )
    }
}

/// What an unplug does. The charger is freed; the vehicle at the front of
/// the queue, if any, leaves the queue and starts charging there.
pub open spec fn unplug_step(
    s: Simulation,
    e: Event,
    t: Simulation,
    r: Result<Option<ChargeStart>, SimulationError>,
) -> bool {
    match e.charger_id {
        None => (r matches Err(SimulationError::MissingChargerId)) && only_queue_and_sessions(
            s,
            t,
            s.waiting_queue@,
            s.sessions@,
        ),
        Some(cid) => match charger_position(s.site.chargers@, cid) {
            None => {
                &&& r matches Err(SimulationError::InvalidChargerId(m)) && m@ == uuid_text(cid)
                &&& only_queue_and_sessions(s, t, s.waiting_queue@, s.sessions@)
            },
            Some(j) => {
                &&& t.site.id == s.site.id
                &&& t.site.name == s.site.name
                &&& t.site.charger_map == s.site.charger_map
                &&& t.site.chargers@ == s.site.chargers@.update(
                    j,
                    Charger { is_busy: false, ..s.site.chargers@[j] },
                )
                &&& t.vehicle_list == s.vehicle_list
                &&& t.event_queue == s.event_queue
                &&& t.sessions@ == s.sessions@
                &&& if s.waiting_queue@.len() == 0 {
                    r == Ok::<Option<ChargeStart>, SimulationError>(None) && t.waiting_queue@
                        == s.waiting_queue@
                } else {
                    let next = s.waiting_queue@[0];
                    &&& t.waiting_queue@ == s.waiting_queue@.drop_first()
                    &&& lookup(s.vehicle_list@, next) is None ==> no_vehicle(r, next)
                    &&& lookup(s.vehicle_list@, next) is Some ==> r == Ok::<
                        Option<ChargeStart>,
                        SimulationError,
                    >(Some(ChargeStart { time: e.time, vehicle_id: next, charger_id: cid }))
                }
            },
        },
    }
}

/// What handling event `e` does to the simulation.
pub open spec fn event_step(
    s: Simulation,
    e: Event,
    t: Simulation,
    r: Result<Option<ChargeStart>, SimulationError>,
) -> bool {
    match e.event_type {
        EventType::Arrival => arrival_step(s, e, t, r),
        EventType::Renege => renege_step(s, e, t, r),
        EventType::Unplug => unplug_step(s, e, t, r),
    }
}

/// What starting to charge does: the vehicle's session is recorded, its
/// charger is marked busy and its unplug is scheduled for when charging
/// and idling are over.
pub open spec fn start_step(
    s: Simulation,
    c: ChargeStart,
    charge_duration_s: u64,
    idle_duration_s: u64,
    t: Simulation,
    r: Result<(), SimulationError>,
) -> bool {
    match lookup(s.vehicle_list@, c.vehicle_id) {
        None => {
            &&& r matches Err(SimulationError::InvalidVehicleId(m)) && m@ == uuid_text(c.vehicle_id)
            &&& only_queue_and_sessions(s, t, s.waiting_queue@, s.sessions@)
        },
        Some(v) => match charger_position(s.site.chargers@, c.charger_id) {
            None => {
                &&& r matches Err(SimulationError::InvalidChargerId(m)) && m@ == uuid_text(c.charger_id)
                &&& only_queue_and_sessions(s, t, s.waiting_queue@, s.sessions@)
            },
            Some(j) => {
                let unplug = (c.time + charge_duration_s + idle_duration_s) as u64;
                &&& r is Ok
                &&& t.site.id == s.site.id
                &&& t.site.name == s.site.name
                &&& t.site.charger_map == s.site.charger_map
                &&& t.site.chargers@ == s.site.chargers@.update(
                    j,
                    Charger { is_busy: true, ..s.site.chargers@[j] },
                )
                &&& t.vehicle_list == s.vehicle_list
                &&& t.waiting_queue == s.waiting_queue
                &&& t.event_queue@ == s.event_queue@.push(unplug_event(unplug, v.id, c.charger_id))
                &&& t.sessions@ == s.sessions@.push(
                    plugged_session(c.time, Some(unplug), v, s.site.chargers@[j]),
                )
            },
        },
    }
}

/// Arrival events.
pub open spec fn is_arrival() -> spec_fn(Event) -> bool {
    |e: Event| e.event_type == EventType::Arrival
}

/// A measure of the work left to a simulation: every event handled lowers
/// it (an arrival counts three times over, as it may bring a place in the
/// queue and an unplug after it).
pub open spec fn work_left(s: Simulation) -> nat {
    s.event_queue@.len() + s.waiting_queue@.len() + 2 * count(s.event_queue@, is_arrival())
}

/// Session `a`, if it charged, was plugged in as `durations` gave: there
/// is a vehicle and a start for which `durations` returned the charging
/// and idle times, the session is that vehicle's at that start's charger
/// and time, and it ends when charging and idling are over.
pub open spec fn charged_as_given<F: Fn(&Vehicle, &ChargeStart) -> Result<(u64, u64), SimulationError>>(
    a: Session,
    durations: F,
) -> bool {
    a.plugin_time matches Some(p) ==> exists|v: &Vehicle, c: &ChargeStart, cd: u64, idle: u64|
        #[trigger] durations.ensures((v, c), Ok::<(u64, u64), SimulationError>((cd, idle))) && c.time == p
            && c.vehicle_id == a.vehicle_id && v.id == a.vehicle_id && a.charger_id == Some(c.charger_id)
            && a.unplug_time == Some((p + cd + idle) as u64) && p + cd + idle <= u64::MAX
}

/// `t` follows `s` by one step of a run: the next event is taken and
/// handled, and where it lets a vehicle start, the vehicle starts with the
/// charging and idle times that `durations` returned for it.
pub open spec fn run_step<F: Fn(&Vehicle, &ChargeStart) -> Result<(u64, u64), SimulationError>>(
    s: Simulation,
    t: Simulation,
    durations: F,
) -> bool {
    exists|e: Event, p: Simulation, s1: Simulation, r1: Result<Option<ChargeStart>, SimulationError>|
        #![trigger took_next(s, e, p), event_step(p, e, s1, r1)]
        {
            &&& took_next(s, e, p)
            &&& event_step(p, e, s1, r1)
            &&& match r1 {
                Ok(None) => t == s1,
                Ok(Some(c)) => exists|cd: u64, idle: u64|
                    #![trigger start_step(s1, c, cd, idle, t, Ok::<(), SimulationError>(()))]
                    {
                        &&& durations.ensures(
                            (&lookup(s1.vehicle_list@, c.vehicle_id)->0, &c),
                            Ok::<(u64, u64), SimulationError>((cd, idle)),
                        )
                        &&& start_step(s1, c, cd, idle, t, Ok::<(), SimulationError>(()))
                    },
                Err(_) => false,
            }
        }
}

/// `tr` is a run: each state follows the one before by one step.
pub open spec fn is_run<F: Fn(&Vehicle, &ChargeStart) -> Result<(u64, u64), SimulationError>>(
    tr: Seq<Simulation>,
    durations: F,
) -> bool {
    &&& tr.len() >= 1
    &&& forall|i: int| 0 <= i < tr.len() - 1 ==> #[trigger] run_step(tr[i], tr[i + 1], durations)
}

/// No vehicle waits in the queue while a charger is free.
pub open spec fn no_idle_wait(s: Simulation) -> bool {
    s.waiting_queue@.len() > 0 ==> forall|i: int| 0 <= i < s.site.chargers@.len() ==> #[trigger] s.site.chargers@[i].is_busy
}

impl Simulation {
    /// The site's charger index and the vehicle list's ID index are sound.
    pub open spec fn wf(&self) -> bool {
        self.site.wf() && self.vehicle_list.wf()
    }

    /// Create a new simulation object: every vehicle's arrival and renege is
    /// scheduled, the queue is empty and no session is recorded yet. With
    /// vehicles of distinct IDs the simulation is consistent, and with free
    /// chargers of distinct IDs no charger serves a vehicle.
    pub fn new(site: Site, vehicle_list: VehicleList) -> (s: Self)
        requires
            renege_times_fit(vehicle_list@),
        ensures
            s.site == site,
            s.vehicle_list == vehicle_list,
            s.event_queue@ == arrival_events(vehicle_list@),
            s.waiting_queue@ == Seq::<Id>::empty(),
            s.sessions@ == Seq::<Session>::empty(),
            site.wf() && vehicle_list.wf() && distinct_ids(vehicle_list@) ==> consistent(s),
            distinct_charger_ids(site.chargers@) && (forall|j: int|
                0 <= j < site.chargers@.len() ==> !(#[trigger] site.chargers@[j]).is_busy) ==> occupancy(s),
    {
        let event_queue = vehicle_list.generate_arrival_events();
        let s = Simulation {
            site,
            vehicle_list,
            event_queue,
            waiting_queue: WaitingQueue::new(),
            sessions: Vec::new(),
        };
        proof {
            if s.wf() && distinct_ids(s.vehicle_list@) {
                lemma_consistent_initially(s);
            }
            if distinct_charger_ids(s.site.chargers@) && (forall|j: int|
                0 <= j < s.site.chargers@.len() ==> !(#[trigger] s.site.chargers@[j]).is_busy) {
                lemma_occupancy_initially(s);
            }
        }
        s
    }

    fn handle_arrival(&mut self, e: &Event) -> (r: Result<Option<ChargeStart>, SimulationError>)
        requires
            old(self).wf(),
        ensures
            arrival_step(*old(self), *e, *final(self), r),
    {
        let vehicle = self.vehicle_list.get_vehicle(&e.vehicle_id)?;
        match self.site.first_free_index() {
            Some(i) => Ok(
                Some(
                    ChargeStart {
                        time: e.time,
                        vehicle_id: e.vehicle_id,
                        charger_id: self.site.chargers[i].id,
                    },
                ),
            ),
            None => {
                if self.waiting_queue.len() >= vehicle.max_queue_length {
                    self.sessions.push(Session::balked(vehicle));
                } else {
                    self.waiting_queue.push_back(e.vehicle_id);
                }
                Ok(None)
            },
        }
    }

    pub(crate) fn handle_renege(&mut self, e: &Event) -> (r: Result<Option<ChargeStart>, SimulationError>)
        requires
            old(self).wf(),
        ensures
            renege_step(*old(self), *e, *final(self), r),
            final(self).wf(),
    {
        if self.waiting_queue.remove(&e.vehicle_id) {
            proof {
                let i = choose|i: int| is_first_index(old(self).waiting_queue@, e.vehicle_id, i)
                    && self.waiting_queue@ == old(self).waiting_queue@.remove(i);
                let k = choose|k: int| is_first_index(old(self).waiting_queue@, e.vehicle_id, k);
                if i < k {
                    assert(old(self).waiting_queue@[i] != e.vehicle_id);
                } else if k < i {
                    assert(old(self).waiting_queue@[k] != e.vehicle_id);
                }
            }
            let vehicle = self.vehicle_list.get_vehicle(&e.vehicle_id)?;
            self.sessions.push(Session::reneged(e.time, vehicle));
        }
        Ok(None)
    }

    fn handle_unplug(&mut self, e: &Event) -> (r: Result<Option<ChargeStart>, SimulationError>)
        requires
            old(self).wf(),
        ensures
            unplug_step(*old(self), *e, *final(self), r),
            final(self).wf(),
    {
        let cid = match e.charger_id {
            Some(c) => c,
            None => return Err(SimulationError::MissingChargerId),
        };
        let j = self.site.charger_position_of(&cid)?;
        let ghost before = self.site;
        self.site.chargers[j].end_charging(e.time);
        proof {
            lemma_site_wf_same_ids(before, self.site);
        }
        match self.waiting_queue.pop_front() {
            None => Ok(None),
            Some(next) => {
                let _vehicle = self.vehicle_list.get_vehicle(&next)?;
                Ok(Some(ChargeStart { time: e.time, vehicle_id: next, charger_id: cid }))
            },
        }
    }

    /// Handle one event that was taken from the event queue.
    /// Returns the vehicle and charger that are to start charging, if the
    /// event lets one start; the charging time is then passed to
    /// `start_charging`.
    pub fn handle_event(&mut self, e: &Event) -> (r: Result<Option<ChargeStart>, SimulationError>)
        requires
            old(self).wf(),
        ensures
            final(self).wf(),
            event_step(*old(self), *e, *final(self), r),
    {
        match e.event_type {
            EventType::Arrival => self.handle_arrival(e),
            EventType::Renege => self.handle_renege(e),
            EventType::Unplug => self.handle_unplug(e),
        }
    }

    /// Start charging a vehicle at a charger, as `handle_event` named them:
    /// the charging takes `charge_duration_s` and the vehicle then stays
    /// plugged in, idle, for `idle_duration_s` (both rounded up to whole
    /// seconds).
    pub fn start_charging(&mut self, start: &ChargeStart, charge_duration_s: u64, idle_duration_s: u64) -> (r:
        Result<(), SimulationError>)
        requires
            old(self).wf(),
            start.time + charge_duration_s + idle_duration_s <= u64::MAX,
        ensures
            final(self).wf(),
            start_step(*old(self), *start, charge_duration_s, idle_duration_s, *final(self), r),
    {
        let vehicle = self.vehicle_list.get_vehicle(&start.vehicle_id)?;
        let j = self.site.charger_position_of(&start.charger_id)?;
        let ghost before = self.site;
        self.site.chargers[j].start_charging_discrete(
            start.time,
            vehicle,
            charge_duration_s,
            idle_duration_s,
            &mut self.event_queue,
            &mut self.sessions,
        );
        proof {
            lemma_site_wf_same_ids(before, self.site);
        }
        Ok(())
    }

    /// Run the simulation until no event is left. The charging and idle
    /// times (whole seconds) of each vehicle that starts charging are given
    /// by `durations`, which computes them from the vehicle's charge profile
    /// and may fail (for a profile that is not known, say): its error is
    /// then returned.
    ///
    /// A run that succeeds is a sequence of steps, each taking the next
    /// event, handling it and starting the vehicle it lets start with the
    /// times `durations` returned for it; every session the run records
    /// that charged was plugged in at such a start and unplugged when its
    /// charging and idling were over.
    ///
    /// From a consistent start (vehicles with distinct IDs, every vehicle
    /// expected) only `durations` can fail, and a run that succeeds leaves
    /// every vehicle with exactly one session, no vehicle waiting and, where
    /// each busy charger had its one pending unplug, every charger free.
    /// From a consistent new simulation (no vehicle waiting, no session
    /// yet) the sessions are recorded in time order and a vehicle that
    /// waited was plugged in at the unplug that freed its charger; where the
    /// chargers also have distinct IDs (some may be busy from the start), no
    /// two sessions overlap on one charger.
    pub fn run<F>(&mut self, durations: F) -> (r: Result<(), SimulationError>)
        where
            F: Fn(&Vehicle, &ChargeStart) -> Result<(u64, u64), SimulationError>,
        requires
            old(self).wf(),
            forall|v: &Vehicle, c: &ChargeStart| durations.requires((v, c)),
            forall|v: &Vehicle, c: &ChargeStart, d: Result<(u64, u64), SimulationError>|
                durations.ensures((v, c), d) ==> (d matches Ok((cd, idle)) ==> c.time + cd + idle <= u64::MAX),
        ensures
            final(self).wf(),
            final(self).vehicle_list == old(self).vehicle_list,
            r is Ok ==> final(self).event_queue@.len() == 0,
            r is Ok ==> exists|tr: Seq<Simulation>|
                #[trigger] is_run(tr, durations) && tr[0] == *old(self) && tr.last() == *final(self),
            old(self).sessions@.len() <= final(self).sessions@.len(),
            final(self).sessions@.subrange(0, old(self).sessions@.len() as int) == old(self).sessions@,
            forall|i: int|
                old(self).sessions@.len() <= i < final(self).sessions@.len() ==> charged_as_given(
                    #[trigger] final(self).sessions@[i],
                    durations,
                ),
            consistent(*old(self)) ==> match r {
                Ok(()) => {
                    &&& consistent(*final(self))
                    &&& forall|m: int|
                        0 <= m < final(self).vehicle_list@.len() ==> #[trigger] sessions_of(
                            *final(self),
                            final(self).vehicle_list@[m].id,
                        ) == 1
                    &&& final(self).sessions@.len() == final(self).vehicle_list@.len()
                    &&& final(self).waiting_queue@.len() == 0
                },
                Err(x) => exists|v: &Vehicle, c: &ChargeStart|
                    #[trigger] durations.ensures((v, c), Err::<(u64, u64), SimulationError>(x)),
            },
            consistent(*old(self)) && occupancy(*old(self)) && r is Ok ==> forall|j: int|
                0 <= j < final(self).site.chargers@.len() ==> !(#[trigger] final(self).site.chargers@[j]).is_busy,
            consistent(*old(self)) && old(self).waiting_queue@.len() == 0 && old(self).sessions@.len() == 0
                && r is Ok ==> {
                &&& recorded_in_order(final(self).sessions@)
                &&& plugged_at_freeing(final(self).sessions@)
                &&& distinct_charger_ids(old(self).site.chargers@) ==> no_overlap(final(self).sessions@)
            },
    {
        let ghost start = *self;
        let ghost mut trace: Seq<Simulation> = seq![*self];
        let ghost fresh = consistent(start) && start.waiting_queue@.len() == 0 && start.sessions@.len() == 0;
        let ghost single = fresh && distinct_charger_ids(start.site.chargers@);
        let ghost mut now: u64 = 0;
        proof {
            if fresh {
                lemma_timeline_initially(start);
            }
            if single {
                lemma_unplugs_single_initially(start);
            }
        }
        loop
            invariant
                start == *old(self),
                self.wf(),
                fresh == (consistent(start) && start.waiting_queue@.len() == 0 && start.sessions@.len() == 0),
                single == (fresh && distinct_charger_ids(start.site.chargers@)),
                fresh ==> timeline(*self, now),
                single ==> unplugs_single(*self) && no_overlap(self.sessions@),
                is_run(trace, durations),
                trace[0] == start,
                trace.last() == *self,
                start.sessions@.len() <= self.sessions@.len(),
                self.sessions@.subrange(0, start.sessions@.len() as int) == start.sessions@,
                forall|i: int|
                    start.sessions@.len() <= i < self.sessions@.len() ==> charged_as_given(
                        #[trigger] self.sessions@[i],
                        durations,
                    ),
                self.vehicle_list == start.vehicle_list,
                consistent(start) ==> consistent(*self),
                consistent(start) && occupancy(start) ==> occupancy(*self),
                forall|v: &Vehicle, c: &ChargeStart| durations.requires((v, c)),
                forall|v: &Vehicle, c: &ChargeStart, d: Result<(u64, u64), SimulationError>|
                    durations.ensures((v, c), d) ==> (d matches Ok((cd, idle)) ==> c.time + cd + idle <= u64::MAX),
            decreases work_left(*self),
        {
            let ghost s0 = *self;
            let e = match self.event_queue.pop() {
                None => {
                    proof {
                        assert(is_run(trace, durations));
                        if consistent(start) {
                            lemma_one_session_per_vehicle(*self);
                            if occupancy(start) {
                                lemma_all_free_at_end(*self);
                            }
                        }
                    }
                    return Ok(());
                },
                Some(e) => e,
            };
            let ghost p = *self;
            assert(took_next(s0, e, p));
            let r1 = self.handle_event(&e);
            let ghost s1 = *self;
            let start_at = match r1 {
                Err(x) => {
                    proof {
                        if consistent(start) {
                            lemma_consistent_step(s0, e, p, s1, r1, 0, 0, s1, Ok(()));
                        }
                    }
                    return Err(x);
                },
                Ok(None) => {
                    proof {
                        if consistent(start) {
                            lemma_consistent_step(s0, e, p, s1, r1, 0, 0, s1, Ok(()));
                            if occupancy(start) {
                                lemma_occupancy_step(s0, e, p, s1, r1, 0, 0, s1, Ok(()));
                            }
                        }
                        lemma_work_falls(s0, e, p, s1, r1, 0, 0, s1, Ok(()));
                        if fresh {
                            lemma_timeline_step(s0, e, p, s1, r1, 0, 0, s1, Ok(()), now);
                        }
                        now = e.time;
                        lemma_event_keeps_sessions(p, e, s1, r1);
                        lemma_recorded_as_given(start.sessions@, s0.sessions@, s1.sessions@, durations);
                        assert(run_step(s0, s1, durations));
                        lemma_run_extends(trace, s1, durations);
                        trace = trace.push(s1);
                    }
                    continue;
                },
                Ok(Some(c)) => c,
            };
            let vehicle = match self.vehicle_list.get_vehicle(&start_at.vehicle_id) {
                Ok(v) => v,
                Err(x) => {
                    proof {
                        if consistent(start) {
                            lemma_consistent_step(s0, e, p, s1, r1, 0, 0, s1, Err(x));
                        }
                    }
                    return Err(x);
                },
            };
            let d = durations(vehicle, &start_at);
            let (charge_duration_s, idle_duration_s) = match d {
                Ok(t) => t,
                Err(x) => {
                    assert(durations.ensures((vehicle, &start_at), Err::<(u64, u64), SimulationError>(x)));
                    return Err(x);
                },
            };
            let r2 = self.start_charging(&start_at, charge_duration_s, idle_duration_s);
            let ghost s2 = *self;
            proof {
                if consistent(start) {
                    lemma_consistent_step(s0, e, p, s1, r1, charge_duration_s, idle_duration_s, s2, r2);
                    if occupancy(start) {
                        lemma_occupancy_step(s0, e, p, s1, r1, charge_duration_s, idle_duration_s, s2, r2);
                    }
                }
            }
            if let Err(x) = r2 {
                return Err(x);
            }
            proof {
                lemma_work_falls(s0, e, p, s1, r1, charge_duration_s, idle_duration_s, s2, r2);
                if fresh {
                    lemma_timeline_step(s0, e, p, s1, r1, charge_duration_s, idle_duration_s, s2, r2, now);
                }
                now = e.time;
                lemma_event_keeps_sessions(p, e, s1, r1);
                lemma_start_keeps_sessions(s1, start_at, charge_duration_s, idle_duration_s, s2, r2);
                crate::simulation::accounting::lemma_lookup_id(s1.vehicle_list@, start_at.vehicle_id);
                let a = s2.sessions@.last();
                assert(durations.ensures((vehicle, &start_at), Ok::<(u64, u64), SimulationError>((charge_duration_s, idle_duration_s))));
                assert(charged_as_given(a, durations));
                lemma_recorded_as_given(start.sessions@, s0.sessions@, s1.sessions@, durations);
                lemma_recorded_push(start.sessions@, s1.sessions@, a, durations);
                assert(s2.sessions@ == s1.sessions@.push(a));
                assert(start_step(s1, start_at, charge_duration_s, idle_duration_s, s2, Ok::<(), SimulationError>(())));
                assert(run_step(s0, s2, durations));
                lemma_run_extends(trace, s2, durations);
                trace = trace.push(s2);
            }
        }
    }
}

/// A run followed by one more step is a run.
proof fn lemma_run_extends<F: Fn(&Vehicle, &ChargeStart) -> Result<(u64, u64), SimulationError>>(
    tr: Seq<Simulation>,
    t: Simulation,
    durations: F,
)
    requires
        is_run(tr, durations),
        run_step(tr.last(), t, durations),
    ensures
        is_run(tr.push(t), durations),
        tr.push(t)[0] == tr[0],
        tr.push(t).last() == t,
{
    let tr2 = tr.push(t);
    assert forall|i: int| 0 <= i < tr2.len() - 1 implies #[trigger] run_step(tr2[i], tr2[i + 1], durations) by {
        if i < tr.len() - 1 {
            assert(tr2[i] == tr[i] && tr2[i + 1] == tr[i + 1]);
        } else {
            assert(tr2[i] == tr.last());
        }
    }
}

/// Sessions that only grew, by sessions that charged as given or never
/// charged, keep every session recorded since `base` charged as given.
proof fn lemma_recorded_as_given<F: Fn(&Vehicle, &ChargeStart) -> Result<(u64, u64), SimulationError>>(
    base: Seq<Session>,
    a: Seq<Session>,
    b: Seq<Session>,
    durations: F,
)
    requires
        base.len() <= a.len() <= b.len(),
        b.subrange(0, a.len() as int) == a,
        forall|i: int| base.len() <= i < a.len() ==> charged_as_given(#[trigger] a[i], durations),
        forall|i: int| a.len() <= i < b.len() ==> (#[trigger] b[i]).plugin_time is None,
    ensures
        forall|i: int| base.len() <= i < b.len() ==> charged_as_given(#[trigger] b[i], durations),
{
    assert forall|i: int| base.len() <= i < b.len() implies charged_as_given(#[trigger] b[i], durations) by {
        if i < a.len() {
            assert(b[i] == b.subrange(0, a.len() as int)[i]);
        }
    }
}

/// Recording a session that charged as given keeps every session recorded
/// since `base` charged as given.
proof fn lemma_recorded_push<F: Fn(&Vehicle, &ChargeStart) -> Result<(u64, u64), SimulationError>>(
    base: Seq<Session>,
    a: Seq<Session>,
    x: Session,
    durations: F,
)
    requires
        base.len() <= a.len(),
        forall|i: int| base.len() <= i < a.len() ==> charged_as_given(#[trigger] a[i], durations),
        charged_as_given(x, durations),
    ensures
        forall|i: int| base.len() <= i < a.push(x).len() ==> charged_as_given(#[trigger] a.push(x)[i], durations),
{
    assert forall|i: int| base.len() <= i < a.push(x).len() implies charged_as_given(#[trigger] a.push(x)[i], durations) by {
        if i < a.len() {
            assert(a.push(x)[i] == a[i]);
        }
    }
}

/// Handling an event, and starting the charging it allows, lowers the work
/// left: the run of a simulation ends.
proof fn lemma_work_falls(
    s0: Simulation,
    e: Event,
    p: Simulation,
    s1: Simulation,
    r1: Result<Option<ChargeStart>, SimulationError>,
    charge_duration_s: u64,
    idle_duration_s: u64,
    s2: Simulation,
    r2: Result<(), SimulationError>,
)
    requires
        took_next(s0, e, p),
        event_step(p, e, s1, r1),
        r1 is Ok,
        r1 matches Ok(Some(c)) ==> start_step(s1, c, charge_duration_s, idle_duration_s, s2, r2) && r2 is Ok,
        !(r1 matches Ok(Some(_))) ==> s2 == s1,
    ensures
        work_left(s2) < work_left(s0),
{
    let q0 = s0.event_queue@;
    let q1 = p.event_queue@;
    let k = choose|k: int| is_next(q0, k) && q0[k] == e && q1 == q0.remove(k);
    lemma_count_remove(q0, k, is_arrival());
    if let Ok(Some(c)) = r1 {
        let v = crate::containers::vehicle_list::lookup(s1.vehicle_list@, c.vehicle_id)->0;
        let unplug = (c.time + charge_duration_s + idle_duration_s) as u64;
        lemma_count_push(q1, unplug_event(unplug, v.id, c.charger_id), is_arrival());
    }
    if e.event_type == EventType::Renege && s0.waiting_queue@.contains(e.vehicle_id) {
        crate::containers::waiting_queue::lemma_first_index_exists(s0.waiting_queue@, e.vehicle_id);
    }
}

/// A new simulation has no vehicle waiting, so none waits at a free charger.
pub proof fn lemma_no_idle_wait_initially(s: Simulation)
    requires
        s.waiting_queue@ == Seq::<Id>::empty(),
    ensures
        no_idle_wait(s),
{
}

/// Sessions, once recorded, are never changed or dropped by the
/// discrete-event simulation: handling an event only appends sessions.
pub proof fn lemma_event_keeps_sessions(
    s0: Simulation,
    e: Event,
    s1: Simulation,
    r: Result<Option<ChargeStart>, SimulationError>,
)
    requires
        event_step(s0, e, s1, r),
    ensures
        s0.sessions@.len() <= s1.sessions@.len(),
        s1.sessions@.subrange(0, s0.sessions@.len() as int) == s0.sessions@,
{
    assert(s1.sessions@.subrange(0, s0.sessions@.len() as int) =~= s0.sessions@);
}

/// Starting to charge only appends a session: those recorded before stay
/// as they were.
pub proof fn lemma_start_keeps_sessions(
    s0: Simulation,
    c: ChargeStart,
    charge_duration_s: u64,
    idle_duration_s: u64,
    s1: Simulation,
    r: Result<(), SimulationError>,
)
    requires
        start_step(s0, c, charge_duration_s, idle_duration_s, s1, r),
    ensures
        s0.sessions@.len() <= s1.sessions@.len(),
        s1.sessions@.subrange(0, s0.sessions@.len() as int) == s0.sessions@,
{
    assert(s1.sessions@.subrange(0, s0.sessions@.len() as int) =~= s0.sessions@);
}

/// No vehicle waits at a free charger: if no vehicle waits while a charger
/// is free before an event, none does after the event has been handled and
/// the charging it allows has started.
pub proof fn lemma_no_idle_wait_kept(
    s0: Simulation,
    e: Event,
    s1: Simulation,
    r1: Result<Option<ChargeStart>, SimulationError>,
    charge_duration_s: u64,
    idle_duration_s: u64,
    s2: Simulation,
    r2: Result<(), SimulationError>,
)
    requires
        s0.wf(),
        no_idle_wait(s0),
        event_step(s0, e, s1, r1),
        r1 is Ok,
        r1 matches Ok(Some(c)) ==> start_step(s1, c, charge_duration_s, idle_duration_s, s2, r2)
            && r2 is Ok,
        r1 matches Ok(None) ==> s2 == s1,
    ensures
        no_idle_wait(s2),
{
    let cs0 = s0.site.chargers@;
    let cs1 = s1.site.chargers@;
    match r1 {
        Ok(Some(c)) => {
            match e.event_type {
                EventType::Arrival => {
                    let i = first_free(cs0)->0;
                    assert(crate::evse::site::is_first_free(cs0, i));
                    assert(!cs0[i].is_busy);
                    assert(s0.waiting_queue@.len() == 0);
                    assert(s2.waiting_queue@.len() == 0);
                },
                EventType::Renege => {},
                EventType::Unplug => {
                    let cid = e.charger_id->0;
                    let j = charger_position(cs0, cid)->0;
                    assert(crate::evse::site::charger_ids(cs1) =~= crate::evse::site::charger_ids(cs0));
                    assert(charger_position(cs1, cid) == Some(j));
                    assert(s0.waiting_queue@.len() > 0);
                    assert forall|i: int| 0 <= i < s2.site.chargers@.len() implies #[trigger] s2.site.chargers@[i].is_busy by {
                        if i != j {
                            assert(cs0[i].is_busy);
                        }
                    }
                },
            }
        },
        Ok(None) => {
            if s2.waiting_queue@.len() > 0 {
                assert forall|i: int| 0 <= i < s2.site.chargers@.len() implies #[trigger] s2.site.chargers@[i].is_busy by {
                    match e.event_type {
                        EventType::Arrival => {
                            if !cs0[i].is_busy {
                                crate::evse::site::lemma_free_has_first_free(cs0, i);
                            }
                        },
                        EventType::Renege => {
                            assert(s0.waiting_queue@.len() > 0);
                            assert(cs0[i].is_busy);
                        },
                        EventType::Unplug => {},
                    }
                }
            }
        },
        Err(_) => {},
    }
}

} // verus!
