use charging_sim_2::containers::VehicleList;
use charging_sim_2::distributions::{arrival_times, ArrivalDraw};
use charging_sim_2::errors::SimulationError;
use charging_sim_2::ev::Vehicle;
use charging_sim_2::events::{Event, EventType};
use charging_sim_2::evse::{Charger, ConnectorType, Site};
use charging_sim_2::simulation::timestep::TimeStepSimulation;
use charging_sim_2::simulation::{ChargeStart, Simulation};

fn vehicle(id: u128, arrival: u64, max_wait: u64, max_queue: usize) -> Vehicle {
    Vehicle::new(id, &format!("v{}", id), 500, Some(arrival), Some(max_wait), Some(max_queue), None)
}

fn site(n: u128) -> Site {
    let chargers = (1..=n)
        .map(|i| Charger { id: i, name: format!("c{}", i), connectors: vec![ConnectorType::Ccs1], is_busy: false })
        .collect();
    Site::new("s", chargers)
}

/// Run the discrete-event simulation with a fixed charging time of
/// `charge_s` seconds and no idling.
fn run(sim: &mut Simulation, charge_s: u64) -> Vec<ChargeStart> {
    let mut starts = Vec::new();
    while let Some(e) = sim.event_queue.pop() {
        if let Some(start) = sim.handle_event(&e).unwrap() {
            sim.start_charging(&start, charge_s, 0).unwrap();
            starts.push(start);
        }
    }
    starts
}

#[test]
fn discrete_simulation_queues_and_serves_in_order() {
    let vehicles = VehicleList::new(vec![vehicle(1, 0, 1000, 10), vehicle(2, 10, 1000, 10), vehicle(3, 20, 1000, 10)]);
    let mut sim = Simulation::new(site(1), vehicles);
    let starts = run(&mut sim, 100);
    let order: Vec<(u64, u128)> = starts.iter().map(|s| (s.time, s.vehicle_id)).collect();
    assert_eq!(order, vec![(0, 1), (100, 2), (200, 3)]);
    assert_eq!(sim.sessions.len(), 3);
    assert_eq!(sim.sessions[1].wait_duration_s, 90);
    assert_eq!(sim.sessions[2].unplug_time, Some(300));
    assert!(sim.waiting_queue.is_empty());
    assert_eq!(sim.site.num_occupied(), 0);
}

#[test]
fn discrete_simulation_reneges_and_balks() {
    // Vehicle 2 waits at most 50 s; vehicle 3 will not join a queue of 1.
    let vehicles = VehicleList::new(vec![vehicle(1, 0, 1000, 10), vehicle(2, 10, 50, 10), vehicle(3, 20, 1000, 1)]);
    let mut sim = Simulation::new(site(1), vehicles);
    let starts = run(&mut sim, 100);
    assert_eq!(starts.len(), 1);
    assert_eq!(sim.sessions.len(), 3);
    let balked = sim.sessions.iter().find(|s| s.vehicle_id == 3).unwrap();
    assert!(balked.balked && balked.wait_duration_s == 0);
    let reneged = sim.sessions.iter().find(|s| s.vehicle_id == 2).unwrap();
    assert!(reneged.reneged && reneged.wait_duration_s == 50 && reneged.plugin_time.is_none());
}

#[test]
fn discrete_simulation_errors() {
    let mut sim = Simulation::new(site(1), VehicleList::new(vec![]));
    let unplug_without_charger = Event { time: 1, event_type: EventType::Unplug, vehicle_id: 1, charger_id: None };
    assert!(matches!(sim.handle_event(&unplug_without_charger), Err(SimulationError::MissingChargerId)));
    let unplug_unknown = Event { time: 1, event_type: EventType::Unplug, vehicle_id: 1, charger_id: Some(42) };
    assert!(matches!(sim.handle_event(&unplug_unknown), Err(SimulationError::InvalidChargerId(_))));
    let arrival_unknown = Event { time: 1, event_type: EventType::Arrival, vehicle_id: 5, charger_id: None };
    assert!(matches!(sim.handle_event(&arrival_unknown), Err(SimulationError::InvalidVehicleId(_))));
    // A renege of a vehicle that is not queued does nothing.
    let renege = Event { time: 1, event_type: EventType::Renege, vehicle_id: 5, charger_id: None };
    assert!(matches!(sim.handle_event(&renege), Ok(None)));
}

#[test]
fn timestep_simulation_steps() {
    let vehicles = VehicleList::new(vec![vehicle(1, 0, 1000, 10), vehicle(2, 0, 3, 10), vehicle(3, 1, 1000, 10)]);
    let mut sim = TimeStepSimulation::new(site(1), vehicles);
    assert_eq!(sim.current_time(), 0);
    let mut started = Vec::new();
    while let Some(e) = sim.pop_due_event() {
        if let Some(s) = sim.handle_event(&e).unwrap() {
            started.push(s);
        }
    }
    assert_eq!(started.len(), 1);
    assert_eq!(started[0].vehicle_id, 1);
    assert!(sim.has_waiting_vehicles());
    sim.advance_time();
    while let Some(e) = sim.pop_due_event() {
        assert!(sim.handle_event(&e).unwrap().is_none());
    }
    assert_eq!(sim.current_time(), 1);
    // Vehicle 2 gives up at t=3.
    sim.advance_time();
    sim.advance_time();
    while let Some(e) = sim.pop_due_event() {
        sim.handle_event(&e).unwrap();
    }
    assert!(sim.get_sessions().iter().any(|s| s.vehicle_id == 2 && s.reneged));
    sim.finish_charging(&started[0].charger_id, started[0].session_idx).unwrap();
    let next = sim.start_next(&started[0].charger_id).unwrap().unwrap();
    assert_eq!(next.vehicle_id, 3);
    assert_eq!(sim.get_sessions()[started[0].session_idx].unplug_time, Some(3));
    assert_eq!(sim.get_sessions()[next.session_idx].wait_duration_s, 2);
    assert!(!sim.has_waiting_vehicles());
    assert!(sim.start_next(&started[0].charger_id).unwrap().is_none());
    assert!(sim.has_pending_events());
}

#[test]
fn arrival_times_are_sorted_within_their_days() {
    let draws = vec![
        ArrivalDraw { day: 1, hour: 0, minute: 0, second: 5 },
        ArrivalDraw { day: 0, hour: 23, minute: 59, second: 59 },
        ArrivalDraw { day: 0, hour: 2, minute: 30, second: 0 },
    ];
    assert_eq!(arrival_times(&draws), vec![9000, 86399, 86405]);
}

/// No vehicle waits while a charger is free, and recorded sessions never
/// change, at every step of a discrete-event run.
#[test]
fn discrete_run_keeps_no_idle_wait_and_sessions() {
    let vehicles = VehicleList::new(
        (1..=12u128).map(|i| vehicle(i, (i as u64 * 7) % 40, 30 + i as u64, 3)).collect(),
    );
    let mut sim = Simulation::new(site(3), vehicles);
    let mut seen: Vec<(u128, bool, bool, Option<u64>)> = Vec::new();
    while let Some(e) = sim.event_queue.pop() {
        if let Some(start) = sim.handle_event(&e).unwrap() {
            sim.start_charging(&start, 25, 5).unwrap();
        }
        if !sim.waiting_queue.is_empty() {
            assert_eq!(sim.site.num_occupied(), sim.site.num_chargers());
        }
        for (i, s) in seen.iter().enumerate() {
            let now = &sim.sessions[i];
            assert_eq!(*s, (now.vehicle_id, now.reneged, now.balked, now.unplug_time));
        }
        seen = sim.sessions.iter().map(|s| (s.vehicle_id, s.reneged, s.balked, s.unplug_time)).collect();
    }
    // Every vehicle ends with exactly one session.
    let mut ids: Vec<u128> = sim.sessions.iter().map(|s| s.vehicle_id).collect();
    ids.sort();
    assert_eq!(ids, (1..=12u128).collect::<Vec<_>>());
    // Every charger is free once no event is left.
    assert_eq!(sim.site.num_occupied(), 0);
    // No session records a wait beyond its vehicle's longest; a reneged one
    // records exactly that.
    for s in &sim.sessions {
        let max_wait = sim.vehicle_list.get_vehicle(&s.vehicle_id).unwrap().max_wait_s;
        assert!(s.wait_duration_s <= max_wait);
        if s.reneged {
            assert_eq!(s.wait_duration_s, max_wait);
        }
    }
}

/// The time-step simulation keeps no vehicle waiting at a free charger
/// between steps.
#[test]
fn timestep_run_keeps_no_idle_wait() {
    let vehicles = VehicleList::new((1..=6u128).map(|i| vehicle(i, 0, 100, 10)).collect());
    let mut sim = TimeStepSimulation::new(site(2), vehicles);
    let mut active: Vec<(u128, usize, u64)> = Vec::new();
    while sim.has_pending_events() || sim.has_waiting_vehicles() || !active.is_empty() {
        while let Some(e) = sim.pop_due_event() {
            if let Some(s) = sim.handle_event(&e).unwrap() {
                active.push((s.charger_id, s.session_idx, sim.current_time() + 10));
            }
        }
        let now = sim.current_time();
        let (done, running): (Vec<_>, Vec<_>) = active.into_iter().partition(|a| a.2 <= now);
        active = running;
        for (c, idx, _) in &done {
            sim.finish_charging(c, *idx).unwrap();
        }
        for (c, _, _) in &done {
            if let Some(s) = sim.start_next(c).unwrap() {
                active.push((s.charger_id, s.session_idx, now + 10));
            }
        }
        if sim.has_waiting_vehicles() {
            assert_eq!(sim.site().num_occupied(), sim.site().num_chargers());
        }
        sim.advance_time();
    }
    assert_eq!(sim.get_sessions().len(), 6);
    assert!(sim.get_sessions().iter().all(|s| s.unplug_time.is_some()));
    for s in sim.get_sessions() {
        let max_wait = sim.vehicle_list().get_vehicle(&s.vehicle_id).unwrap().max_wait_s;
        assert!(s.wait_duration_s <= max_wait);
    }
}

/// With no charger at all every vehicle still ends with exactly one
/// session, balked or reneged; a vehicle that waits at most 0 s is handled
/// at its arrival before its renege.
#[test]
fn discrete_run_without_chargers_accounts_for_every_vehicle() {
    let vehicles = VehicleList::new(vec![vehicle(1, 0, 0, 10), vehicle(2, 5, 10, 1), vehicle(3, 6, 10, 1)]);
    let mut sim = Simulation::new(site(0), vehicles);
    let starts = run(&mut sim, 100);
    assert!(starts.is_empty());
    assert!(sim.waiting_queue.is_empty());
    let mut outcome: Vec<(u128, bool, bool, u64)> =
        sim.sessions.iter().map(|s| (s.vehicle_id, s.reneged, s.balked, s.wait_duration_s)).collect();
    outcome.sort();
    assert_eq!(outcome, vec![(1, true, false, 0), (2, true, false, 10), (3, false, true, 0)]);
}

/// A run serves every vehicle once, in arrival order, and frees every
/// charger; charging and idling end at the unplug.
#[test]
fn discrete_simulation_run_serves_every_vehicle() {
    let vehicles = VehicleList::new(vec![
        vehicle(1, 0, 1000, 10),
        vehicle(2, 10, 1000, 10),
        vehicle(3, 20, 100, 10),
        vehicle(4, 30, 1000, 0),
    ]);
    let mut sim = Simulation::new(site(2), vehicles);
    sim.run(|v: &Vehicle, _c: &ChargeStart| Ok((100 + v.id as u64, 5))).unwrap();
    assert!(sim.event_queue.is_empty());
    assert!(sim.waiting_queue.is_empty());
    assert_eq!(sim.site.num_occupied(), 0);
    let mut by_vehicle: Vec<(u128, Option<u64>, Option<u64>, u64, bool, bool)> = sim
        .sessions
        .iter()
        .map(|s| (s.vehicle_id, s.plugin_time, s.unplug_time, s.wait_duration_s, s.reneged, s.balked))
        .collect();
    by_vehicle.sort();
    assert_eq!(
        by_vehicle,
        vec![
            (1, Some(0), Some(106), 0, false, false),
            (2, Some(10), Some(117), 0, false, false),
            // Vehicle 3 waits for vehicle 1 to unplug at t=106, within its 100 s.
            (3, Some(106), Some(214), 86, false, false),
            // Vehicle 4 finds both chargers busy and no room in its queue.
            (4, None, None, 0, false, true),
        ]
    );
    let ss = &sim.sessions;
    // Sessions are recorded in time order.
    for w in ss.windows(2) {
        assert!(w[0].arrival_time + w[0].wait_duration_s <= w[1].arrival_time + w[1].wait_duration_s);
    }
    for (i, a) in ss.iter().enumerate() {
        for b in &ss[i + 1..] {
            // No two sessions overlap on one charger.
            if a.plugin_time.is_some() && b.plugin_time.is_some() && a.charger_id == b.charger_id {
                assert!(a.unplug_time.unwrap() <= b.plugin_time.unwrap());
            }
        }
        // A vehicle that waited was plugged in at the unplug that freed its charger.
        if a.plugin_time.is_some() && a.wait_duration_s > 0 {
            assert!(ss.iter().any(|o| o.plugin_time.is_some()
                && o.charger_id == a.charger_id
                && o.unplug_time == a.plugin_time));
        }
    }
    let v1 = ss.iter().find(|s| s.vehicle_id == 1).unwrap();
    let v3 = ss.iter().find(|s| s.vehicle_id == 3).unwrap();
    assert_eq!(v3.charger_id, v1.charger_id);
}

/// The error of the charging computation ends the run and is returned.
#[test]
fn discrete_simulation_run_returns_the_charging_error() {
    let vehicles = VehicleList::new(vec![vehicle(1, 0, 1000, 10), vehicle(2, 10, 1000, 10)]);
    let mut sim = Simulation::new(site(1), vehicles);
    let r = sim.run(|v: &Vehicle, _c: &ChargeStart| {
        if v.id == 2 {
            Err(SimulationError::InvalidChargeProfileId("cp".to_string()))
        } else {
            Ok((50, 0))
        }
    });
    match r {
        Err(SimulationError::InvalidChargeProfileId(s)) => assert_eq!(s, "cp"),
        other => panic!("unexpected {:?}", other),
    }
    assert_eq!(sim.sessions.len(), 1);
}

/// The time-step engine driven second by second: due events in one call,
/// then the chargers whose vehicles are done; every vehicle ends with one
/// session.
#[test]
fn timestep_due_events_and_finished_chargers() {
    let vehicles = VehicleList::new(vec![
        vehicle(1, 0, 100, 10),
        vehicle(2, 0, 100, 10),
        vehicle(3, 1, 3, 10),
        vehicle(4, 2, 100, 0),
    ]);
    let mut sim = TimeStepSimulation::new(site(1), vehicles);
    let mut active: Vec<(u128, usize, u64)> = Vec::new();
    while sim.has_pending_events() || sim.has_waiting_vehicles() || !active.is_empty() {
        for s in sim.handle_due_events().unwrap() {
            active.push((s.charger_id, s.session_idx, sim.current_time() + 5));
        }
        let now = sim.current_time();
        let finished: Vec<(u128, usize)> =
            active.iter().filter(|a| a.2 <= now).map(|a| (a.0, a.1)).collect();
        active.retain(|a| a.2 > now);
        for s in sim.finish_and_start_next(&finished).unwrap() {
            active.push((s.charger_id, s.session_idx, now + 5));
        }
        sim.advance_time();
    }
    let mut outcome: Vec<(u128, Option<u64>, Option<u64>, bool, bool)> = sim
        .get_sessions()
        .iter()
        .map(|s| (s.vehicle_id, s.plugin_time, s.unplug_time, s.reneged, s.balked))
        .collect();
    outcome.sort();
    assert_eq!(
        outcome,
        vec![
            (1, Some(0), Some(5), false, false),
            (2, Some(5), Some(10), false, false),
            (3, None, None, true, false),
            (4, None, None, false, true),
        ]
    );
    let ss = sim.get_sessions();
    for (i, a) in ss.iter().enumerate() {
        if let Some(p) = a.plugin_time {
            // Plugged in after arrival, waited until then, unplugged after.
            assert!(a.arrival_time <= p && p <= a.unplug_time.unwrap());
            assert_eq!(a.wait_duration_s, p - a.arrival_time);
            for (j, b) in ss.iter().enumerate() {
                if i != j && b.plugin_time.is_some() {
                    // First come, first served.
                    if a.arrival_time < b.arrival_time {
                        assert!(p <= b.plugin_time.unwrap());
                    }
                    // No overlap on a charger.
                    if a.charger_id == b.charger_id {
                        assert!(
                            a.unplug_time.unwrap() <= b.plugin_time.unwrap()
                                || b.unplug_time.unwrap() <= p
                        );
                    }
                }
            }
            // A vehicle that waited was plugged in as its charger was freed.
            if a.wait_duration_s > 0 {
                assert!(ss.iter().any(|o| o.charger_id == a.charger_id && o.unplug_time == Some(p)));
            }
        }
    }
}

/// A charger busy from the start serves no one; the other charger serves
/// every vehicle in turn, one at a time.
#[test]
fn discrete_run_with_a_charger_busy_from_the_start() {
    let chargers = vec![
        Charger { id: 1, name: "c1".to_string(), connectors: vec![ConnectorType::Ccs1], is_busy: true },
        Charger { id: 2, name: "c2".to_string(), connectors: vec![ConnectorType::Ccs1], is_busy: false },
    ];
    let vehicles = VehicleList::new(vec![vehicle(1, 0, 1000, 10), vehicle(2, 5, 1000, 10), vehicle(3, 6, 1000, 10)]);
    let mut sim = Simulation::new(Site::new("s", chargers), vehicles);
    sim.run(|_v: &Vehicle, _c: &ChargeStart| Ok((10, 0))).unwrap();
    let got: Vec<(u128, Option<u128>, Option<u64>, Option<u64>)> =
        sim.sessions.iter().map(|s| (s.vehicle_id, s.charger_id, s.plugin_time, s.unplug_time)).collect();
    assert_eq!(
        got,
        vec![
            (1, Some(2), Some(0), Some(10)),
            (2, Some(2), Some(10), Some(20)),
            (3, Some(2), Some(20), Some(30)),
        ]
    );
}

/// Finishing a charger with a session that is not its own fails and
/// changes nothing; with its own session it closes it and frees the
/// charger.
#[test]
fn timestep_finish_checks_the_session_charger() {
    let vehicles = VehicleList::new(vec![vehicle(1, 0, 100, 10), vehicle(2, 0, 100, 10)]);
    let mut sim = TimeStepSimulation::new(site(2), vehicles);
    let started = sim.handle_due_events().unwrap();
    assert_eq!(started.len(), 2);
    let (a, b) = (started[0], started[1]);
    sim.advance_time();
    match sim.finish_and_start_next(&[(a.charger_id, b.session_idx)]) {
        Err(SimulationError::InvalidChargerId(_)) => {}
        other => panic!("unexpected {:?}", other.map(|v| v.len())),
    }
    assert_eq!(sim.site().num_occupied(), 2);
    assert!(sim.get_sessions().iter().all(|s| s.unplug_time.is_none()));
    assert!(sim.finish_and_start_next(&[(a.charger_id, a.session_idx)]).unwrap().is_empty());
    assert_eq!(sim.site().num_occupied(), 1);
    assert_eq!(sim.get_sessions()[a.session_idx].unplug_time, Some(1));
}
