use charging_sim_2::charging_functions::{end_charging, start_charging};
use charging_sim_2::containers::EventQueue;
use charging_sim_2::errors::SimulationError;
use charging_sim_2::ev::vehicle::{choose_charge_profile_id, DEFAULT_MAX_QUEUE_LENGTH, DEFAULT_MAX_WAIT_S};
use charging_sim_2::ev::Vehicle;
use charging_sim_2::errors::BuilderError;
use charging_sim_2::events::EventType;
use charging_sim_2::evse::{Charger, ConnectorType, Site};
use charging_sim_2::session::Session;

fn charger(id: u128, name: &str, busy: bool) -> Charger {
    Charger { id, name: name.to_string(), connectors: vec![ConnectorType::Ccs1], is_busy: busy }
}

fn vehicle(id: u128, arrival: u64) -> Vehicle {
    Vehicle::new(id, "v", 77, Some(arrival), None, None, None)
}

#[test]
fn new_charger_is_free_with_v4_id() {
    let c = Charger::new("c1", vec![ConnectorType::Gbt]);
    assert!(!c.is_busy);
    assert_eq!(c.name, "c1");
    assert_eq!((c.id >> 76) & 0xf, 4);
    assert_eq!((c.id >> 62) & 0x3, 2);
}

#[test]
fn vehicle_defaults() {
    let v = Vehicle::new(3, "v3", 8, None, None, None, None);
    assert_eq!(v.arrival_time, 0);
    assert_eq!(v.max_wait_s, DEFAULT_MAX_WAIT_S);
    assert_eq!(v.max_wait_s, 1800);
    assert_eq!(v.max_queue_length, DEFAULT_MAX_QUEUE_LENGTH);
    assert_eq!(v.max_queue_length, 10);
    assert_eq!(v.connectors.len(), 5);
    let w = Vehicle::new(4, "v4", 8, Some(12), Some(5), Some(2), Some(vec![ConnectorType::Nacs]));
    assert_eq!((w.arrival_time, w.max_wait_s, w.max_queue_length), (12, 5, 2));
    assert_eq!(w.connectors, vec![ConnectorType::Nacs]);
}

#[test]
fn charge_profile_choice() {
    let ids = vec![5u128, 6, 7];
    assert_eq!(choose_charge_profile_id(Some(1), Some(&ids), Some(2)).unwrap(), 1);
    assert_eq!(choose_charge_profile_id(None, Some(&ids), Some(2)).unwrap(), 7);
    assert!(matches!(
        choose_charge_profile_id(None, None, None),
        Err(BuilderError::MissingChargerProfileId)
    ));
    let empty: Vec<u128> = vec![];
    assert!(matches!(
        choose_charge_profile_id(None, Some(&empty), None),
        Err(BuilderError::MissingChargerProfileId)
    ));
}

#[test]
fn resolve_connector_takes_chargers_order() {
    let c = Charger {
        id: 1,
        name: "c".to_string(),
        connectors: vec![ConnectorType::Chademo, ConnectorType::Ccs2, ConnectorType::Ccs1],
        is_busy: false,
    };
    assert_eq!(c.resolve_connector(&vec![ConnectorType::Ccs1, ConnectorType::Ccs2]), Some(ConnectorType::Ccs2));
    assert_eq!(c.resolve_connector(&vec![ConnectorType::Nacs]), None);
    assert_eq!(c.resolve_connector(&vec![]), None);
}

#[test]
fn site_occupancy() {
    let mut site = Site::new("s", vec![charger(1, "c1", true), charger(2, "c2", false), charger(3, "c3", false)]);
    assert_eq!(site.num_chargers(), 3);
    assert_eq!(site.num_occupied(), 1);
    assert_eq!(site.get_unoccupied_charger().unwrap().id, 2);
    site.get_unoccupied_charger_mut().unwrap().is_busy = true;
    assert_eq!(site.num_occupied(), 2);
    assert_eq!(site.get_unoccupied_charger().unwrap().id, 3);
    site.get_charger_mut(&3).unwrap().is_busy = true;
    assert!(site.get_unoccupied_charger().is_none());
    assert!(site.get_unoccupied_charger_mut().is_none());
    assert_eq!(site.num_occupied(), site.num_chargers());
    assert_eq!(site.get_charger(&2).unwrap().name, "c2");
    match site.get_charger(&0xabc) {
        Err(SimulationError::InvalidChargerId(s)) => {
            assert_eq!(s, "00000000-0000-0000-0000-000000000abc")
        }
        other => panic!("unexpected {:?}", other),
    }
}

#[test]
fn start_and_end_charging() {
    let mut c = charger(1, "c1", false);
    let v = vehicle(9, 100);
    let mut q = EventQueue::new();
    let mut sessions: Vec<Session> = Vec::new();
    start_charging(130, &v, &mut c, 600, 61, &mut q, &mut sessions);
    assert!(c.is_busy);
    let e = q.pop().unwrap();
    assert_eq!((e.time, e.event_type, e.vehicle_id, e.charger_id), (791, EventType::Unplug, 9, Some(1)));
    let s = &sessions[0];
    assert_eq!(s.wait_duration_s, 30);
    assert_eq!(s.plugin_time, Some(130));
    assert_eq!(s.unplug_time, Some(791));
    assert_eq!(s.charger.as_deref(), Some("c1"));
    assert_eq!(s.charge_profile_id, 77);
    assert!(!s.reneged && !s.balked);
    end_charging(791, &mut c);
    assert!(!c.is_busy);
}

#[test]
fn timestep_start_and_finalize() {
    let mut c = charger(1, "c1", false);
    let v = vehicle(9, 10);
    let mut sessions: Vec<Session> = Vec::new();
    let idx = c.start_charging_timestep(12, &v, &mut sessions);
    assert_eq!(idx, 0);
    assert!(c.is_busy);
    assert_eq!(sessions[idx].unplug_time, None);
    assert_eq!(sessions[idx].wait_duration_s, 2);
    sessions[idx].finalize(50).unwrap();
    assert_eq!(sessions[idx].unplug_time, Some(50));
    c.end_charging(50);
    assert!(!c.is_busy);
}

#[test]
fn session_kinds() {
    let v = vehicle(9, 10);
    let b = Session::balked(&v);
    assert!(b.balked && !b.reneged && b.wait_duration_s == 0 && b.charger_id.is_none());
    let mut r = Session::reneged(70, &v);
    assert!(r.reneged && !r.balked && r.wait_duration_s == 60);
    assert!(matches!(r.finalize(80), Err(SimulationError::MissingSessionPluginTime)));
    assert_eq!(r.unplug_time, None);
    // A start before the arrival counts no waiting.
    let c = charger(1, "c1", false);
    assert_eq!(Session::started(5, &v, &c).wait_duration_s, 0);
}
