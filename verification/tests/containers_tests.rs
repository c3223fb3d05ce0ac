use charging_sim_2::containers::{EventQueue, SiteList, VehicleList, WaitingQueue};
use charging_sim_2::errors::SimulationError;
use charging_sim_2::ev::Vehicle;
use charging_sim_2::events::{Event, EventType};
use charging_sim_2::evse::{Charger, ConnectorType, Site};

fn vehicle(id: u128, name: &str, arrival: u64, max_wait: u64) -> Vehicle {
    Vehicle {
        id,
        name: name.to_string(),
        charge_profile_id: 900,
        arrival_time: arrival,
        max_wait_s: max_wait,
        max_queue_length: 10,
        connectors: vec![ConnectorType::Ccs1],
    }
}

fn event(time: u64, event_type: EventType, vehicle_id: u128) -> Event {
    Event { time, event_type, vehicle_id, charger_id: None }
}

#[test]
fn event_queue_serves_earliest_first() {
    let mut q = EventQueue::new();
    assert!(q.is_empty());
    q.push(event(30, EventType::Arrival, 1));
    q.push(event(10, EventType::Renege, 2));
    q.push(event(20, EventType::Arrival, 3));
    assert_eq!(q.len(), 3);
    assert_eq!(q.peek().unwrap().vehicle_id, 2);
    assert_eq!(q.pop().unwrap().time, 10);
    assert_eq!(q.pop().unwrap().time, 20);
    assert_eq!(q.pop().unwrap().time, 30);
    assert!(q.pop().is_none());
    assert!(q.peek().is_none());
}

#[test]
fn event_queue_serves_ties_in_push_order() {
    let mut q = EventQueue::new();
    q.push(event(5, EventType::Arrival, 1));
    q.push(event(5, EventType::Renege, 2));
    q.push(event(1, EventType::Arrival, 3));
    q.push(event(5, EventType::Arrival, 4));
    let order: Vec<u128> = (0..4).map(|_| q.pop().unwrap().vehicle_id).collect();
    assert_eq!(order, vec![3, 1, 2, 4]);
}

#[test]
fn events_compare_by_time_and_type() {
    let a = event(5, EventType::Arrival, 1);
    let b = event(5, EventType::Arrival, 2);
    let c = event(5, EventType::Renege, 1);
    let d = event(7, EventType::Arrival, 1);
    assert!(a == b);
    assert!(a != c);
    // The earlier event is the greater one: it is served first.
    assert!(a > d);
    assert_eq!(a.partial_cmp(&c), Some(std::cmp::Ordering::Equal));
}

#[test]
fn vehicle_list_lookup_and_errors() {
    let list = VehicleList::new(vec![vehicle(1, "v1", 0, 60), vehicle(2, "v2", 10, 60)]);
    assert_eq!(list.num_vehicles(), 2);
    assert_eq!(list.get_vehicle(&2).unwrap().name, "v2");
    match list.get_vehicle(&0x67e5504410b1426f9247bb680e5fe0c8) {
        Err(SimulationError::InvalidVehicleId(s)) => {
            assert_eq!(s, "67e55044-10b1-426f-9247-bb680e5fe0c8")
        }
        other => panic!("unexpected {:?}", other),
    }
    match list.get_vehicle(&3) {
        Err(SimulationError::InvalidVehicleId(s)) => {
            assert_eq!(s, "00000000-0000-0000-0000-000000000003")
        }
        other => panic!("unexpected {:?}", other),
    }
}

#[test]
fn vehicle_list_duplicate_id_finds_last() {
    let list = VehicleList::new(vec![vehicle(1, "first", 0, 60), vehicle(1, "second", 0, 60)]);
    assert_eq!(list.get_vehicle(&1).unwrap().name, "second");
}

#[test]
fn vehicle_list_extend_and_mut() {
    let mut list = VehicleList::new(vec![vehicle(1, "v1", 0, 60)]);
    list.extend(vec![vehicle(2, "v2", 5, 60), vehicle(3, "v3", 6, 60)]);
    assert_eq!(list.num_vehicles(), 3);
    list.get_vehicle_mut(&3).unwrap().arrival_time = 99;
    assert_eq!(list.get_vehicle(&3).unwrap().arrival_time, 99);
    assert!(list.get_vehicle_mut(&4).is_err());
}

#[test]
fn arrival_events_have_arrival_and_renege() {
    let list = VehicleList::new(vec![vehicle(1, "v1", 100, 60), vehicle(2, "v2", 50, 10)]);
    let mut q = list.generate_arrival_events();
    assert_eq!(q.len(), 4);
    let e = q.pop().unwrap();
    assert_eq!((e.time, e.event_type, e.vehicle_id), (50, EventType::Arrival, 2));
    let e = q.pop().unwrap();
    assert_eq!((e.time, e.event_type, e.vehicle_id), (60, EventType::Renege, 2));
    let e = q.pop().unwrap();
    assert_eq!((e.time, e.event_type, e.vehicle_id), (100, EventType::Arrival, 1));
    let e = q.pop().unwrap();
    assert_eq!((e.time, e.event_type, e.vehicle_id), (160, EventType::Renege, 1));
    assert!(e.charger_id.is_none());
}

#[test]
fn waiting_queue_fifo_and_remove() {
    let mut q = WaitingQueue::new();
    assert!(q.is_empty());
    q.push_back(1);
    q.push_back(2);
    q.push_back(3);
    assert_eq!(q.len(), 3);
    assert!(q.remove(&2));
    assert!(!q.remove(&2));
    assert_eq!(q.len(), 2);
    assert_eq!(q.pop_front(), Some(1));
    assert_eq!(q.pop_front(), Some(3));
    assert_eq!(q.pop_front(), None);
}

#[test]
fn waiting_queue_pop_compatible() {
    let mut v1 = vehicle(1, "v1", 0, 60);
    v1.connectors = vec![ConnectorType::Chademo];
    let mut v2 = vehicle(2, "v2", 0, 60);
    v2.connectors = vec![ConnectorType::Nacs, ConnectorType::Ccs2];
    let vehicles = VehicleList::new(vec![v1, v2]);
    let charger = Charger {
        id: 10,
        name: "c".to_string(),
        connectors: vec![ConnectorType::Ccs2, ConnectorType::Ccs1],
        is_busy: false,
    };
    let mut q = WaitingQueue::new();
    q.push_back(7); // unknown vehicle: never matches
    q.push_back(1);
    q.push_back(2);
    assert_eq!(q.pop_compatible(&vehicles, &charger), Some(2));
    assert_eq!(q.pop_compatible(&vehicles, &charger), None);
    assert_eq!(q.len(), 2);
}

#[test]
fn site_list_lookup() {
    let s1 = Site::new("s1", vec![]);
    let s2 = Site::new("s2", vec![]);
    let id2 = s2.id;
    let list = SiteList::new(vec![s1, s2]);
    assert_eq!(list.num_sites(), 2);
    assert_eq!(list.get_site(&id2).unwrap().name, "s2");
    match list.get_site(&0) {
        Err(SimulationError::InvalidSiteId(s)) => {
            assert_eq!(s, "00000000-0000-0000-0000-000000000000")
        }
        other => panic!("unexpected {:?}", other.map(|s| s.name.clone())),
    }
}

use charging_sim_2::containers::charge_profile_list::ChargeProfileEntry;
use charging_sim_2::containers::location_list::LocationEntry;
use charging_sim_2::containers::{ChargeProfileList, LocationList};

fn profile(id: u128, name: &str, capacity: f64) -> ChargeProfileEntry<f64> {
    ChargeProfileEntry { id, name: name.to_string(), profile: capacity }
}

#[test]
fn charge_profile_list_lookups() {
    let mut list = ChargeProfileList::new(vec![profile(1, "cp1", 60.0), profile(2, "cp2", 75.0)]);
    assert_eq!(list.get_charge_profile(&2).unwrap(), &75.0);
    match list.get_charge_profile(&3) {
        Err(SimulationError::InvalidChargeProfileId(s)) => {
            assert_eq!(s, "00000000-0000-0000-0000-000000000003")
        }
        other => panic!("unexpected {:?}", other),
    }
    assert_eq!(list.get_id_by_name("cp1"), Some(1));
    assert_eq!(list.get_id_by_name("cp9"), None);
    list.extend(vec![profile(1, "cp1b", 90.0), profile(4, "cp1", 10.0)]);
    // The last profile with an ID is the one found; the first with a name.
    assert_eq!(list.get_charge_profile(&1).unwrap(), &90.0);
    assert_eq!(list.get_id_by_name("cp1"), Some(1));
    // With an ID repeated, each ID once, at its first place.
    assert_eq!(list.all_ids(), vec![1, 2, 4]);
}

#[test]
fn charge_profile_ids_in_list_order() {
    let list = ChargeProfileList::new(vec![profile(9, "a", 1.0), profile(3, "b", 2.0), profile(7, "c", 3.0)]);
    assert_eq!(list.all_ids(), vec![9, 3, 7]);
}

#[test]
fn location_list_lookups() {
    let list = LocationList::new(vec![
        LocationEntry { id: 5, location: (37.7, -122.4) },
        LocationEntry { id: 6, location: (37.8, -122.5) },
    ]);
    assert_eq!(list.num_locations(), 2);
    assert_eq!(list.get_location(&6).unwrap(), &(37.8, -122.5));
    match list.get_location(&0x10) {
        Err(SimulationError::InvalidLocationId(s)) => {
            assert_eq!(s, "00000000-0000-0000-0000-000000000010")
        }
        other => panic!("unexpected {:?}", other),
    }
}
