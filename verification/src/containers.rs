//! Containers of the simulation: the event queue, the waiting queue, and the
//! lists of vehicles and sites indexed by ID.

pub mod event_queue;

pub use crate::containers::event_queue::EventQueue;
pub mod vehicle_list;

pub use crate::containers::vehicle_list::VehicleList;
pub mod site_list;

pub use crate::containers::site_list::SiteList;
pub mod waiting_queue;

pub use crate::containers::waiting_queue::WaitingQueue;
pub mod charge_profile_list;

pub use crate::containers::charge_profile_list::ChargeProfileList;
pub mod location_list;

pub use crate::containers::location_list::LocationList;
