//! Discrete-event and time-step simulation of electric-vehicle charging:
//! the bookkeeping of vehicles, chargers, queues, events and sessions.

pub mod ids;
pub mod id_index;
pub mod counting;

pub mod errors;
pub mod events;
pub mod containers;
pub mod ev;
pub mod evse;
pub mod session;
pub mod charging_functions;
pub mod simulation;
pub mod distributions;
