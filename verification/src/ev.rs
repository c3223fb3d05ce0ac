//! Electric vehicles.

pub mod vehicle;

pub use crate::ev::vehicle::Vehicle;
