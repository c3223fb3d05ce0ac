//! What the random samplers' draws become in the simulation.

pub mod arrival_times;

pub use crate::distributions::arrival_times::{arrival_times, ArrivalDraw};
