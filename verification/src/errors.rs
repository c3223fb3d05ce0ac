//! Errors of the simulation, of the object builders, of the samplers and of
//! geolocation.

use vstd::prelude::*;

verus! {

/// Simulation errors.
#[derive(Debug)]
pub enum SimulationError {
    /// No vehicle has this ID (the payload is the ID's text).
    InvalidVehicleId(String),
    /// No charge profile has this ID.
    InvalidChargeProfileId(String),
    /// No charge profile has this name.
    InvalidChargeProfileName(String),
    /// No charger has this ID.
    InvalidChargerId(String),
    /// No site has this ID.
    InvalidSiteId(String),
    /// No location has this ID.
    InvalidLocationId(String),
    /// An event that needs a charger ID has none.
    MissingChargerId,
    /// A charge profile without data points.
    EmptyChargeProfile,
    /// A session is finalized that never started charging.
    MissingSessionPluginTime,
}

/// Object builder errors.
#[derive(Debug)]
pub enum BuilderError {
    /// Neither a charge profile ID nor a non-empty list to sample one from.
    MissingChargerProfileId,
    /// A sampler could not be created.
    SamplerError(SamplerError),
}

/// Sampler errors.
#[derive(Debug)]
pub enum SamplerError {
    /// A distribution parameter is out of its domain (the payload says why).
    InvalidParameter(String),
}

/// Geolocation errors.
#[derive(Debug)]
pub enum GeoError {
    /// Latitude outside `-90..=90` or longitude outside `-180..=180`.
    InvalidCoordinates,
}

} // verus!
