//! EV supply equipment: connectors, chargers and sites.

pub mod charger;
pub mod connector;
pub mod site;

pub use crate::evse::charger::{Charger, ChargerStatus};
pub use crate::evse::connector::ConnectorType;
pub use crate::evse::site::Site;
