//! Events of the charging simulation.

use crate::ids::Id;
use std::cmp::Ordering;
use vstd::prelude::*;

verus! {

/// Charging simulation event type.
#[derive(Debug, Clone, Copy, PartialEq, Eq, Structural)]
pub enum EventType {
    /// A vehicle arrives at the site.
    Arrival,
    /// A vehicle leaves the charger it occupied.
    Unplug,
    /// A vehicle gives up waiting in the queue.
    Renege,
}

/// Charging simulation event.
/// Event occurs at a given simulation time (in seconds).
#[derive(Debug, Clone, Copy)]
pub struct Event {
    pub time: u64,
    pub event_type: EventType,
    pub vehicle_id: Id,
    pub charger_id: Option<Id>,
}

impl Event {
    /// Whether `self` comes first in the simulation: events are ordered by
    /// time alone, the earliest first.
    pub open spec fn time_order(&self, other: &Event) -> Option<Ordering> {
        if self.time < other.time {
            Some(Ordering::Greater)
        } else if self.time == other.time {
            Some(Ordering::Equal)
        } else {
            Some(Ordering::Less)
        }
    }
}

/// Two events are equal when they happen at the same time and are of the
/// same type.
impl PartialEq for Event {
    fn eq(&self, other: &Self) -> (r: bool) {
        self.time == other.time && self.event_type == other.event_type
    }
}

impl vstd::std_specs::cmp::PartialEqSpecImpl for Event {
    open spec fn obeys_eq_spec() -> bool {
        true
    }

    open spec fn eq_spec(&self, other: &Event) -> bool {
        self.time == other.time && self.event_type == other.event_type
    }
}

impl Eq for Event {
}

/// Events are ordered by time, reversed: the earlier event is the greater
/// one, so that it is served first.
impl PartialOrd for Event {
    fn partial_cmp(&self, other: &Self) -> (r: Option<Ordering>) {
        if self.time < other.time {
            Some(Ordering::Greater)
        } else if self.time == other.time {
            Some(Ordering::Equal)
        } else {
            Some(Ordering::Less)
        }
    }
}

impl vstd::std_specs::cmp::PartialOrdSpecImpl for Event {
    open spec fn obeys_partial_cmp_spec() -> bool {
        true
    }

    open spec fn partial_cmp_spec(&self, other: &Event) -> Option<Ordering> {
        self.time_order(other)
    }
}

} // verus!
