//! Vehicles as the simulation's bookkeeping sees them.

use crate::errors::BuilderError;
use crate::evse::ConnectorType;
use crate::ids::Id;
use vstd::prelude::*;

verus! {

/// An electric vehicle that visits the charging site.
///
/// Holds what the queueing and the bookkeeping of the simulation read: the
/// state of charge, the target and the idle time, which only the charging
/// computation reads, are kept beside it by the program that computes the
/// charging.
#[derive(Debug)]
pub struct Vehicle {
    pub id: Id,
    pub name: String,
    pub charge_profile_id: Id,
    /// Arrival time (s) at the site.
    pub arrival_time: u64,
    /// The longest time (s) the vehicle waits in the queue before it leaves.
    pub max_wait_s: u64,
    /// If the queue is at or above this length when the vehicle arrives it
    /// balks (leaves immediately without joining the queue).
    pub max_queue_length: usize,
    /// The connectors the vehicle can charge through.
    pub connectors: Vec<ConnectorType>,
}

/// Default longest wait (s) in the queue.
pub const DEFAULT_MAX_WAIT_S: u64 = 1800;

/// Default longest queue a vehicle joins.
pub const DEFAULT_MAX_QUEUE_LENGTH: usize = 10;

/// The connectors a vehicle has unless it is given others: all of them.
pub open spec fn all_connectors() -> Seq<ConnectorType> {
    seq![
        ConnectorType::Ccs1,
        ConnectorType::Ccs2,
        ConnectorType::Chademo,
        ConnectorType::Gbt,
        ConnectorType::Nacs,
    ]
}

/// Every connector type, in declaration order.
pub fn all_connector_types() -> (v: Vec<ConnectorType>)
    ensures
        v@ == all_connectors(),
{
    let v = vec![
        ConnectorType::Ccs1,
        ConnectorType::Ccs2,
        ConnectorType::Chademo,
        ConnectorType::Gbt,
        ConnectorType::Nacs,
    ];
    assert(v@ =~= all_connectors());
    v
}

impl Vehicle {
    /// A vehicle with the given ID, name and charge profile; the arrival
    /// time defaults to 0, the longest wait to `DEFAULT_MAX_WAIT_S`, the
    /// longest queue to `DEFAULT_MAX_QUEUE_LENGTH`, and the connectors to
    /// all connector types.
    pub fn new(
        id: Id,
        name: &str,
        charge_profile_id: Id,
        arrival_time: Option<u64>,
        max_wait_s: Option<u64>,
        max_queue_length: Option<usize>,
        connectors: Option<Vec<ConnectorType>>,
    ) -> (v: Vehicle)
        ensures
            v.id == id,
            v.name@ == name@,
            v.charge_profile_id == charge_profile_id,
            v.arrival_time == match arrival_time {
                Some(t) => t,
                None => 0,
            },
            v.max_wait_s == match max_wait_s {
                Some(w) => w,
                None => DEFAULT_MAX_WAIT_S,
            },
            v.max_queue_length == match max_queue_length {
                Some(n) => n,
                None => DEFAULT_MAX_QUEUE_LENGTH,
            },
            v.connectors@ == match connectors {
                Some(c) => c@,
                None => all_connectors(),
            },
    {
        Vehicle {
            id,
            name: name.to_owned(),
            charge_profile_id,
            arrival_time: match arrival_time {
                Some(t) => t,
                None => 0,
            },
            max_wait_s: match max_wait_s {
                Some(w) => w,
                None => DEFAULT_MAX_WAIT_S,
            },
            max_queue_length: match max_queue_length {
                Some(n) => n,
                None => DEFAULT_MAX_QUEUE_LENGTH,
            },
            connectors: match connectors {
                Some(c) => c,
                None => all_connector_types(),
            },
        }
    }
}

/// The charge profile of a vehicle that is being built: the one set
/// explicitly if any; otherwise the candidate at position `drawn`, the
/// position that a draw among the candidates gave (`None` where there was
/// nothing to draw from). Fails where no profile is set and no candidate
/// was drawn.
pub fn choose_charge_profile_id(
    explicit: Option<Id>,
    candidates: Option<&Vec<Id>>,
    drawn: Option<usize>,
) -> (r: Result<Id, BuilderError>)
    ensures
        match explicit {
            Some(id) => r == Ok::<Id, BuilderError>(id),
            None => match (candidates, drawn) {
                (Some(c), Some(i)) if i < c@.len() => r == Ok::<Id, BuilderError>(c@[i as int]),
                _ => r matches Err(BuilderError::MissingChargerProfileId),
            },
        },
{
    match explicit {
        Some(id) => Ok(id),
        None => match (candidates, drawn) {
            (Some(c), Some(i)) => {
                if i < c.len() {
                    Ok(c[i])
                } else {
                    Err(BuilderError::MissingChargerProfileId)
                }
            },
            _ => Err(BuilderError::MissingChargerProfileId),
        },
    }
}

} // verus!
