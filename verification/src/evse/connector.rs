//! Charging connector types.

use vstd::prelude::*;

verus! {

/// Charging connector types.
#[derive(Debug, Clone, Copy, PartialEq, Eq, Structural)]
pub enum ConnectorType {
    Ccs1,
    Ccs2,
    Chademo,
    Gbt,
    Nacs,
}

} // verus!
