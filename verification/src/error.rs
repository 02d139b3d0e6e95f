//! The ways in which a request can fail.

use vstd::prelude::*;

verus! {

/// Why a request was turned down. A request that fails leaves the store as it
/// found it.
#[derive(Debug, Clone, Copy, PartialEq, Eq, Structural)]
pub enum ContractError {
    /// The counter that the request would advance already holds `u64::MAX`.
    CounterOverflow,
    /// Nothing is stored under the identifier asked for.
    NotFound,
    /// An entry that the request reads does not hold a well-formed encoding.
    InvalidData,
}

} // verus!
