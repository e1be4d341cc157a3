//! Why an operation was turned down.

use vstd::prelude::*;
use crate::types::ChainId;

verus! {

/// The reason an operation failed. A failed operation leaves every ledger
/// as it was.
#[derive(Clone, Copy, Debug, PartialEq, Eq, Structural)]
pub enum MarketError {
    /// The operation needs a signed caller and none was present.
    Unauthenticated,
    /// The calling node is not an oracle.
    Unauthorized { chain_id: ChainId },
    /// No market has this id.
    MarketNotFound { market_id: u64 },
    /// The market has no outcome with this index.
    InvalidOutcome { outcome_index: u32 },
    /// A market needs at least two outcomes; this many were given.
    InvalidOutcomeSet { count: usize },
    /// The market has `expected` outcomes and `found` odds were given.
    InvalidOddsShape { expected: usize, found: usize },
    /// The market is no longer active.
    AlreadyResolved { market_id: u64 },
}

} // verus!
