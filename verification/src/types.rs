//! Identities and the small value types that the ledgers are built from.

use vstd::prelude::*;

verus! {

/// An amount of tokens, counted in attotokens.
pub type Amount = u128;

/// A point in time, in microseconds since the Unix epoch.
pub type Timestamp = u64;

/// The odds of an outcome: a probability in parts per million, so that
/// `ODDS_ONE` stands for certainty and `ODDS_ONE / 2` for one half. Odds are
/// never negative. Nothing forces the odds of a market to add up to one.
pub type Odds = u64;

/// The odds value that stands for probability one.
pub const ODDS_ONE: u64 = 1_000_000;

/// The identity of a node: the four 64-bit words of its hash.
#[derive(Clone, Copy, Debug, PartialEq, Eq, Hash, Structural)]
pub struct ChainId {
    pub w0: u64,
    pub w1: u64,
    pub w2: u64,
    pub w3: u64,
}

/// The identity of an account that signs operations.
#[derive(Clone, Copy, Debug, PartialEq, Eq, Hash)]
pub enum AccountOwner {
    /// A short address reserved for the protocol.
    Reserved(u8),
    /// A 32-byte address, as four 64-bit words.
    Address32(u64, u64, u64, u64),
    /// A 20-byte address.
    Address20([u8; 20]),
}

/// Who submits an operation: the node it runs on, and the account that
/// signed it, if any did.
#[derive(Clone, Copy, Debug)]
pub struct Caller {
    pub chain_id: ChainId,
    pub authenticated_signer: Option<AccountOwner>,
}

/// Where a market stands in its life.
#[derive(Clone, Copy, Debug, PartialEq, Eq, Structural)]
pub enum MarketStatus {
    Active,
    Resolved,
    Cancelled,
}

} // verus!
