//! A prediction market over a fixed set of outcomes: creation, staking,
//! oracle-gated odds revision and resolution, and proportional payouts.
//!
//! Each node runs a [`PredictionMarketContract`] over its own ledgers.
//! Operations change the ledgers and hand back the messages to send to
//! other nodes; incoming messages update the local copy of a market's odds.
//! `model` says what every operation does, as mathematics; `laws` states
//! what follows for every sequence of operations.

pub mod amount;
pub mod contract;
pub mod error;
pub mod laws;
pub mod market;
pub mod message;
pub mod model;
pub mod payout;
pub mod registry;
pub mod service;
pub mod stakes;
pub mod state;
pub mod types;

pub use crate::contract::PredictionMarketContract;
pub use crate::error::MarketError;
pub use crate::market::Market;
pub use crate::message::{Message, Operation, OperationOutcome, OutgoingMessage};
pub use crate::payout::PayoutPool;
pub use crate::service::PredictionMarketService;
pub use crate::stakes::{StakeKey, StakeRecord};
pub use crate::state::PredictionMarketState;
pub use crate::types::{
    AccountOwner, Amount, Caller, ChainId, MarketStatus, Odds, Timestamp, ODDS_ONE,
};
