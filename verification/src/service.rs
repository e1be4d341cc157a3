//! The read-only side of the contract: it answers queries over the ledgers
//! and changes nothing.

use vstd::prelude::*;
use crate::model::StateView;
use crate::state::PredictionMarketState;

verus! {

/// Answers queries over the ledgers of one node.
pub struct PredictionMarketService {
    state: PredictionMarketState,
}

impl View for PredictionMarketService {
    type V = StateView;

    closed spec fn view(&self) -> StateView {
        self.state@
    }
}

impl PredictionMarketService {
    /// A service over the ledgers as they were last stored.
    pub fn new(state: PredictionMarketState) -> (service: Self)
        ensures
            service@ == state@,
    {
        PredictionMarketService { state }
    }

    /// The ledgers, to read.
    pub fn state(&self) -> (state: &PredictionMarketState)
        ensures
            state@ == self@,
    {
        &self.state
    }

    /// The total number of markets, which is also the id that the next
    /// market gets.
    pub fn market_count(&self) -> (count: u64)
        ensures
            count == self@.next_market_id,
            self@.well_formed() ==> count == self@.markets.len(),
    {
        self.state.market_count()
    }
}

} // verus!
