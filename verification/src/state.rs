//! The ledgers of one node's contract, as they are held in memory.

use vstd::prelude::*;
use crate::market::{Market, MarketView};
use crate::model::{outcome_on_record, StateView};
use crate::registry::{contains_chain, has_no_duplicates};
use crate::amount::capped;
use crate::stakes::{
    find_stake, has_distinct_keys, staked_on, staked_total, StakeKey, StakeRecord,
};
use crate::types::{Amount, ChainId, MarketStatus};

verus! {

/// The market ledger, the stake ledger, the two registries and the record
/// of winning outcomes.
#[derive(Clone, Debug)]
pub struct PredictionMarketState {
    /// Next available market id.
    pub next_market_id: u64,
    /// All markets, each at the place of its id.
    pub markets: Vec<Market>,
    /// What each node has staked on each outcome of each market.
    pub stakes: Vec<StakeRecord>,
    /// The nodes that receive odds updates.
    pub subscribers: Vec<ChainId>,
    /// The nodes that may revise odds and resolve markets.
    pub authorized_oracles: Vec<ChainId>,
    /// For each market, the outcome that won, once it is resolved.
    pub winning_outcomes: Vec<Option<u32>>,
}

/// A list of markets, each as plain mathematical values.
pub open spec fn market_views(markets: Seq<Market>) -> Seq<MarketView> {
    markets.map_values(|market: Market| market@)
}

impl View for PredictionMarketState {
    type V = StateView;

    open spec fn view(&self) -> StateView {
        StateView {
            next_market_id: self.next_market_id,
            markets: market_views(self.markets@),
            stakes: self.stakes@,
            subscribers: self.subscribers@,
            authorized_oracles: self.authorized_oracles@,
            winning_outcomes: self.winning_outcomes@,
        }
    }
}

/// Whether the record of a market's winning outcome fits the market.
fn record_fits(market: &Market, record: &Option<u32>) -> (ok: bool)
    ensures
        ok == outcome_on_record(market@, *record),
{
    match record {
        Some(winning_outcome) => market.status == MarketStatus::Resolved
            && (*winning_outcome as usize) < market.outcomes.len(),
        None => market.status != MarketStatus::Resolved,
    }
}

impl PredictionMarketState {
    /// Ledgers with nothing in them but the one oracle.
    pub fn new(creator_chain: ChainId) -> (state: PredictionMarketState)
        ensures
            state@ == StateView::instantiated(creator_chain),
            state@.well_formed(),
    {
        let mut authorized_oracles: Vec<ChainId> = Vec::new();
        authorized_oracles.push(creator_chain);
        let state = PredictionMarketState {
            next_market_id: 0,
            markets: Vec::new(),
            stakes: Vec::new(),
            subscribers: Vec::new(),
            authorized_oracles,
            winning_outcomes: Vec::new(),
        };
        proof {
            assert(state@.markets =~= Seq::empty());
            assert(state@.authorized_oracles =~= seq![creator_chain]);
        }
        state
    }

    /// Checks everything that holds of the ledgers at all times; ledgers
    /// read back from storage are put to this test before they are used.
    pub fn is_well_formed(&self) -> (ok: bool)
        ensures
            ok == self@.well_formed(),
    {
        if self.markets.len() as u64 != self.next_market_id {
            return false;
        }
        if self.winning_outcomes.len() != self.markets.len() {
            return false;
        }
        let mut i: usize = 0;
        while i < self.markets.len()
            invariant
                i <= self.markets.len(),
                self.winning_outcomes.len() == self.markets.len(),
                forall|k: int|
                    0 <= k < i ==> {
                        &&& (#[trigger] self@.markets[k]).id == k
                        &&& self@.markets[k].well_formed()
                        &&& outcome_on_record(self@.markets[k], self@.winning_outcomes[k])
                    },
            decreases self.markets.len() - i,
        {
            let market = &self.markets[i];
            assert(self@.markets[i as int] == market@);
            if market.id != i as u64 || !market.is_well_formed() || !record_fits(
                market,
                &self.winning_outcomes[i],
            ) {
                return false;
            }
            i += 1;
        }
        has_distinct_keys(&self.stakes) && self.stakes_are_placed() && self.totals_match_ledger()
            && has_no_duplicates(&self.subscribers) && has_no_duplicates(
            &self.authorized_oracles,
        )
    }

    /// Whether every record of the stake ledger stands on an outcome of a
    /// market that exists.
    fn stakes_are_placed(&self) -> (ok: bool)
        ensures
            ok == self@.stakes_are_placed(),
    {
        let mut k: usize = 0;
        while k < self.stakes.len()
            invariant
                k <= self.stakes.len(),
                forall|j: int|
                    0 <= j < k ==> self@.has_outcome(
                        (#[trigger] self@.stakes[j]).key.market_id,
                        self@.stakes[j].key.outcome_index,
                    ),
            decreases self.stakes.len() - k,
        {
            let key = self.stakes[k].key;
            if key.market_id >= self.markets.len() as u64 {
                assert(!self@.has_outcome(
                    self@.stakes[k as int].key.market_id,
                    self@.stakes[k as int].key.outcome_index,
                ));
                return false;
            }
            let market = &self.markets[key.market_id as usize];
            assert(self@.markets[key.market_id as int] == market@);
            if key.outcome_index as usize >= market.outcomes.len() {
                assert(!self@.has_outcome(
                    self@.stakes[k as int].key.market_id,
                    self@.stakes[k as int].key.outcome_index,
                ));
                return false;
            }
            k += 1;
        }
        true
    }

    /// Whether the staked total of every outcome is what the records on it
    /// add up to.
    fn totals_match_ledger(&self) -> (ok: bool)
        requires
            forall|i: int|
                0 <= i < self.markets.len() ==> (#[trigger] self@.markets[i]).well_formed(),
        ensures
            ok == self@.totals_match_ledger(),
    {
        let mut m: usize = 0;
        while m < self.markets.len()
            invariant
                m <= self.markets.len(),
                forall|i: int|
                    0 <= i < self.markets.len() ==> (#[trigger] self@.markets[i]).well_formed(),
                forall|market_id: u64, outcome_index: u32|
                    market_id < m && self@.has_outcome(market_id, outcome_index)
                        ==> self@.markets[market_id as int].total_staked[outcome_index as int]
                        == capped(#[trigger] staked_on(self@.stakes, market_id, outcome_index)),
            decreases self.markets.len() - m,
        {
            let market = &self.markets[m];
            assert(self@.markets[m as int] == market@);
            assert(market@.well_formed());
            let count = market.outcomes.len() as u64;
            let mut o: u64 = 0;
            while o < count && o <= u32::MAX as u64
                invariant
                    m < self.markets.len(),
                    self@.markets[m as int] == market@,
                    market@.well_formed(),
                    count == market.outcomes.len(),
                    o <= count,
                    o <= u32::MAX as u64 + 1,
                    forall|outcome_index: u32|
                        outcome_index < o ==> market@.total_staked[outcome_index as int] == capped(
                            #[trigger] staked_on(self@.stakes, m as u64, outcome_index),
                        ),
                decreases count - o,
            {
                let recorded = staked_total(&self.stakes, m as u64, o as u32);
                if market.total_staked[o as usize] != recorded {
                    proof {
                        let market_id = m as u64;
                        let outcome_index = o as u32;
                        assert(self@.has_outcome(market_id, outcome_index));
                        assert(self@.markets[market_id as int].total_staked[outcome_index as int]
                            != capped(staked_on(self@.stakes, market_id, outcome_index)));
                    }
                    return false;
                }
                o += 1;
            }
            proof {
                assert forall|market_id: u64, outcome_index: u32|
                    market_id < m + 1 && self@.has_outcome(market_id, outcome_index) implies
                    self@.markets[market_id as int].total_staked[outcome_index as int] == capped(
                    #[trigger] staked_on(self@.stakes, market_id, outcome_index),
                ) by {
                    if market_id == m {
                        assert(outcome_index < o);
                        assert(market_id == m as u64);
                    }
                }
            }
            m += 1;
        }
        true
    }

    /// The number of markets created so far.
    pub fn market_count(&self) -> (count: u64)
        ensures
            count == self@.next_market_id,
    {
        self.next_market_id
    }

    /// The market with this id, if there is one.
    pub fn market(&self, market_id: u64) -> (found: Option<&Market>)
        ensures
            match found {
                Some(market) => self@.has_market(market_id) && market@ == self@.markets[market_id as int],
                None => !self@.has_market(market_id),
            },
    {
        if market_id < self.markets.len() as u64 {
            let market = &self.markets[market_id as usize];
            assert(self@.markets[market_id as int] == market@);
            Some(market)
        } else {
            None
        }
    }

    /// What `chain_id` has staked on an outcome of a market: zero where
    /// there is no record.
    pub fn stake(&self, market_id: u64, outcome_index: u32, chain_id: ChainId) -> (amount: Amount)
        requires
            self@.well_formed(),
        ensures
            amount == self@.staked(market_id, outcome_index, chain_id),
    {
        match find_stake(&self.stakes, StakeKey { market_id, outcome_index, chain_id }) {
            Some(i) => self.stakes[i].amount,
            None => 0,
        }
    }

    /// Whether `chain_id` may revise odds and resolve markets.
    pub fn is_oracle(&self, chain_id: ChainId) -> (member: bool)
        ensures
            member == self@.is_oracle(chain_id),
    {
        contains_chain(&self.authorized_oracles, chain_id)
    }

    /// Whether `chain_id` receives odds updates.
    pub fn is_subscriber(&self, chain_id: ChainId) -> (member: bool)
        ensures
            member == self@.is_subscriber(chain_id),
    {
        contains_chain(&self.subscribers, chain_id)
    }

    /// The outcome that won the market, once it is resolved.
    pub fn winning_outcome(&self, market_id: u64) -> (record: Option<u32>)
        requires
            self@.well_formed(),
        ensures
            record == self@.winning_outcome(market_id),
    {
        if market_id < self.markets.len() as u64 {
            self.winning_outcomes[market_id as usize]
        } else {
            None
        }
    }
}

} // verus!
