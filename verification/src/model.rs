//! The market state machine as mathematics: what the ledgers hold, and what
//! each operation and each incoming message makes of them.

use vstd::prelude::*;
use crate::error::MarketError;
use crate::market::MarketView;
use crate::message::{
    sentiment_updates, MessageView, OperationOutcomeView, OperationView, OutgoingMessageView,
};
use crate::payout::{payout_notices, pool_amount, PayoutPool};
use crate::registry::with_chain;
use crate::amount::capped;
use crate::stakes::{
    distinct_keys, ledger, stake_of, staked_on, with_stake, StakeKey, StakeRecord,
};
use crate::types::{Amount, Caller, ChainId, MarketStatus, Odds, Timestamp};

verus! {

/// Everything one node's contract holds.
pub struct StateView {
    /// The id that the next market gets: the number of markets so far.
    pub next_market_id: u64,
    /// The markets, each at the place of its id.
    pub markets: Seq<MarketView>,
    /// The stake ledger, in the order in which the records were started.
    pub stakes: Seq<StakeRecord>,
    /// The nodes that receive odds updates, in the order in which they subscribed.
    pub subscribers: Seq<ChainId>,
    /// The nodes that may revise odds and resolve markets.
    pub authorized_oracles: Seq<ChainId>,
    /// For each market, the outcome that won, once it is resolved.
    pub winning_outcomes: Seq<Option<u32>>,
}

/// A winning outcome is on record exactly for a resolved market, and is one
/// of the market's outcomes.
pub open spec fn outcome_on_record(market: MarketView, record: Option<u32>) -> bool {
    match record {
        Some(winning_outcome) => {
            &&& market.status == MarketStatus::Resolved
            &&& winning_outcome < market.outcomes.len()
        },
        None => market.status != MarketStatus::Resolved,
    }
}

impl StateView {
    /// What holds of the ledgers at all times.
    pub open spec fn well_formed(self) -> bool {
        &&& self.next_market_id == self.markets.len()
        &&& self.winning_outcomes.len() == self.markets.len()
        &&& forall|i: int|
            0 <= i < self.markets.len() ==> {
                &&& (#[trigger] self.markets[i]).id == i
                &&& self.markets[i].well_formed()
                &&& outcome_on_record(self.markets[i], self.winning_outcomes[i])
            }
        &&& distinct_keys(self.stakes)
        &&& self.stakes_are_placed()
        &&& self.totals_match_ledger()
        &&& self.subscribers.no_duplicates()
        &&& self.authorized_oracles.no_duplicates()
    }

    /// Every record of the stake ledger stands on an outcome of a market
    /// that exists.
    pub open spec fn stakes_are_placed(self) -> bool {
        forall|k: int|
            0 <= k < self.stakes.len() ==> self.has_outcome(
                (#[trigger] self.stakes[k]).key.market_id,
                self.stakes[k].key.outcome_index,
            )
    }

    /// The staked total of every outcome is what the records on it add up
    /// to, saturating.
    pub open spec fn totals_match_ledger(self) -> bool {
        forall|market_id: u64, outcome_index: u32|
            self.has_outcome(market_id, outcome_index)
                ==> self.markets[market_id as int].total_staked[outcome_index as int] == capped(
                #[trigger] staked_on(self.stakes, market_id, outcome_index),
            )
    }

    /// The ledgers of a freshly instantiated contract: no markets, no
    /// stakes, no subscribers, and the instantiating node as the only oracle.
    pub open spec fn instantiated(creator_chain: ChainId) -> StateView {
        StateView {
            next_market_id: 0,
            markets: Seq::empty(),
            stakes: Seq::empty(),
            subscribers: Seq::empty(),
            authorized_oracles: seq![creator_chain],
            winning_outcomes: Seq::empty(),
        }
    }

    /// The oracle set.
    pub open spec fn oracle_set(self) -> Set<ChainId> {
        self.authorized_oracles.to_set()
    }

    /// The subscriber set.
    pub open spec fn subscriber_set(self) -> Set<ChainId> {
        self.subscribers.to_set()
    }

    /// The stake ledger as a map from market, outcome and node to the
    /// amount that the node has accumulated there.
    pub open spec fn stake_ledger(self) -> Map<StakeKey, Amount> {
        ledger(self.stakes)
    }

    /// Whether `chain_id` may revise odds and resolve markets.
    pub open spec fn is_oracle(self, chain_id: ChainId) -> bool {
        self.authorized_oracles.contains(chain_id)
    }

    /// Whether `chain_id` receives odds updates.
    pub open spec fn is_subscriber(self, chain_id: ChainId) -> bool {
        self.subscribers.contains(chain_id)
    }

    /// Whether a market with this id exists.
    pub open spec fn has_market(self, market_id: u64) -> bool {
        market_id < self.markets.len()
    }

    /// Whether a market with this id exists and has an outcome with this index.
    pub open spec fn has_outcome(self, market_id: u64, outcome_index: u32) -> bool {
        &&& self.has_market(market_id)
        &&& outcome_index < self.markets[market_id as int].outcomes.len()
    }

    /// What `chain_id` has staked on an outcome of a market.
    pub open spec fn staked(self, market_id: u64, outcome_index: u32, chain_id: ChainId) -> Amount {
        stake_of(self.stakes, StakeKey { market_id, outcome_index, chain_id })
    }

    /// The outcome that won the market, once it is resolved.
    pub open spec fn winning_outcome(self, market_id: u64) -> Option<u32> {
        if self.has_market(market_id) {
            self.winning_outcomes[market_id as int]
        } else {
            None
        }
    }

    /// Creating a market: the caller must be signed and give at least two
    /// outcomes. The market gets the next id, which is also the response.
    pub open spec fn create_market(
        self,
        caller: Caller,
        question: Seq<char>,
        outcomes: Seq<Seq<char>>,
        resolution_time: Timestamp,
    ) -> Result<(StateView, u64), MarketError> {
        match caller.authenticated_signer {
            None => Err(MarketError::Unauthenticated),
            Some(creator) => {
                if outcomes.len() < 2 {
                    Err(MarketError::InvalidOutcomeSet { count: outcomes.len() as usize })
                } else {
                    Ok(
                        (
                            StateView {
                                next_market_id: (self.next_market_id + 1) as u64,
                                markets: self.markets.push(
                                    MarketView::opened(
                                        self.next_market_id,
                                        creator,
                                        question,
                                        outcomes,
                                        resolution_time,
                                    ),
                                ),
                                winning_outcomes: self.winning_outcomes.push(None),
                                ..self
                            },
                            self.next_market_id,
                        ),
                    )
                }
            },
        }
    }

    /// Staking: the market must exist, have the outcome, and be active. The
    /// amount is added, saturating, to the node's record and to the
    /// market's total for the outcome.
    pub open spec fn stake(
        self,
        chain_id: ChainId,
        market_id: u64,
        outcome_index: u32,
        amount: Amount,
    ) -> Result<StateView, MarketError> {
        if !self.has_market(market_id) {
            Err(MarketError::MarketNotFound { market_id })
        } else {
            let market = self.markets[market_id as int];
            match market.stake_error(outcome_index) {
                Some(error) => Err(error),
                None => Ok(
                    StateView {
                        markets: self.markets.update(
                            market_id as int,
                            market.with_stake(outcome_index, amount),
                        ),
                        stakes: with_stake(
                            self.stakes,
                            StakeKey { market_id, outcome_index, chain_id },
                            amount,
                        ),
                        ..self
                    },
                ),
            }
        }
    }

    /// Revising odds: the caller must be an oracle, the market must exist,
    /// take one odds entry per outcome, and be active. Every subscriber is
    /// sent the new odds.
    pub open spec fn update_odds(
        self,
        chain_id: ChainId,
        market_id: u64,
        new_odds: Seq<Odds>,
        sentiment_score: i32,
    ) -> Result<(StateView, Seq<OutgoingMessageView>), MarketError> {
        if !self.is_oracle(chain_id) {
            Err(MarketError::Unauthorized { chain_id })
        } else if !self.has_market(market_id) {
            Err(MarketError::MarketNotFound { market_id })
        } else {
            let market = self.markets[market_id as int];
            match market.odds_error(new_odds) {
                Some(error) => Err(error),
                None => Ok(
                    (
                        StateView {
                            markets: self.markets.update(
                                market_id as int,
                                market.with_odds(new_odds),
                            ),
                            ..self
                        },
                        sentiment_updates(self.subscribers, market_id, new_odds, sentiment_score),
                    ),
                ),
            }
        }
    }

    /// Resolving: the caller must be an oracle, the market must exist, have
    /// the outcome, and be active. The market becomes resolved, the winning
    /// outcome goes on record, and every stake on it earns a payout notice.
    pub open spec fn resolve(
        self,
        chain_id: ChainId,
        market_id: u64,
        winning_outcome: u32,
        pool: PayoutPool,
    ) -> Result<(StateView, Seq<OutgoingMessageView>), MarketError> {
        if !self.is_oracle(chain_id) {
            Err(MarketError::Unauthorized { chain_id })
        } else if !self.has_market(market_id) {
            Err(MarketError::MarketNotFound { market_id })
        } else {
            let market = self.markets[market_id as int];
            match market.resolve_error(winning_outcome) {
                Some(error) => Err(error),
                None => Ok(
                    (
                        StateView {
                            markets: self.markets.update(market_id as int, market.resolved()),
                            winning_outcomes: self.winning_outcomes.update(
                                market_id as int,
                                Some(winning_outcome),
                            ),
                            ..self
                        },
                        payout_notices(
                            self.stakes,
                            market_id,
                            winning_outcome,
                            pool_amount(pool, market.total_staked, winning_outcome),
                            market.total_staked[winning_outcome as int],
                        ),
                    ),
                ),
            }
        }
    }

    /// Subscribing: the calling node joins the subscribers.
    pub open spec fn subscribe(self, chain_id: ChainId) -> StateView {
        StateView { subscribers: with_chain(self.subscribers, chain_id), ..self }
    }

    /// Adding an oracle: the caller must be an oracle itself.
    pub open spec fn add_oracle(
        self,
        chain_id: ChainId,
        oracle_chain: ChainId,
    ) -> Result<StateView, MarketError> {
        if !self.is_oracle(chain_id) {
            Err(MarketError::Unauthorized { chain_id })
        } else {
            Ok(
                StateView {
                    authorized_oracles: with_chain(self.authorized_oracles, oracle_chain),
                    ..self
                },
            )
        }
    }

    /// What an operation makes of the ledgers, and what it hands back.
    pub open spec fn execute(
        self,
        caller: Caller,
        operation: OperationView,
        pool: PayoutPool,
    ) -> Result<(StateView, OperationOutcomeView), MarketError> {
        match operation {
            OperationView::CreateMarket { question, outcomes, resolution_time } => {
                match self.create_market(caller, question, outcomes, resolution_time) {
                    Ok((after, market_id)) => Ok(
                        (after, OperationOutcomeView { response: market_id, messages: Seq::empty() }),
                    ),
                    Err(error) => Err(error),
                }
            },
            OperationView::Stake { market_id, outcome_index, amount } => {
                match self.stake(caller.chain_id, market_id, outcome_index, amount) {
                    Ok(after) => Ok(
                        (after, OperationOutcomeView { response: market_id, messages: Seq::empty() }),
                    ),
                    Err(error) => Err(error),
                }
            },
            OperationView::UpdateOdds { market_id, new_odds, sentiment_score } => {
                match self.update_odds(caller.chain_id, market_id, new_odds, sentiment_score) {
                    Ok((after, messages)) => Ok(
                        (after, OperationOutcomeView { response: market_id, messages }),
                    ),
                    Err(error) => Err(error),
                }
            },
            OperationView::Resolve { market_id, winning_outcome } => {
                match self.resolve(caller.chain_id, market_id, winning_outcome, pool) {
                    Ok((after, messages)) => Ok(
                        (after, OperationOutcomeView { response: market_id, messages }),
                    ),
                    Err(error) => Err(error),
                }
            },
            OperationView::Subscribe => Ok(
                (
                    self.subscribe(caller.chain_id),
                    OperationOutcomeView { response: 0, messages: Seq::empty() },
                ),
            ),
            OperationView::AddOracle { oracle_chain } => {
                match self.add_oracle(caller.chain_id, oracle_chain) {
                    Ok(after) => Ok(
                        (after, OperationOutcomeView { response: 0, messages: Seq::empty() }),
                    ),
                    Err(error) => Err(error),
                }
            },
        }
    }

    /// Whether an odds update that came in is taken over: the market must be
    /// known here, still active, and have one outcome per odds entry.
    pub open spec fn accepts_odds(self, market_id: u64, odds: Seq<Odds>) -> bool {
        &&& self.has_market(market_id)
        &&& self.markets[market_id as int].odds_error(odds) is None
    }

    /// What an incoming message makes of the ledgers. An odds update
    /// replaces the odds of the market where it is accepted, and is dropped
    /// where it is not; a payout notice changes nothing.
    pub open spec fn receive(self, message: MessageView) -> StateView {
        match message {
            MessageView::SentimentUpdate { market_id, odds, sentiment_score } => {
                if self.accepts_odds(market_id, odds) {
                    StateView {
                        markets: self.markets.update(
                            market_id as int,
                            self.markets[market_id as int].with_odds(odds),
                        ),
                        ..self
                    }
                } else {
                    self
                }
            },
            MessageView::Payout { market_id, amount, beneficiary } => self,
        }
    }
}

} // verus!
