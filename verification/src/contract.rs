//! The market contract of one node: its ledgers, and the handlers that
//! operations and incoming messages run through.

use vstd::prelude::*;
use crate::error::MarketError;
use crate::laws::{
    creation_keeps_shape, oracles_are_only_added, receipt_keeps_shape, resolution_keeps_shape,
    revision_keeps_shape, staking_keeps_shape, subscription_is_idempotent,
};
use crate::market::{labels, Market};
use crate::message::{
    broadcast_odds, outbox, Message, Operation, OperationOutcome, OperationOutcomeView,
    OutgoingMessage, OutgoingMessageView,
};
use crate::model::StateView;
use crate::payout::{compute_payouts, payout_notices, pool_amount, pool_for, PayoutPool};
use crate::registry::insert_chain;
use crate::stakes::{accumulate_stake, StakeKey};
use crate::state::{market_views, PredictionMarketState};
use crate::types::{Amount, Caller, ChainId, Odds, Timestamp};

verus! {

/// The contract: the ledgers of one node, and the pool that its markets
/// pay out when they are resolved.
pub struct PredictionMarketContract {
    state: PredictionMarketState,
    payout_pool: PayoutPool,
}

impl View for PredictionMarketContract {
    type V = StateView;

    closed spec fn view(&self) -> StateView {
        self.state@
    }
}

impl PredictionMarketContract {
    /// The pool that this contract's markets pay out.
    pub closed spec fn pool(&self) -> PayoutPool {
        self.payout_pool
    }

    /// Sets up the contract of the node `creator_chain`, which becomes its
    /// first oracle.
    pub fn instantiate(creator_chain: ChainId, payout_pool: PayoutPool) -> (contract: Self)
        ensures
            contract@ == StateView::instantiated(creator_chain),
            contract@.well_formed(),
            contract.pool() == payout_pool,
    {
        PredictionMarketContract { state: PredictionMarketState::new(creator_chain), payout_pool }
    }

    /// Takes up ledgers that were stored earlier, if they are well-formed.
    pub fn load(state: PredictionMarketState, payout_pool: PayoutPool) -> (loaded: Option<Self>)
        ensures
            match loaded {
                Some(contract) => {
                    &&& state@.well_formed()
                    &&& contract@ == state@
                    &&& contract.pool() == payout_pool
                },
                None => !state@.well_formed(),
            },
    {
        if state.is_well_formed() {
            Some(PredictionMarketContract { state, payout_pool })
        } else {
            None
        }
    }

    /// Hands the ledgers out, to be stored.
    pub fn store(self) -> (state: PredictionMarketState)
        ensures
            state@ == self@,
    {
        self.state
    }

    /// The ledgers, to read.
    pub fn state(&self) -> (state: &PredictionMarketState)
        ensures
            state@ == self@,
    {
        &self.state
    }

    /// The pool that this contract's markets pay out.
    pub fn payout_pool(&self) -> (pool: PayoutPool)
        ensures
            pool == self.pool(),
    {
        self.payout_pool
    }

    /// Lets the caller pass if its node is an oracle.
    pub fn check_oracle_permission(&self, caller: &Caller) -> (result: Result<(), MarketError>)
        ensures
            match result {
                Ok(()) => self@.is_oracle(caller.chain_id),
                Err(error) => {
                    &&& !self@.is_oracle(caller.chain_id)
                    &&& error == MarketError::Unauthorized { chain_id: caller.chain_id }
                },
            },
    {
        if self.state.is_oracle(caller.chain_id) {
            Ok(())
        } else {
            Err(MarketError::Unauthorized { chain_id: caller.chain_id })
        }
    }

    /// Works out what each stake on the winning outcome of `market` earns.
    pub fn process_payouts(
        &self,
        market_id: u64,
        winning_outcome: u32,
        market: &Market,
    ) -> (notices: Vec<OutgoingMessage>)
        requires
            winning_outcome < market@.total_staked.len(),
        ensures
            outbox(notices@) == payout_notices(
                self@.stakes,
                market_id,
                winning_outcome,
                pool_amount(self.pool(), market@.total_staked, winning_outcome),
                market@.total_staked[winning_outcome as int],
            ),
    {
        let winning_total = market.total_staked[winning_outcome as usize];
        let pool = pool_for(self.payout_pool, &market.total_staked, winning_outcome);
        compute_payouts(&self.state.stakes, market_id, winning_outcome, pool, winning_total)
    }

    /// Creates a market and returns its id. The caller must be signed, and
    /// a market needs at least two outcomes.
    pub fn create_market(
        &mut self,
        caller: &Caller,
        question: String,
        outcomes: Vec<String>,
        resolution_time: Timestamp,
    ) -> (result: Result<u64, MarketError>)
        requires
            old(self)@.well_formed(),
        ensures
            match result {
                Ok(market_id) => old(self)@.create_market(
                    *caller,
                    question@,
                    labels(outcomes@),
                    resolution_time,
                ) == Ok::<(StateView, u64), MarketError>((final(self)@, market_id)),
                Err(error) => {
                    &&& old(self)@.create_market(
                        *caller,
                        question@,
                        labels(outcomes@),
                        resolution_time,
                    ) == Err::<(StateView, u64), MarketError>(error)
                    &&& final(self)@ == old(self)@
                },
            },
            final(self)@.well_formed(),
            final(self).pool() == old(self).pool(),
    {
        let creator = match caller.authenticated_signer {
            Some(creator) => creator,
            None => {
                return Err(MarketError::Unauthenticated);
            },
        };
        let market_id = self.state.next_market_id;
        let market = match Market::open(market_id, creator, question, outcomes, resolution_time) {
            Ok(market) => market,
            Err(error) => {
                return Err(error);
            },
        };
        let ghost opened = market@;
        self.state.markets.push(market);
        self.state.winning_outcomes.push(None);
        self.state.next_market_id = self.state.markets.len() as u64;
        proof {
            assert(market_views(self.state.markets@) =~= market_views(old(self).state.markets@).push(
                opened,
            ));
            creation_keeps_shape(
                old(self)@,
                *caller,
                question@,
                labels(outcomes@),
                resolution_time,
                self@,
                market_id,
            );
        }
        Ok(market_id)
    }

    /// Stakes `amount` on an outcome of a market, for the calling node: the
    /// amount is added, saturating, to the node's record and to the market's
    /// total for the outcome. Only active markets take stakes.
    pub fn stake(
        &mut self,
        caller: &Caller,
        market_id: u64,
        outcome_index: u32,
        amount: Amount,
    ) -> (result: Result<(), MarketError>)
        requires
            old(self)@.well_formed(),
        ensures
            match result {
                Ok(()) => old(self)@.stake(caller.chain_id, market_id, outcome_index, amount)
                    == Ok::<StateView, MarketError>(final(self)@),
                Err(error) => {
                    &&& old(self)@.stake(caller.chain_id, market_id, outcome_index, amount)
                        == Err::<StateView, MarketError>(error)
                    &&& final(self)@ == old(self)@
                },
            },
            final(self)@.well_formed(),
            final(self).pool() == old(self).pool(),
    {
        if market_id >= self.state.markets.len() as u64 {
            return Err(MarketError::MarketNotFound { market_id });
        }
        let index = market_id as usize;
        assert(old(self)@.markets[index as int] == self.state.markets@[index as int]@);
        let outcome = self.state.markets[index].add_stake(outcome_index, amount);
        proof {
            assert(market_views(self.state.markets@) =~= market_views(
                old(self).state.markets@,
            ).update(index as int, self.state.markets@[index as int]@));
        }
        match outcome {
            Ok(()) => {},
            Err(error) => {
                assert(self@.markets =~= old(self)@.markets);
                return Err(error);
            },
        }
        accumulate_stake(
            &mut self.state.stakes,
            StakeKey { market_id, outcome_index, chain_id: caller.chain_id },
            amount,
        );
        proof {
            staking_keeps_shape(
                old(self)@,
                caller.chain_id,
                market_id,
                outcome_index,
                amount,
                self@,
            );
        }
        Ok(())
    }

    /// Replaces the odds of an active market, for an oracle, and writes the
    /// update for every subscriber. The sentiment score travels with the
    /// update and is not looked at.
    pub fn update_odds(
        &mut self,
        caller: &Caller,
        market_id: u64,
        new_odds: Vec<Odds>,
        sentiment_score: i32,
    ) -> (result: Result<Vec<OutgoingMessage>, MarketError>)
        requires
            old(self)@.well_formed(),
        ensures
            match result {
                Ok(messages) => old(self)@.update_odds(
                    caller.chain_id,
                    market_id,
                    new_odds@,
                    sentiment_score,
                ) == Ok::<(StateView, Seq<OutgoingMessageView>), MarketError>(
                    (final(self)@, outbox(messages@)),
                ),
                Err(error) => {
                    &&& old(self)@.update_odds(
                        caller.chain_id,
                        market_id,
                        new_odds@,
                        sentiment_score,
                    ) == Err::<(StateView, Seq<OutgoingMessageView>), MarketError>(
                        error,
                    )
                    &&& final(self)@ == old(self)@
                },
            },
            final(self)@.well_formed(),
            final(self).pool() == old(self).pool(),
    {
        match self.check_oracle_permission(caller) {
            Ok(()) => {},
            Err(error) => {
                return Err(error);
            },
        }
        if market_id >= self.state.markets.len() as u64 {
            return Err(MarketError::MarketNotFound { market_id });
        }
        let index = market_id as usize;
        assert(old(self)@.markets[index as int] == self.state.markets@[index as int]@);
        let outcome = self.state.markets[index].set_odds(new_odds);
        proof {
            assert(market_views(self.state.markets@) =~= market_views(
                old(self).state.markets@,
            ).update(index as int, self.state.markets@[index as int]@));
        }
        match outcome {
            Ok(()) => {},
            Err(error) => {
                assert(self@.markets =~= old(self)@.markets);
                return Err(error);
            },
        }
        let messages = broadcast_odds(
            &self.state.subscribers,
            market_id,
            &self.state.markets[index].odds,
            sentiment_score,
        );
        proof {
            revision_keeps_shape(
                old(self)@,
                caller.chain_id,
                market_id,
                new_odds@,
                sentiment_score,
                self@,
                outbox(messages@),
            );
        }
        Ok(messages)
    }

    /// Resolves an active market, for an oracle: the market becomes
    /// resolved, the winning outcome goes on record for good, and a payout
    /// notice is written for every stake on it.
    pub fn resolve(
        &mut self,
        caller: &Caller,
        market_id: u64,
        winning_outcome: u32,
    ) -> (result: Result<Vec<OutgoingMessage>, MarketError>)
        requires
            old(self)@.well_formed(),
        ensures
            match result {
                Ok(messages) => old(self)@.resolve(
                    caller.chain_id,
                    market_id,
                    winning_outcome,
                    old(self).pool(),
                ) == Ok::<(StateView, Seq<OutgoingMessageView>), MarketError>(
                    (final(self)@, outbox(messages@)),
                ),
                Err(error) => {
                    &&& old(self)@.resolve(
                        caller.chain_id,
                        market_id,
                        winning_outcome,
                        old(self).pool(),
                    ) == Err::<(StateView, Seq<OutgoingMessageView>), MarketError>(
                        error,
                    )
                    &&& final(self)@ == old(self)@
                },
            },
            final(self)@.well_formed(),
            final(self).pool() == old(self).pool(),
    {
        match self.check_oracle_permission(caller) {
            Ok(()) => {},
            Err(error) => {
                return Err(error);
            },
        }
        if market_id >= self.state.markets.len() as u64 {
            return Err(MarketError::MarketNotFound { market_id });
        }
        let index = market_id as usize;
        assert(old(self)@.markets[index as int] == self.state.markets@[index as int]@);
        let outcome = self.state.markets[index].resolve(winning_outcome);
        proof {
            assert(market_views(self.state.markets@) =~= market_views(
                old(self).state.markets@,
            ).update(index as int, self.state.markets@[index as int]@));
        }
        match outcome {
            Ok(()) => {},
            Err(error) => {
                assert(self@.markets =~= old(self)@.markets);
                return Err(error);
            },
        }
        self.state.winning_outcomes[index] = Some(winning_outcome);
        let messages = self.process_payouts(market_id, winning_outcome, &self.state.markets[index]);
        proof {
            resolution_keeps_shape(
                old(self)@,
                caller.chain_id,
                market_id,
                winning_outcome,
                old(self).pool(),
                self@,
                outbox(messages@),
            );
        }
        Ok(messages)
    }

    /// Subscribes the calling node to odds updates. A subscription is to
    /// the contract, not to one market: a subscriber is sent the updates of
    /// every market. Subscribing again changes nothing.
    pub fn subscribe(&mut self, caller: &Caller)
        requires
            old(self)@.well_formed(),
        ensures
            final(self)@ == old(self)@.subscribe(caller.chain_id),
            final(self)@.well_formed(),
            final(self).pool() == old(self).pool(),
    {
        insert_chain(&mut self.state.subscribers, caller.chain_id);
        proof {
            subscription_is_idempotent(old(self)@, caller.chain_id);
        }
    }

    /// Makes `oracle_chain` an oracle, if the caller is one. The node that
    /// instantiated the contract is its first oracle and oracles are never
    /// removed, so it can always add others.
    pub fn add_oracle(
        &mut self,
        caller: &Caller,
        oracle_chain: ChainId,
    ) -> (result: Result<(), MarketError>)
        requires
            old(self)@.well_formed(),
        ensures
            match result {
                Ok(()) => old(self)@.add_oracle(caller.chain_id, oracle_chain) == Ok::<
                    StateView,
                    MarketError,
                >(final(self)@),
                Err(error) => {
                    &&& old(self)@.add_oracle(caller.chain_id, oracle_chain) == Err::<
                        StateView,
                        MarketError,
                    >(error)
                    &&& final(self)@ == old(self)@
                },
            },
            final(self)@.well_formed(),
            final(self).pool() == old(self).pool(),
    {
        match self.check_oracle_permission(caller) {
            Ok(()) => {},
            Err(error) => {
                return Err(error);
            },
        }
        insert_chain(&mut self.state.authorized_oracles, oracle_chain);
        proof {
            oracles_are_only_added(old(self)@, caller.chain_id, oracle_chain, self@);
        }
        Ok(())
    }

    /// Runs one operation: the handler of its kind decides, and either all
    /// of its changes are made or none.
    pub fn execute_operation(
        &mut self,
        caller: &Caller,
        operation: Operation,
    ) -> (result: Result<OperationOutcome, MarketError>)
        requires
            old(self)@.well_formed(),
        ensures
            match result {
                Ok(outcome) => old(self)@.execute(*caller, operation@, old(self).pool()) == Ok::<
                    (StateView, OperationOutcomeView),
                    MarketError,
                >((final(self)@, outcome@)),
                Err(error) => {
                    &&& old(self)@.execute(*caller, operation@, old(self).pool()) == Err::<
                        (StateView, OperationOutcomeView),
                        MarketError,
                    >(error)
                    &&& final(self)@ == old(self)@
                },
            },
            final(self)@.well_formed(),
            final(self).pool() == old(self).pool(),
    {
        match operation {
            Operation::CreateMarket { question, outcomes, resolution_time } => {
                match self.create_market(caller, question, outcomes, resolution_time) {
                    Ok(market_id) => {
                        let outcome = OperationOutcome { response: market_id, messages: Vec::new() };
                        assert(outcome@.messages =~= Seq::empty());
                        Ok(outcome)
                    },
                    Err(error) => Err(error),
                }
            },
            Operation::Stake { market_id, outcome_index, amount } => {
                match self.stake(caller, market_id, outcome_index, amount) {
                    Ok(()) => {
                        let outcome = OperationOutcome { response: market_id, messages: Vec::new() };
                        assert(outcome@.messages =~= Seq::empty());
                        Ok(outcome)
                    },
                    Err(error) => Err(error),
                }
            },
            Operation::UpdateOdds { market_id, new_odds, sentiment_score } => {
                match self.update_odds(caller, market_id, new_odds, sentiment_score) {
                    Ok(messages) => Ok(OperationOutcome { response: market_id, messages }),
                    Err(error) => Err(error),
                }
            },
            Operation::Resolve { market_id, winning_outcome } => {
                match self.resolve(caller, market_id, winning_outcome) {
                    Ok(messages) => Ok(OperationOutcome { response: market_id, messages }),
                    Err(error) => Err(error),
                }
            },
            Operation::Subscribe => {
                self.subscribe(caller);
                let outcome = OperationOutcome { response: 0, messages: Vec::new() };
                assert(outcome@.messages =~= Seq::empty());
                Ok(outcome)
            },
            Operation::AddOracle { oracle_chain } => {
                match self.add_oracle(caller, oracle_chain) {
                    Ok(()) => {
                        let outcome = OperationOutcome { response: 0, messages: Vec::new() };
                        assert(outcome@.messages =~= Seq::empty());
                        Ok(outcome)
                    },
                    Err(error) => Err(error),
                }
            },
        }
    }

    /// Takes in a message from another node. An odds update replaces the
    /// odds of the market it names where that market is known here, still
    /// active, and has as many outcomes as the update has odds; otherwise
    /// it is dropped. A payout notice changes nothing.
    pub fn execute_message(&mut self, message: Message)
        requires
            old(self)@.well_formed(),
        ensures
            final(self)@ == old(self)@.receive(message@),
            final(self)@.well_formed(),
            final(self).pool() == old(self).pool(),
    {
        proof {
            receipt_keeps_shape(old(self)@, message@);
        }
        match message {
            Message::SentimentUpdate { market_id, odds, sentiment_score } => {
                if market_id < self.state.markets.len() as u64 {
                    let index = market_id as usize;
                    assert(old(self)@.markets[index as int] == self.state.markets@[index as int]@);
                    let outcome = self.state.markets[index].set_odds(odds);
                    proof {
                        assert(market_views(self.state.markets@) =~= market_views(
                            old(self).state.markets@,
                        ).update(index as int, self.state.markets@[index as int]@));
                        if outcome is Err {
                            assert(self@.markets =~= old(self)@.markets);
                        }
                    }
                }
            },
            Message::Payout { market_id, amount, beneficiary } => {},
        }
    }
}

} // verus!
