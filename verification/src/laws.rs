//! What holds of the market state machine, whatever is asked of it.

use vstd::prelude::*;
use crate::amount::{capped, saturating_sum};
use crate::error::MarketError;
use crate::message::{MessageView, OperationOutcomeView, OperationView, OutgoingMessageView};
use crate::model::StateView;
use crate::payout::{lemma_payouts_follow_stakes, paid_out, pool_amount, PayoutPool};
use crate::registry::lemma_with_chain;
use crate::stakes::{
    has_stake, lemma_nothing_staked_on, lemma_share_within_total, lemma_with_stake,
    lemma_with_stake_totals, position_of, share_in, stake_of, staked_on, StakeKey,
};
use crate::types::{Amount, Caller, ChainId, MarketStatus, Odds, Timestamp};

verus! {

/// A freshly instantiated contract is well-formed, and its only oracle is
/// the node that instantiated it.
pub proof fn instantiation_seeds_one_oracle(creator_chain: ChainId, other: ChainId)
    ensures
        StateView::instantiated(creator_chain).well_formed(),
        StateView::instantiated(creator_chain).is_oracle(other) <==> other == creator_chain,
        StateView::instantiated(creator_chain).oracle_set() == set![creator_chain],
        StateView::instantiated(creator_chain).subscriber_set() == Set::<ChainId>::empty(),
        StateView::instantiated(creator_chain).stake_ledger() == Map::<StakeKey, Amount>::empty(),
{
    let fresh = StateView::instantiated(creator_chain);
    assert(fresh.authorized_oracles[0] == creator_chain);
    assert(fresh.oracle_set() =~= set![creator_chain]);
    assert(fresh.subscriber_set() =~= Set::<ChainId>::empty());
    assert(fresh.stake_ledger() =~= Map::<StakeKey, Amount>::empty());
}

/// Creating a market keeps the ledgers well-formed; the new market stands
/// at the place of its id, is active, and has one odds entry and one staked
/// total for each of its outcomes. (Market ids are 64-bit numbers, so a
/// market can only be created while one is left.)
pub proof fn creation_keeps_shape(
    before: StateView,
    caller: Caller,
    question: Seq<char>,
    outcomes: Seq<Seq<char>>,
    resolution_time: Timestamp,
    after: StateView,
    market_id: u64,
)
    requires
        before.well_formed(),
        before.next_market_id < u64::MAX,
        before.create_market(caller, question, outcomes, resolution_time) == Ok::<
            (StateView, u64),
            MarketError,
        >((after, market_id)),
    ensures
        after.well_formed(),
        market_id == before.next_market_id,
        after.has_market(market_id),
        after.markets[market_id as int].status == MarketStatus::Active,
        after.markets[market_id as int].outcomes == outcomes,
        after.markets[market_id as int].odds.len() == outcomes.len(),
        after.markets[market_id as int].total_staked.len() == outcomes.len(),
{
    assert forall|i: int| 0 <= i < after.markets.len() implies (#[trigger] after.markets[i]).id
        == i && after.markets[i].well_formed() && crate::model::outcome_on_record(
        after.markets[i],
        after.winning_outcomes[i],
    ) by {
        if i < before.markets.len() {
            assert(after.markets[i] == before.markets[i]);
        }
    }
    assert forall|k: int| 0 <= k < after.stakes.len() implies after.has_outcome(
        (#[trigger] after.stakes[k]).key.market_id,
        after.stakes[k].key.outcome_index,
    ) by {
        let key = before.stakes[k].key;
        assert(before.has_outcome(key.market_id, key.outcome_index));
        assert(after.markets[key.market_id as int] == before.markets[key.market_id as int]);
    }
    assert forall|id: u64, outcome_index: u32| after.has_outcome(id, outcome_index) implies
        after.markets[id as int].total_staked[outcome_index as int] == capped(
        #[trigger] staked_on(after.stakes, id, outcome_index),
    ) by {
        if id < before.markets.len() {
            assert(after.markets[id as int] == before.markets[id as int]);
            assert(before.has_outcome(id, outcome_index));
        } else {
            assert forall|k: int| 0 <= k < after.stakes.len() implies share_in(
                #[trigger] after.stakes[k],
                id,
                outcome_index,
            ) == 0 by {
                let key = before.stakes[k].key;
                assert(before.has_outcome(key.market_id, key.outcome_index));
            }
            lemma_nothing_staked_on(after.stakes, id, outcome_index);
        }
    }
}

/// Staking keeps the ledgers well-formed.
pub proof fn staking_keeps_shape(
    before: StateView,
    chain_id: ChainId,
    market_id: u64,
    outcome_index: u32,
    amount: Amount,
    after: StateView,
)
    requires
        before.well_formed(),
        before.stake(chain_id, market_id, outcome_index, amount) == Ok::<StateView, MarketError>(
            after,
        ),
    ensures
        after.well_formed(),
{
    let key = StakeKey { market_id, outcome_index, chain_id };
    lemma_with_stake(before.stakes, key, amount);
    assert forall|i: int| 0 <= i < after.markets.len() implies (#[trigger] after.markets[i]).id
        == i && after.markets[i].well_formed() && crate::model::outcome_on_record(
        after.markets[i],
        after.winning_outcomes[i],
    ) by {
        assert(before.markets[i].id == i);
    }
    assert forall|k: int| 0 <= k < after.stakes.len() implies after.has_outcome(
        (#[trigger] after.stakes[k]).key.market_id,
        after.stakes[k].key.outcome_index,
    ) by {
        if k < before.stakes.len() {
            let old_key = before.stakes[k].key;
            assert(before.has_outcome(old_key.market_id, old_key.outcome_index));
            if after.stakes[k].key != old_key {
                assert(after.stakes[k].key == key);
            }
        } else {
            assert(after.stakes[k].key == key);
        }
        let new_key = after.stakes[k].key;
        assert(before.markets[new_key.market_id as int].id == new_key.market_id);
    }
    assert forall|id: u64, index: u32| after.has_outcome(id, index) implies
        after.markets[id as int].total_staked[index as int] == capped(
        #[trigger] staked_on(after.stakes, id, index),
    ) by {
        assert(before.markets[id as int].id == id);
        assert(before.has_outcome(id, index));
        assert(before.markets[id as int].total_staked[index as int] == capped(
            staked_on(before.stakes, id, index),
        ));
        lemma_with_stake_totals(before.stakes, key, amount, id, index);
    }
}

/// Revising odds keeps the ledgers well-formed: the market still has one
/// odds entry and one staked total for each of its outcomes.
pub proof fn revision_keeps_shape(
    before: StateView,
    chain_id: ChainId,
    market_id: u64,
    new_odds: Seq<Odds>,
    sentiment_score: i32,
    after: StateView,
    messages: Seq<OutgoingMessageView>,
)
    requires
        before.well_formed(),
        before.update_odds(chain_id, market_id, new_odds, sentiment_score) == Ok::<
            (StateView, Seq<OutgoingMessageView>),
            MarketError,
        >((after, messages)),
    ensures
        after.well_formed(),
        after.markets[market_id as int].odds == new_odds,
        after.markets[market_id as int].odds.len() == after.markets[market_id as int].outcomes.len(),
        after.markets[market_id as int].total_staked.len()
            == after.markets[market_id as int].outcomes.len(),
        after.markets[market_id as int].outcomes == before.markets[market_id as int].outcomes,
{
    assert forall|i: int| 0 <= i < after.markets.len() implies (#[trigger] after.markets[i]).id
        == i && after.markets[i].well_formed() && crate::model::outcome_on_record(
        after.markets[i],
        after.winning_outcomes[i],
    ) by {
        assert(before.markets[i].id == i);
    }
}

/// Resolving keeps the ledgers well-formed, makes the market resolved and
/// puts the winning outcome on record.
pub proof fn resolution_keeps_shape(
    before: StateView,
    chain_id: ChainId,
    market_id: u64,
    winning_outcome: u32,
    pool: PayoutPool,
    after: StateView,
    messages: Seq<OutgoingMessageView>,
)
    requires
        before.well_formed(),
        before.resolve(chain_id, market_id, winning_outcome, pool) == Ok::<
            (StateView, Seq<OutgoingMessageView>),
            MarketError,
        >((after, messages)),
    ensures
        after.well_formed(),
        after.markets[market_id as int].status == MarketStatus::Resolved,
        after.winning_outcome(market_id) == Some(winning_outcome),
{
    assert forall|i: int| 0 <= i < after.markets.len() implies (#[trigger] after.markets[i]).id
        == i && after.markets[i].well_formed() && crate::model::outcome_on_record(
        after.markets[i],
        after.winning_outcomes[i],
    ) by {
        assert(before.markets[i].id == i);
    }
}

/// Subscribing keeps the ledgers well-formed, makes the node a subscriber,
/// and changes nothing when it is repeated.
pub proof fn subscription_is_idempotent(before: StateView, chain_id: ChainId)
    requires
        before.well_formed(),
    ensures
        before.subscribe(chain_id).well_formed(),
        before.subscribe(chain_id).is_subscriber(chain_id),
        before.subscribe(chain_id).subscribe(chain_id) == before.subscribe(chain_id),
        before.subscribe(chain_id).subscriber_set() == before.subscriber_set().insert(chain_id),
{
    lemma_with_chain(before.subscribers, chain_id);
    let after = before.subscribe(chain_id);
    assert forall|i: int| 0 <= i < after.markets.len() implies (#[trigger] after.markets[i]).id
        == i by {
        assert(before.markets[i].id == i);
    }
}

/// Adding an oracle keeps the ledgers well-formed, makes the node an oracle
/// and leaves every earlier oracle in place.
pub proof fn oracles_are_only_added(
    before: StateView,
    chain_id: ChainId,
    oracle_chain: ChainId,
    after: StateView,
)
    requires
        before.well_formed(),
        before.add_oracle(chain_id, oracle_chain) == Ok::<StateView, MarketError>(after),
    ensures
        after.well_formed(),
        after.is_oracle(oracle_chain),
        after.oracle_set() == before.oracle_set().insert(oracle_chain),
        forall|other: ChainId| before.is_oracle(other) ==> after.is_oracle(other),
{
    lemma_with_chain(before.authorized_oracles, oracle_chain);
    assert forall|i: int| 0 <= i < after.markets.len() implies (#[trigger] after.markets[i]).id
        == i by {
        assert(before.markets[i].id == i);
    }
}

/// An incoming message keeps the ledgers well-formed.
pub proof fn receipt_keeps_shape(before: StateView, message: MessageView)
    requires
        before.well_formed(),
    ensures
        before.receive(message).well_formed(),
{
    let after = before.receive(message);
    assert forall|i: int| 0 <= i < after.markets.len() implies (#[trigger] after.markets[i]).id
        == i && after.markets[i].well_formed() && crate::model::outcome_on_record(
        after.markets[i],
        after.winning_outcomes[i],
    ) by {
        assert(before.markets[i].id == i);
    }
}

/// Every operation that succeeds keeps the ledgers well-formed: each market
/// keeps one odds entry and one staked total for each of its outcomes, and
/// the totals keep matching the stake ledger. (Market ids are 64-bit
/// numbers, so a market can only be created while one is left.)
pub proof fn operations_keep_shape(
    before: StateView,
    caller: Caller,
    operation: OperationView,
    pool: PayoutPool,
    after: StateView,
    outcome: OperationOutcomeView,
)
    requires
        before.well_formed(),
        operation is CreateMarket ==> before.next_market_id < u64::MAX,
        before.execute(caller, operation, pool) == Ok::<
            (StateView, OperationOutcomeView),
            MarketError,
        >((after, outcome)),
    ensures
        after.well_formed(),
{
    match operation {
        OperationView::CreateMarket { question, outcomes, resolution_time } => {
            creation_keeps_shape(
                before,
                caller,
                question,
                outcomes,
                resolution_time,
                after,
                outcome.response,
            );
        },
        OperationView::Stake { market_id, outcome_index, amount } => {
            staking_keeps_shape(before, caller.chain_id, market_id, outcome_index, amount, after);
        },
        OperationView::UpdateOdds { market_id, new_odds, sentiment_score } => {
            revision_keeps_shape(
                before,
                caller.chain_id,
                market_id,
                new_odds,
                sentiment_score,
                after,
                outcome.messages,
            );
        },
        OperationView::Resolve { market_id, winning_outcome } => {
            resolution_keeps_shape(
                before,
                caller.chain_id,
                market_id,
                winning_outcome,
                pool,
                after,
                outcome.messages,
            );
        },
        OperationView::Subscribe => {
            subscription_is_idempotent(before, caller.chain_id);
        },
        OperationView::AddOracle { oracle_chain } => {
            oracles_are_only_added(before, caller.chain_id, oracle_chain, after);
        },
    }
}

/// Staking is additive and saturating: after a node has staked `first` and
/// then `second` on one outcome of one market, its stake there is what it
/// was before with both added, saturating, and no less than either; where
/// it had staked nothing before, it is the saturating sum of the two. The
/// market's total for the outcome grows by the same two amounts.
pub proof fn stakes_accumulate(
    before: StateView,
    chain_id: ChainId,
    market_id: u64,
    outcome_index: u32,
    first: Amount,
    second: Amount,
    between: StateView,
    after: StateView,
)
    requires
        before.well_formed(),
        before.stake(chain_id, market_id, outcome_index, first) == Ok::<StateView, MarketError>(
            between,
        ),
        between.stake(chain_id, market_id, outcome_index, second) == Ok::<
            StateView,
            MarketError,
        >(after),
    ensures
        between.staked(market_id, outcome_index, chain_id) == saturating_sum(
            before.staked(market_id, outcome_index, chain_id),
            first,
        ),
        after.staked(market_id, outcome_index, chain_id) == saturating_sum(
            saturating_sum(before.staked(market_id, outcome_index, chain_id), first),
            second,
        ),
        before.staked(market_id, outcome_index, chain_id) == 0 ==> after.staked(
            market_id,
            outcome_index,
            chain_id,
        ) == saturating_sum(first, second),
        after.staked(market_id, outcome_index, chain_id) >= first,
        after.staked(market_id, outcome_index, chain_id) >= second,
        after.markets[market_id as int].total_staked[outcome_index as int] == saturating_sum(
            saturating_sum(
                before.markets[market_id as int].total_staked[outcome_index as int],
                first,
            ),
            second,
        ),
{
    let key = StakeKey { market_id, outcome_index, chain_id };
    lemma_with_stake(before.stakes, key, first);
    staking_keeps_shape(before, chain_id, market_id, outcome_index, first, between);
    lemma_with_stake(between.stakes, key, second);
}

/// A stake touches one entry of the ledger only: the entry of the node on
/// the outcome gets the saturating sum, and what any other node, outcome or
/// market has on the ledger stays as it was.
pub proof fn staking_is_local(
    before: StateView,
    chain_id: ChainId,
    market_id: u64,
    outcome_index: u32,
    amount: Amount,
    after: StateView,
    other: StakeKey,
)
    requires
        before.well_formed(),
        before.stake(chain_id, market_id, outcome_index, amount) == Ok::<StateView, MarketError>(
            after,
        ),
    ensures
        after.stake_ledger() == before.stake_ledger().insert(
            StakeKey { market_id, outcome_index, chain_id },
            saturating_sum(before.staked(market_id, outcome_index, chain_id), amount),
        ),
        other != (StakeKey { market_id, outcome_index, chain_id }) ==> stake_of(after.stakes, other)
            == stake_of(before.stakes, other),
        after.oracle_set() == before.oracle_set(),
        after.subscriber_set() == before.subscriber_set(),
{
    lemma_with_stake(before.stakes, StakeKey { market_id, outcome_index, chain_id }, amount);
}

/// A market is resolved once: after a resolution, no further one succeeds,
/// whoever asks and whatever outcome is named; asked by an oracle for an
/// outcome that the market has, it fails as already resolved.
pub proof fn resolution_happens_once(
    before: StateView,
    chain_id: ChainId,
    market_id: u64,
    winning_outcome: u32,
    pool: PayoutPool,
    after: StateView,
    messages: Seq<OutgoingMessageView>,
    later_chain: ChainId,
    later_outcome: u32,
    later_pool: PayoutPool,
)
    requires
        before.well_formed(),
        before.resolve(chain_id, market_id, winning_outcome, pool) == Ok::<
            (StateView, Seq<OutgoingMessageView>),
            MarketError,
        >((after, messages)),
    ensures
        before.markets[market_id as int].status == MarketStatus::Active,
        before.winning_outcome(market_id) is None,
        after.markets[market_id as int].status == MarketStatus::Resolved,
        after.winning_outcome(market_id) == Some(winning_outcome),
        after.resolve(later_chain, market_id, later_outcome, later_pool) is Err,
        after.is_oracle(later_chain) && later_outcome < after.markets[market_id as int].outcomes.len()
            ==> after.resolve(later_chain, market_id, later_outcome, later_pool) == Err::<
            (StateView, Seq<OutgoingMessageView>),
            MarketError,
        >(MarketError::AlreadyResolved { market_id }),
{
    resolution_keeps_shape(before, chain_id, market_id, winning_outcome, pool, after, messages);
    assert(before.markets[market_id as int].id == market_id);
    assert(after.markets[market_id as int].id == market_id);
}

/// Once a market has left the active state, no operation changes it or the
/// record of its winning outcome.
pub proof fn closed_markets_stay_as_they_are(
    before: StateView,
    caller: Caller,
    operation: OperationView,
    pool: PayoutPool,
    after: StateView,
    outcome: OperationOutcomeView,
    market_id: u64,
)
    requires
        before.well_formed(),
        before.has_market(market_id),
        before.markets[market_id as int].status != MarketStatus::Active,
        before.execute(caller, operation, pool) == Ok::<
            (StateView, OperationOutcomeView),
            MarketError,
        >((after, outcome)),
    ensures
        after.has_market(market_id),
        after.markets[market_id as int] == before.markets[market_id as int],
        after.winning_outcome(market_id) == before.winning_outcome(market_id),
{
}

/// Once a market has left the active state, no incoming message changes it
/// or the record of its winning outcome.
pub proof fn closed_markets_ignore_messages(
    before: StateView,
    message: MessageView,
    market_id: u64,
)
    requires
        before.well_formed(),
        before.has_market(market_id),
        before.markets[market_id as int].status != MarketStatus::Active,
    ensures
        before.receive(message).has_market(market_id),
        before.receive(message).markets[market_id as int] == before.markets[market_id as int],
        before.receive(message).winning_outcome(market_id) == before.winning_outcome(market_id),
{
}

/// Only oracles revise odds and resolve markets: when the calling node is
/// not in the oracle set, both fail as unauthorized, whatever else is asked.
pub proof fn only_oracles_revise_and_resolve(
    state: StateView,
    chain_id: ChainId,
    market_id: u64,
    new_odds: Seq<Odds>,
    sentiment_score: i32,
    winning_outcome: u32,
    pool: PayoutPool,
)
    requires
        !state.is_oracle(chain_id),
    ensures
        state.update_odds(chain_id, market_id, new_odds, sentiment_score) == Err::<
            (StateView, Seq<OutgoingMessageView>),
            MarketError,
        >(MarketError::Unauthorized { chain_id }),
        state.resolve(chain_id, market_id, winning_outcome, pool) == Err::<
            (StateView, Seq<OutgoingMessageView>),
            MarketError,
        >(MarketError::Unauthorized { chain_id }),
        state.add_oracle(chain_id, chain_id) == Err::<StateView, MarketError>(
            MarketError::Unauthorized { chain_id },
        ),
{
}

/// A market on whose winning outcome nothing was staked pays nothing out:
/// its resolution writes no payout notice.
pub proof fn nothing_staked_nothing_paid(
    before: StateView,
    chain_id: ChainId,
    market_id: u64,
    winning_outcome: u32,
    pool: PayoutPool,
    after: StateView,
    messages: Seq<OutgoingMessageView>,
)
    requires
        before.resolve(chain_id, market_id, winning_outcome, pool) == Ok::<
            (StateView, Seq<OutgoingMessageView>),
            MarketError,
        >((after, messages)),
        before.markets[market_id as int].total_staked[winning_outcome as int] == 0,
    ensures
        messages.len() == 0,
{
}

/// No operation loses history: markets are never removed, a market keeps
/// its id, creator, question, outcomes and resolution time, and its staked
/// totals never shrink.
pub proof fn history_is_kept(
    before: StateView,
    caller: Caller,
    operation: OperationView,
    pool: PayoutPool,
    after: StateView,
    outcome: OperationOutcomeView,
    market_id: u64,
    outcome_index: int,
)
    requires
        before.well_formed(),
        before.has_market(market_id),
        0 <= outcome_index < before.markets[market_id as int].outcomes.len(),
        before.execute(caller, operation, pool) == Ok::<
            (StateView, OperationOutcomeView),
            MarketError,
        >((after, outcome)),
    ensures
        after.has_market(market_id),
        after.markets[market_id as int].id == before.markets[market_id as int].id,
        after.markets[market_id as int].creator == before.markets[market_id as int].creator,
        after.markets[market_id as int].question == before.markets[market_id as int].question,
        after.markets[market_id as int].outcomes == before.markets[market_id as int].outcomes,
        after.markets[market_id as int].resolution_time
            == before.markets[market_id as int].resolution_time,
        after.markets[market_id as int].total_staked[outcome_index]
            >= before.markets[market_id as int].total_staked[outcome_index],
{
}

/// No node has more on an outcome than the market's total for it.
pub proof fn no_stake_exceeds_its_total(
    state: StateView,
    market_id: u64,
    outcome_index: u32,
    chain_id: ChainId,
)
    requires
        state.well_formed(),
        state.has_outcome(market_id, outcome_index),
    ensures
        state.staked(market_id, outcome_index, chain_id)
            <= state.markets[market_id as int].total_staked[outcome_index as int],
{
    let key = StakeKey { market_id, outcome_index, chain_id };
    let recorded = staked_on(state.stakes, market_id, outcome_index);
    assert(state.markets[market_id as int].total_staked[outcome_index as int] == capped(recorded));
    if has_stake(state.stakes, key) {
        lemma_share_within_total(state.stakes, position_of(state.stakes, key), market_id, outcome_index);
    }
}

/// The payout notices of a resolution pay out no more than the pool, as
/// long as the total staked on the winning outcome has not saturated.
pub proof fn payouts_stay_within_the_pool(
    before: StateView,
    chain_id: ChainId,
    market_id: u64,
    winning_outcome: u32,
    pool: PayoutPool,
    after: StateView,
    messages: Seq<OutgoingMessageView>,
)
    requires
        before.well_formed(),
        before.resolve(chain_id, market_id, winning_outcome, pool) == Ok::<
            (StateView, Seq<OutgoingMessageView>),
            MarketError,
        >((after, messages)),
        before.markets[market_id as int].total_staked[winning_outcome as int] < u128::MAX,
    ensures
        paid_out(messages) <= pool_amount(
            pool,
            before.markets[market_id as int].total_staked,
            winning_outcome,
        ),
{
    let totals = before.markets[market_id as int].total_staked;
    let winning_total = totals[winning_outcome as int];
    let prize = pool_amount(pool, totals, winning_outcome);
    if winning_total > 0 {
        let recorded = staked_on(before.stakes, market_id, winning_outcome);
        assert(before.has_outcome(market_id, winning_outcome));
        assert(winning_total == capped(recorded));
        lemma_payouts_follow_stakes(before.stakes, market_id, winning_outcome, prize, winning_total);
        let paid = paid_out(messages);
        assert(paid <= prize) by (nonlinear_arith)
            requires
                paid * winning_total <= recorded * prize,
                recorded == winning_total,
                winning_total > 0,
                paid >= 0,
                prize >= 0,
        ;
    }
}

/// No operation takes anything back: what a node has staked never
/// shrinks, an oracle stays an oracle, and a subscriber stays a subscriber.
pub proof fn nothing_is_taken_back(
    before: StateView,
    caller: Caller,
    operation: OperationView,
    pool: PayoutPool,
    after: StateView,
    outcome: OperationOutcomeView,
    market_id: u64,
    outcome_index: u32,
    chain_id: ChainId,
)
    requires
        before.well_formed(),
        before.execute(caller, operation, pool) == Ok::<
            (StateView, OperationOutcomeView),
            MarketError,
        >((after, outcome)),
    ensures
        after.staked(market_id, outcome_index, chain_id) >= before.staked(
            market_id,
            outcome_index,
            chain_id,
        ),
        before.is_oracle(chain_id) ==> after.is_oracle(chain_id),
        before.is_subscriber(chain_id) ==> after.is_subscriber(chain_id),
{
    match operation {
        OperationView::Stake { market_id: staked_market, outcome_index: staked_outcome, amount } => {
            lemma_with_stake(
                before.stakes,
                StakeKey {
                    market_id: staked_market,
                    outcome_index: staked_outcome,
                    chain_id: caller.chain_id,
                },
                amount,
            );
        },
        OperationView::Subscribe => {
            lemma_with_chain(before.subscribers, caller.chain_id);
        },
        OperationView::AddOracle { oracle_chain } => {
            lemma_with_chain(before.authorized_oracles, oracle_chain);
        },
        _ => {},
    }
}

} // verus!
