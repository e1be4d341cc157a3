//! Payouts: the pool that a resolved market distributes, and the share of
//! it that each stake on the winning outcome earns.

use vstd::prelude::*;
use vstd::arithmetic::div_mod::lemma_fundamental_div_mod;
use crate::amount::{capped, proportional_share, saturating_add, saturating_sum, share_of_pool};
use crate::message::{outbox, Message, MessageView, OutgoingMessage, OutgoingMessageView};
use crate::stakes::{staked_on, StakeRecord};
use crate::types::Amount;

verus! {

/// Where the pool that a resolved market pays out comes from.
#[derive(Clone, Copy, Debug, PartialEq, Eq, Structural)]
pub enum PayoutPool {
    /// Everything that was staked on the market, on any outcome.
    AllStakes,
    /// What was staked on the outcomes that did not win.
    LosingStakes,
    /// A fixed prize.
    Fixed { amount: Amount },
}

/// The sum of a list of amounts, as a natural number.
pub open spec fn staked_sum(totals: Seq<Amount>) -> nat
    decreases totals.len(),
{
    if totals.len() == 0 {
        0
    } else {
        staked_sum(totals.drop_last()) + totals.last() as nat
    }
}

/// The staked totals with the one of `skipped` taken out, if any is.
pub open spec fn without(totals: Seq<Amount>, skipped: Option<usize>) -> Seq<Amount> {
    match skipped {
        Some(index) if index < totals.len() => totals.update(index as int, 0),
        _ => totals,
    }
}

/// The pool that a market with these staked totals pays out once
/// `winning_outcome` has won.
pub open spec fn pool_amount(pool: PayoutPool, totals: Seq<Amount>, winning_outcome: u32) -> Amount {
    match pool {
        PayoutPool::AllStakes => capped(staked_sum(totals)),
        PayoutPool::LosingStakes => capped(
            staked_sum(without(totals, Some(winning_outcome as usize))),
        ),
        PayoutPool::Fixed { amount } => amount,
    }
}

/// Adding the next total to a capped sum, saturating, gives the capped sum
/// of one more total.
proof fn lemma_sum_step(totals: Seq<Amount>, i: int)
    requires
        0 <= i < totals.len(),
    ensures
        staked_sum(totals.take(i + 1)) == staked_sum(totals.take(i)) + totals[i] as nat,
        saturating_sum(capped(staked_sum(totals.take(i))), totals[i]) == capped(
            staked_sum(totals.take(i + 1)),
        ),
{
    assert(totals.take(i + 1).drop_last() =~= totals.take(i));
}

/// Adds up the staked totals, saturating, leaving out the one of `skipped`.
pub fn capped_total(totals: &Vec<Amount>, skipped: Option<usize>) -> (sum: Amount)
    ensures
        sum == capped(staked_sum(without(totals@, skipped))),
{
    let ghost counted = without(totals@, skipped);
    let mut sum: Amount = 0;
    let mut i: usize = 0;
    while i < totals.len()
        invariant
            i <= totals.len(),
            counted == without(totals@, skipped),
            counted.len() == totals.len(),
            sum == capped(staked_sum(counted.take(i as int))),
        decreases totals.len() - i,
    {
        let term: Amount = match skipped {
            Some(index) => if index == i {
                0
            } else {
                totals[i]
            },
            None => totals[i],
        };
        proof {
            lemma_sum_step(counted, i as int);
        }
        sum = saturating_add(sum, term);
        i += 1;
    }
    proof {
        assert(counted.take(totals.len() as int) =~= counted);
    }
    sum
}

/// Works out the pool that a market with these staked totals pays out.
pub fn pool_for(pool: PayoutPool, totals: &Vec<Amount>, winning_outcome: u32) -> (amount: Amount)
    ensures
        amount == pool_amount(pool, totals@, winning_outcome),
{
    match pool {
        PayoutPool::AllStakes => capped_total(totals, None),
        PayoutPool::LosingStakes => capped_total(totals, Some(winning_outcome as usize)),
        PayoutPool::Fixed { amount } => amount,
    }
}

/// Whether a stake earns a payout: it stands on the winning outcome of the
/// market and is not zero.
pub open spec fn is_winning_stake(record: StakeRecord, market_id: u64, winning_outcome: u32) -> bool {
    &&& record.key.market_id == market_id
    &&& record.key.outcome_index == winning_outcome
    &&& record.amount > 0
}

/// The notice that a winning stake earns: its share of the pool, to the
/// node that staked.
pub open spec fn payout_notice(
    record: StakeRecord,
    pool: Amount,
    winning_total: Amount,
) -> OutgoingMessageView {
    OutgoingMessageView {
        destination: record.key.chain_id,
        message: MessageView::Payout {
            market_id: record.key.market_id,
            amount: proportional_share(record.amount, pool, winning_total),
            beneficiary: record.key.chain_id,
        },
    }
}

/// The rule by which a stake record earns a notice or none.
pub open spec fn notice_rule(
    market_id: u64,
    winning_outcome: u32,
    pool: Amount,
    winning_total: Amount,
) -> spec_fn(StakeRecord) -> Option<OutgoingMessageView> {
    |record: StakeRecord|
        if is_winning_stake(record, market_id, winning_outcome) {
            Some(payout_notice(record, pool, winning_total))
        } else {
            None
        }
}

/// The payout notices of a resolved market: none where nothing was staked
/// on the winning outcome; else one for each winning stake, in ledger order.
pub open spec fn payout_notices(
    stakes: Seq<StakeRecord>,
    market_id: u64,
    winning_outcome: u32,
    pool: Amount,
    winning_total: Amount,
) -> Seq<OutgoingMessageView> {
    if winning_total == 0 {
        Seq::empty()
    } else {
        stakes.filter_map(notice_rule(market_id, winning_outcome, pool, winning_total))
    }
}

/// What a message pays out: the amount of a payout notice, and nothing for
/// any other message.
pub open spec fn notice_amount(notice: OutgoingMessageView) -> nat {
    match notice.message {
        MessageView::Payout { market_id, amount, beneficiary } => amount as nat,
        MessageView::SentimentUpdate { market_id, odds, sentiment_score } => 0,
    }
}

/// What a list of messages pays out in all.
pub open spec fn paid_out(notices: Seq<OutgoingMessageView>) -> nat
    decreases notices.len(),
{
    if notices.len() == 0 {
        0
    } else {
        paid_out(notices.drop_last()) + notice_amount(notices.last())
    }
}

/// A share, taken times the total, is within the stake taken times the pool.
pub proof fn lemma_share_is_rounded_down(stake: Amount, pool: Amount, total: Amount)
    requires
        total > 0,
    ensures
        proportional_share(stake, pool, total) * total <= stake * pool,
{
    let product = stake as int * pool as int;
    let exact = product / (total as int);
    assert(product >= 0) by (nonlinear_arith)
        requires
            product == stake as int * pool as int,
    ;
    lemma_fundamental_div_mod(product, total as int);
    assert(exact * total == total * exact) by (nonlinear_arith);
    assert(proportional_share(stake, pool, total) * total <= exact * total) by (nonlinear_arith)
        requires
            proportional_share(stake, pool, total) <= exact,
            total > 0,
    ;
}

/// The notices of a ledger pay out, taken times the total, no more than
/// what the ledger holds on the winning outcome taken times the pool.
pub proof fn lemma_payouts_follow_stakes(
    stakes: Seq<StakeRecord>,
    market_id: u64,
    winning_outcome: u32,
    pool: Amount,
    winning_total: Amount,
)
    requires
        winning_total > 0,
    ensures
        paid_out(
            stakes.filter_map(notice_rule(market_id, winning_outcome, pool, winning_total)),
        ) * winning_total <= staked_on(stakes, market_id, winning_outcome) * pool,
    decreases stakes.len(),
{
    let rule = notice_rule(market_id, winning_outcome, pool, winning_total);
    if stakes.len() == 0 {
        assert(paid_out(stakes.filter_map(rule)) == 0);
        assert(0 * winning_total == 0);
        assert(staked_on(stakes, market_id, winning_outcome) * pool >= 0) by (nonlinear_arith);
    } else {
        let earlier = stakes.drop_last();
        let last = stakes.last();
        lemma_payouts_follow_stakes(earlier, market_id, winning_outcome, pool, winning_total);
        let paid_earlier = paid_out(earlier.filter_map(rule));
        let staked_earlier = staked_on(earlier, market_id, winning_outcome);
        if is_winning_stake(last, market_id, winning_outcome) {
            let notice = payout_notice(last, pool, winning_total);
            let notices = earlier.filter_map(rule) + seq![notice];
            assert(stakes.filter_map(rule) == notices);
            assert(notices.drop_last() =~= earlier.filter_map(rule));
            assert(notices.last() == notice);
            let share = proportional_share(last.amount, pool, winning_total);
            lemma_share_is_rounded_down(last.amount, pool, winning_total);
            assert((paid_earlier + share) * winning_total == paid_earlier * winning_total + share
                * winning_total) by (nonlinear_arith);
            assert((staked_earlier + last.amount) * pool == staked_earlier * pool + last.amount
                * pool) by (nonlinear_arith);
        } else {
            assert(stakes.filter_map(rule) == earlier.filter_map(rule));
            let staked = staked_on(stakes, market_id, winning_outcome);
            assert(staked * pool >= staked_earlier * pool) by (nonlinear_arith)
                requires
                    staked >= staked_earlier,
                    pool >= 0,
            ;
        }
    }
}

/// Writes the payout notices of a resolved market.
pub fn compute_payouts(
    stakes: &Vec<StakeRecord>,
    market_id: u64,
    winning_outcome: u32,
    pool: Amount,
    winning_total: Amount,
) -> (notices: Vec<OutgoingMessage>)
    ensures
        outbox(notices@) == payout_notices(stakes@, market_id, winning_outcome, pool, winning_total),
{
    let mut notices: Vec<OutgoingMessage> = Vec::new();
    if winning_total == 0 {
        assert(outbox(notices@) =~= Seq::empty());
        return notices;
    }
    let ghost rule = notice_rule(market_id, winning_outcome, pool, winning_total);
    let mut i: usize = 0;
    assert(outbox(notices@) =~= stakes@.take(0).filter_map(rule));
    while i < stakes.len()
        invariant
            i <= stakes.len(),
            winning_total > 0,
            rule == notice_rule(market_id, winning_outcome, pool, winning_total),
            outbox(notices@) == stakes@.take(i as int).filter_map(rule),
        decreases stakes.len() - i,
    {
        let record = stakes[i];
        proof {
            stakes@.lemma_filter_map_take_succ(rule, i as int);
        }
        if record.key.market_id == market_id && record.key.outcome_index == winning_outcome
            && record.amount > 0 {
            let amount = share_of_pool(record.amount, pool, winning_total);
            let ghost before = notices@;
            notices.push(
                OutgoingMessage {
                    destination: record.key.chain_id,
                    message: Message::Payout {
                        market_id,
                        amount,
                        beneficiary: record.key.chain_id,
                    },
                },
            );
            proof {
                assert(outbox(notices@) =~= outbox(before).push(notices@[before.len() as int]@));
                assert(outbox(notices@) =~= outbox(before) + seq![
                    payout_notice(record, pool, winning_total),
                ]);
            }
        } else {
            assert(stakes@.take(i + 1).filter_map(rule) =~= stakes@.take(i as int).filter_map(
                rule,
            ));
        }
        i += 1;
    }
    proof {
        assert(stakes@.take(stakes.len() as int) =~= stakes@);
    }
    notices
}

} // verus!
