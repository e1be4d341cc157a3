use prediction_market::amount::share_of_pool;
use prediction_market::payout::{capped_total, compute_payouts, pool_for};
use prediction_market::{
    AccountOwner, Caller, ChainId, Message, Operation, OutgoingMessage, PayoutPool,
    PredictionMarketContract, StakeKey, StakeRecord,
};

fn chain(n: u64) -> ChainId {
    ChainId { w0: 0, w1: 0, w2: 0, w3: n }
}

fn caller(n: u64) -> Caller {
    Caller { chain_id: chain(n), authenticated_signer: Some(AccountOwner::Reserved(0)) }
}

fn staked_contract(pool: PayoutPool) -> PredictionMarketContract {
    let mut contract = PredictionMarketContract::instantiate(chain(1), pool);
    contract
        .create_market(
            &caller(1),
            "Heads or tails?".to_string(),
            vec!["Heads".to_string(), "Tails".to_string()],
            0,
        )
        .unwrap();
    contract.stake(&caller(10), 0, 0, 100).unwrap();
    contract.stake(&caller(11), 0, 1, 200).unwrap();
    contract.stake(&caller(12), 0, 0, 300).unwrap();
    contract
}

fn payouts_of(messages: &[OutgoingMessage]) -> Vec<(ChainId, u64, u128, ChainId)> {
    messages
        .iter()
        .map(|outgoing| match &outgoing.message {
            Message::Payout { market_id, amount, beneficiary } => {
                (outgoing.destination, *market_id, *amount, *beneficiary)
            }
            other => panic!("unexpected message {:?}", other),
        })
        .collect()
}

#[test]
fn share_is_the_product_over_the_total_rounded_down() {
    assert_eq!(share_of_pool(10, 30, 20), 15);
    assert_eq!(share_of_pool(7, 10, 3), 23);
    assert_eq!(share_of_pool(1, 1, 3), 0);
    assert_eq!(share_of_pool(2, 1, 3), 0);
    assert_eq!(share_of_pool(3, 1, 3), 1);
    assert_eq!(share_of_pool(0, 1_000, 3), 0);
    assert_eq!(share_of_pool(1_000, 0, 3), 0);
    assert_eq!(share_of_pool(5, 7, 1), 35);
}

#[test]
fn share_does_not_overflow_on_the_way() {
    let hundred_tokens = 100 * 10u128.pow(18);
    let thousand_tokens = 1_000 * 10u128.pow(18);
    assert_eq!(
        share_of_pool(hundred_tokens, thousand_tokens, 2 * hundred_tokens),
        500 * 10u128.pow(18)
    );
    assert_eq!(share_of_pool(u128::MAX, u128::MAX, u128::MAX), u128::MAX);
    assert_eq!(share_of_pool(u128::MAX - 1, u128::MAX, u128::MAX), u128::MAX - 1);
    assert_eq!(share_of_pool(u128::MAX, 3, 4), (u128::MAX / 4) * 3 + 2);
    assert_eq!(share_of_pool(1 << 127, 1 << 127, 1 << 126), u128::MAX);
    assert_eq!(share_of_pool(1 << 100, 1 << 100, 1 << 73), 1 << 127);
}

#[test]
fn share_saturates_where_it_does_not_fit() {
    assert_eq!(share_of_pool(u128::MAX, u128::MAX, 1), u128::MAX);
    assert_eq!(share_of_pool(u128::MAX, 2, 1), u128::MAX);
    assert_eq!(share_of_pool(1 << 64, 1 << 64, 1), u128::MAX);
    assert_eq!(share_of_pool((1 << 64) - 1, (1 << 64) + 1, 1), u128::MAX);
    assert_eq!(share_of_pool(1 << 64, 1 << 63, 1), 1 << 127);
}

#[test]
fn totals_add_up_and_saturate() {
    assert_eq!(capped_total(&vec![], None), 0);
    assert_eq!(capped_total(&vec![1, 2, 3], None), 6);
    assert_eq!(capped_total(&vec![1, 2, 3], Some(1)), 4);
    assert_eq!(capped_total(&vec![1, 2, 3], Some(3)), 6);
    assert_eq!(capped_total(&vec![u128::MAX, 2, 3], None), u128::MAX);
    assert_eq!(capped_total(&vec![u128::MAX - 1, 1, 1], None), u128::MAX);
    assert_eq!(capped_total(&vec![u128::MAX, 2, 3], Some(0)), 5);
}

#[test]
fn pool_follows_the_configuration() {
    let totals = vec![400, 200, 50];
    assert_eq!(pool_for(PayoutPool::AllStakes, &totals, 0), 650);
    assert_eq!(pool_for(PayoutPool::LosingStakes, &totals, 0), 250);
    assert_eq!(pool_for(PayoutPool::LosingStakes, &totals, 2), 600);
    assert_eq!(pool_for(PayoutPool::Fixed { amount: 77 }, &totals, 1), 77);
}

#[test]
fn winners_share_all_stakes() {
    let mut contract = staked_contract(PayoutPool::AllStakes);
    let messages = contract.resolve(&caller(1), 0, 0).unwrap();
    assert_eq!(
        payouts_of(&messages),
        vec![(chain(10), 0, 150, chain(10)), (chain(12), 0, 450, chain(12))]
    );
}

#[test]
fn winners_share_the_losing_stakes() {
    let mut contract = staked_contract(PayoutPool::LosingStakes);
    let messages = contract.resolve(&caller(1), 0, 0).unwrap();
    assert_eq!(
        payouts_of(&messages),
        vec![(chain(10), 0, 50, chain(10)), (chain(12), 0, 150, chain(12))]
    );
}

#[test]
fn winners_share_a_fixed_prize() {
    let mut contract = staked_contract(PayoutPool::Fixed { amount: 1_000 });
    let outcome = contract
        .execute_operation(&caller(1), Operation::Resolve { market_id: 0, winning_outcome: 0 })
        .unwrap();
    assert_eq!(outcome.response, 0);
    assert_eq!(
        payouts_of(&outcome.messages),
        vec![(chain(10), 0, 250, chain(10)), (chain(12), 0, 750, chain(12))]
    );
}

#[test]
fn sole_winner_takes_the_pool() {
    let mut contract = staked_contract(PayoutPool::AllStakes);
    let messages = contract.resolve(&caller(1), 0, 1).unwrap();
    assert_eq!(payouts_of(&messages), vec![(chain(11), 0, 600, chain(11))]);
}

#[test]
fn nothing_staked_on_the_winner_means_no_notice() {
    let mut contract = PredictionMarketContract::instantiate(chain(1), PayoutPool::AllStakes);
    contract
        .create_market(&caller(1), "Q".to_string(), vec!["A".to_string(), "B".to_string()], 0)
        .unwrap();
    contract.stake(&caller(10), 0, 1, 100).unwrap();
    contract.stake(&caller(11), 0, 0, 0).unwrap();
    let messages = contract.resolve(&caller(1), 0, 0).unwrap();
    assert!(messages.is_empty());
    assert_eq!(contract.state().winning_outcome(0), Some(0));
}

#[test]
fn zero_stakes_earn_no_notice() {
    let mut contract = staked_contract(PayoutPool::AllStakes);
    contract.stake(&caller(13), 0, 0, 0).unwrap();
    assert_eq!(contract.state().stakes.len(), 4);
    let messages = contract.resolve(&caller(1), 0, 0).unwrap();
    assert_eq!(messages.len(), 2);
}

#[test]
fn stakes_on_other_markets_earn_nothing() {
    let mut contract = staked_contract(PayoutPool::AllStakes);
    contract
        .create_market(&caller(1), "Q2".to_string(), vec!["A".to_string(), "B".to_string()], 0)
        .unwrap();
    contract.stake(&caller(10), 1, 0, 40).unwrap();
    contract.stake(&caller(14), 1, 0, 60).unwrap();
    let messages = contract.resolve(&caller(1), 1, 0).unwrap();
    assert_eq!(
        payouts_of(&messages),
        vec![(chain(10), 1, 40, chain(10)), (chain(14), 1, 60, chain(14))]
    );
    assert_eq!(contract.state().winning_outcome(0), None);
}

#[test]
fn payouts_from_a_bare_ledger() {
    let record = |node: u64, market_id: u64, outcome_index: u32, amount: u128| StakeRecord {
        key: StakeKey { market_id, outcome_index, chain_id: chain(node) },
        amount,
    };
    let ledger =
        vec![record(1, 0, 0, 1), record(2, 0, 1, 5), record(3, 1, 0, 9), record(4, 0, 0, 2)];
    let notices = compute_payouts(&ledger, 0, 0, 10, 3);
    assert_eq!(payouts_of(&notices), vec![(chain(1), 0, 3, chain(1)), (chain(4), 0, 6, chain(4))]);
    assert!(compute_payouts(&ledger, 0, 0, 10, 0).is_empty());
    assert!(compute_payouts(&ledger, 2, 0, 10, 3).is_empty());
}

#[test]
fn process_payouts_reads_the_market_it_is_given() {
    let contract = staked_contract(PayoutPool::LosingStakes);
    let market = contract.state().market(0).unwrap();
    let notices = contract.process_payouts(0, 1, market);
    assert_eq!(payouts_of(&notices), vec![(chain(11), 0, 400, chain(11))]);
}

#[test]
fn payouts_stay_within_the_pool() {
    for pool in [PayoutPool::AllStakes, PayoutPool::LosingStakes, PayoutPool::Fixed { amount: 1_000 }] {
        let mut contract = PredictionMarketContract::instantiate(chain(1), pool);
        contract
            .create_market(
                &caller(1),
                "Q".to_string(),
                vec!["A".to_string(), "B".to_string(), "C".to_string()],
                0,
            )
            .unwrap();
        for (node, outcome_index, amount) in [(2, 0, 3), (3, 0, 3), (4, 0, 1), (5, 1, 10), (6, 2, 1)] {
            contract.stake(&caller(node), 0, outcome_index, amount).unwrap();
        }
        let totals = contract.state().market(0).unwrap().total_staked.clone();
        let prize = pool_for(pool, &totals, 0);
        let messages = contract.resolve(&caller(1), 0, 0).unwrap();
        let paid: u128 = payouts_of(&messages).iter().map(|notice| notice.2).sum();
        assert!(paid <= prize);
        assert!(prize - paid < 3);
    }
}
