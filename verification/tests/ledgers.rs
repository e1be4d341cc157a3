use prediction_market::registry::{contains_chain, has_no_duplicates, insert_chain};
use prediction_market::stakes::{accumulate_stake, find_stake, has_distinct_keys, staked_total};
use prediction_market::{
    AccountOwner, Caller, ChainId, Market, MarketError, MarketStatus, Message, Operation,
    PayoutPool, PredictionMarketContract, PredictionMarketService, PredictionMarketState,
    StakeKey, StakeRecord,
};

fn chain(n: u64) -> ChainId {
    ChainId { w0: n, w1: 0, w2: n, w3: 0 }
}

fn caller(n: u64) -> Caller {
    Caller { chain_id: chain(n), authenticated_signer: Some(AccountOwner::Address32(n, n, n, n)) }
}

fn yes_no() -> Vec<String> {
    vec!["Yes".to_string(), "No".to_string()]
}

fn contract_with_market() -> PredictionMarketContract {
    let mut contract = PredictionMarketContract::instantiate(chain(1), PayoutPool::AllStakes);
    contract.create_market(&caller(1), "Q".to_string(), yes_no(), 3).unwrap();
    contract
}

#[test]
fn stake_saturates_at_the_largest_amount() {
    let mut contract = contract_with_market();
    contract.stake(&caller(2), 0, 0, u128::MAX - 5).unwrap();
    contract.stake(&caller(2), 0, 0, 10).unwrap();
    assert_eq!(contract.state().stake(0, 0, chain(2)), u128::MAX);
    assert_eq!(contract.state().market(0).unwrap().total_staked, vec![u128::MAX, 0]);
    contract.stake(&caller(3), 0, 0, 7).unwrap();
    assert_eq!(contract.state().stake(0, 0, chain(3)), 7);
    assert_eq!(contract.state().market(0).unwrap().total_staked, vec![u128::MAX, 0]);
}

#[test]
fn stake_is_never_less_than_either_part() {
    for (first, second) in [(0u128, 0u128), (1, 2), (u128::MAX, 1), (5, u128::MAX), (9, 0)] {
        let mut contract = contract_with_market();
        contract.stake(&caller(2), 0, 1, first).unwrap();
        contract.stake(&caller(2), 0, 1, second).unwrap();
        let stake = contract.state().stake(0, 1, chain(2));
        assert_eq!(stake, first.saturating_add(second));
        assert!(stake >= first && stake >= second);
    }
}

#[test]
fn a_node_may_stake_on_several_outcomes() {
    let mut contract = contract_with_market();
    contract.stake(&caller(2), 0, 0, 5).unwrap();
    contract.stake(&caller(2), 0, 1, 6).unwrap();
    contract.stake(&caller(3), 0, 0, 7).unwrap();
    contract.stake(&caller(2), 0, 0, 1).unwrap();
    assert_eq!(contract.state().stake(0, 0, chain(2)), 6);
    assert_eq!(contract.state().stake(0, 1, chain(2)), 6);
    assert_eq!(contract.state().stake(0, 0, chain(3)), 7);
    assert_eq!(contract.state().stake(0, 1, chain(3)), 0);
    assert_eq!(contract.state().market(0).unwrap().total_staked, vec![13, 6]);
    assert_eq!(contract.state().stakes.len(), 3);
}

#[test]
fn stake_through_the_dispatcher_answers_with_the_market_id() {
    let mut contract = contract_with_market();
    contract.create_market(&caller(1), "Q2".to_string(), yes_no(), 3).unwrap();
    let outcome = contract
        .execute_operation(
            &caller(4),
            Operation::Stake { market_id: 1, outcome_index: 1, amount: 12 },
        )
        .unwrap();
    assert_eq!(outcome.response, 1);
    assert!(outcome.messages.is_empty());
    assert_eq!(contract.state().stake(1, 1, chain(4)), 12);
    assert_eq!(contract.state().market(0).unwrap().total_staked, vec![0, 0]);
}

#[test]
fn subscribing_twice_is_subscribing_once() {
    let mut contract = contract_with_market();
    contract.subscribe(&caller(2));
    contract.subscribe(&caller(2));
    let outcome = contract.execute_operation(&caller(2), Operation::Subscribe).unwrap();
    assert_eq!(outcome.response, 0);
    assert!(outcome.messages.is_empty());
    assert_eq!(contract.state().subscribers, vec![chain(2)]);
    assert!(contract.state().is_subscriber(chain(2)));
    assert!(!contract.state().is_subscriber(chain(1)));
    let messages = contract.update_odds(&caller(1), 0, vec![1, 2], 0).unwrap();
    assert_eq!(messages.len(), 1);
}

#[test]
fn update_odds_without_subscribers_sends_nothing() {
    let mut contract = contract_with_market();
    let outcome = contract
        .execute_operation(
            &caller(1),
            Operation::UpdateOdds { market_id: 0, new_odds: vec![250_000, 750_000], sentiment_score: -4 },
        )
        .unwrap();
    assert_eq!(outcome.response, 0);
    assert!(outcome.messages.is_empty());
    let market = contract.state().market(0).unwrap();
    assert_eq!(market.odds, vec![250_000, 750_000]);
    assert_eq!(market.odds.len(), market.outcomes.len());
    assert_eq!(market.total_staked.len(), market.outcomes.len());
}

#[test]
fn add_oracle_through_the_dispatcher_answers_zero() {
    let mut contract = contract_with_market();
    let outcome = contract
        .execute_operation(&caller(1), Operation::AddOracle { oracle_chain: chain(9) })
        .unwrap();
    assert_eq!(outcome.response, 0);
    assert!(outcome.messages.is_empty());
    assert!(contract.state().is_oracle(chain(9)));
}

#[test]
fn incoming_odds_replace_the_cached_odds() {
    let mut contract = contract_with_market();
    contract.execute_message(Message::SentimentUpdate {
        market_id: 0,
        odds: vec![100_000, 900_000],
        sentiment_score: 5,
    });
    assert_eq!(contract.state().market(0).unwrap().odds, vec![100_000, 900_000]);
    contract.execute_message(Message::SentimentUpdate {
        market_id: 0,
        odds: vec![100_000, 900_000],
        sentiment_score: 5,
    });
    assert_eq!(contract.state().market(0).unwrap().odds, vec![100_000, 900_000]);
}

#[test]
fn incoming_odds_that_do_not_fit_are_dropped() {
    let mut contract = contract_with_market();
    contract.execute_message(Message::SentimentUpdate {
        market_id: 0,
        odds: vec![1, 2, 3],
        sentiment_score: 0,
    });
    contract.execute_message(Message::SentimentUpdate {
        market_id: 6,
        odds: vec![1, 2],
        sentiment_score: 0,
    });
    assert_eq!(contract.state().market(0).unwrap().odds, vec![500_000, 500_000]);
    assert_eq!(contract.state().market_count(), 1);
    contract.resolve(&caller(1), 0, 0).unwrap();
    contract.execute_message(Message::SentimentUpdate {
        market_id: 0,
        odds: vec![1, 2],
        sentiment_score: 0,
    });
    assert_eq!(contract.state().market(0).unwrap().odds, vec![500_000, 500_000]);
}

#[test]
fn incoming_payout_notice_changes_nothing() {
    let mut contract = contract_with_market();
    contract.stake(&caller(2), 0, 0, 5).unwrap();
    contract.execute_message(Message::Payout { market_id: 0, amount: 50, beneficiary: chain(2) });
    assert_eq!(contract.state().stake(0, 0, chain(2)), 5);
    assert_eq!(contract.state().market(0).unwrap().total_staked, vec![5, 0]);
    assert_eq!(contract.state().market(0).unwrap().status, MarketStatus::Active);
}

#[test]
fn stored_ledgers_load_again() {
    let mut contract = contract_with_market();
    contract.stake(&caller(2), 0, 0, 5).unwrap();
    contract.subscribe(&caller(3));
    contract.resolve(&caller(1), 0, 1).unwrap();
    let stored = contract.store();
    assert!(stored.is_well_formed());
    let loaded = PredictionMarketContract::load(stored.clone(), PayoutPool::LosingStakes).unwrap();
    assert_eq!(loaded.payout_pool(), PayoutPool::LosingStakes);
    assert_eq!(loaded.state().market_count(), 1);
    assert_eq!(loaded.state().stake(0, 0, chain(2)), 5);
    assert_eq!(loaded.state().winning_outcome(0), Some(1));
    assert_eq!(loaded.state().subscribers, stored.subscribers);
}

fn stored_ledgers() -> PredictionMarketState {
    let mut contract = contract_with_market();
    contract.create_market(&caller(1), "Q2".to_string(), yes_no(), 3).unwrap();
    contract.stake(&caller(2), 0, 0, 5).unwrap();
    contract.stake(&caller(3), 1, 1, 5).unwrap();
    contract.subscribe(&caller(3));
    contract.add_oracle(&caller(1), chain(4)).unwrap();
    contract.resolve(&caller(4), 1, 1).unwrap();
    contract.store()
}

fn refused(state: PredictionMarketState) -> bool {
    !state.is_well_formed() && PredictionMarketContract::load(state, PayoutPool::AllStakes).is_none()
}

#[test]
fn malformed_ledgers_are_not_loaded() {
    assert!(stored_ledgers().is_well_formed());

    let mut state = stored_ledgers();
    state.next_market_id = 3;
    assert!(refused(state));

    let mut state = stored_ledgers();
    state.markets[1].id = 0;
    assert!(refused(state));

    let mut state = stored_ledgers();
    state.markets[0].odds.push(1);
    assert!(refused(state));

    let mut state = stored_ledgers();
    state.markets[0].total_staked.pop();
    assert!(refused(state));

    let mut state = stored_ledgers();
    state.markets[0].outcomes = vec!["Only".to_string()];
    state.markets[0].odds = vec![1];
    state.markets[0].total_staked = vec![0];
    assert!(refused(state));

    let mut state = stored_ledgers();
    state.winning_outcomes.pop();
    assert!(refused(state));

    let mut state = stored_ledgers();
    state.winning_outcomes[1] = None;
    assert!(refused(state));

    let mut state = stored_ledgers();
    state.winning_outcomes[1] = Some(2);
    assert!(refused(state));

    let mut state = stored_ledgers();
    state.winning_outcomes[0] = Some(0);
    assert!(refused(state));

    let mut state = stored_ledgers();
    let first = state.stakes[0];
    state.stakes.push(StakeRecord { key: first.key, amount: 1 });
    assert!(refused(state));

    let mut state = stored_ledgers();
    state.stakes[0].amount = 1;
    assert!(refused(state));

    let mut state = stored_ledgers();
    state.markets[0].total_staked[0] = 6;
    assert!(refused(state));

    let mut state = stored_ledgers();
    state.markets[0].total_staked[1] = 1;
    assert!(refused(state));

    let mut state = stored_ledgers();
    state.stakes[0].key.market_id = 5;
    assert!(refused(state));

    let mut state = stored_ledgers();
    state.stakes[0].key.outcome_index = 2;
    assert!(refused(state));

    let mut state = stored_ledgers();
    state.stakes.push(StakeRecord {
        key: StakeKey { market_id: 0, outcome_index: 0, chain_id: chain(8) },
        amount: 0,
    });
    assert!(state.is_well_formed());

    let mut state = stored_ledgers();
    state.subscribers.push(chain(3));
    assert!(refused(state));

    let mut state = stored_ledgers();
    state.authorized_oracles.push(chain(1));
    assert!(refused(state));
}

#[test]
fn cancelled_markets_are_well_formed_and_closed() {
    let mut state = stored_ledgers();
    state.markets[0].status = MarketStatus::Cancelled;
    let mut contract = PredictionMarketContract::load(state, PayoutPool::AllStakes).unwrap();
    assert_eq!(
        contract.stake(&caller(2), 0, 0, 1).unwrap_err(),
        MarketError::AlreadyResolved { market_id: 0 }
    );
    assert_eq!(
        contract.resolve(&caller(1), 0, 0).unwrap_err(),
        MarketError::AlreadyResolved { market_id: 0 }
    );
    assert_eq!(
        contract.update_odds(&caller(1), 0, vec![1, 2], 0).unwrap_err(),
        MarketError::AlreadyResolved { market_id: 0 }
    );
    assert_eq!(contract.state().winning_outcome(0), None);
}

#[test]
fn market_transitions_on_a_bare_market() {
    let opened = Market::open(7, AccountOwner::Address20([3; 20]), "Q".to_string(), yes_no(), 11);
    let mut market = opened.unwrap();
    assert!(market.is_well_formed());
    assert_eq!(market.id, 7);
    assert_eq!(market.creator, AccountOwner::Address20([3; 20]));
    assert_eq!(market.resolution_time, 11);
    market.add_stake(1, 4).unwrap();
    market.add_stake(1, 6).unwrap();
    assert_eq!(market.total_staked, vec![0, 10]);
    assert_eq!(
        market.add_stake(2, 1).unwrap_err(),
        MarketError::InvalidOutcome { outcome_index: 2 }
    );
    market.set_odds(vec![9, 1]).unwrap();
    assert_eq!(market.odds, vec![9, 1]);
    assert_eq!(
        market.set_odds(vec![]).unwrap_err(),
        MarketError::InvalidOddsShape { expected: 2, found: 0 }
    );
    assert_eq!(
        market.resolve(2).unwrap_err(),
        MarketError::InvalidOutcome { outcome_index: 2 }
    );
    market.resolve(1).unwrap();
    assert_eq!(market.status, MarketStatus::Resolved);
    assert_eq!(market.resolve(0).unwrap_err(), MarketError::AlreadyResolved { market_id: 7 });
    assert_eq!(
        Market::open(0, AccountOwner::Reserved(0), "Q".to_string(), vec![], 0).unwrap_err(),
        MarketError::InvalidOutcomeSet { count: 0 }
    );
}

#[test]
fn registry_holds_each_node_once() {
    let mut registry = vec![];
    insert_chain(&mut registry, chain(1));
    insert_chain(&mut registry, chain(2));
    insert_chain(&mut registry, chain(1));
    assert_eq!(registry, vec![chain(1), chain(2)]);
    assert!(contains_chain(&registry, chain(2)));
    assert!(!contains_chain(&registry, chain(3)));
    assert!(has_no_duplicates(&registry));
    assert!(has_no_duplicates(&vec![]));
    assert!(!has_no_duplicates(&vec![chain(1), chain(2), chain(1)]));
}

#[test]
fn stake_ledger_keeps_one_record_per_key() {
    let key = |node: u64, outcome_index: u32| StakeKey {
        market_id: 0,
        outcome_index,
        chain_id: chain(node),
    };
    let mut ledger = vec![];
    accumulate_stake(&mut ledger, key(1, 0), 5);
    accumulate_stake(&mut ledger, key(2, 0), 6);
    accumulate_stake(&mut ledger, key(1, 1), 7);
    accumulate_stake(&mut ledger, key(1, 0), 8);
    assert_eq!(
        ledger,
        vec![
            StakeRecord { key: key(1, 0), amount: 13 },
            StakeRecord { key: key(2, 0), amount: 6 },
            StakeRecord { key: key(1, 1), amount: 7 },
        ]
    );
    assert_eq!(find_stake(&ledger, key(2, 0)), Some(1));
    assert_eq!(find_stake(&ledger, key(2, 1)), None);
    assert!(has_distinct_keys(&ledger));
    ledger.push(StakeRecord { key: key(2, 0), amount: 0 });
    assert!(!has_distinct_keys(&ledger));
}

#[test]
fn totals_are_what_the_records_add_up_to() {
    let mut contract = contract_with_market();
    contract.create_market(&caller(1), "Q2".to_string(), yes_no(), 3).unwrap();
    let stakes: [(u64, u64, u32, u128); 7] = [
        (2, 0, 0, 5),
        (3, 0, 0, 7),
        (2, 0, 1, 11),
        (2, 1, 0, u128::MAX - 3),
        (3, 1, 0, 2),
        (4, 1, 0, 9),
        (2, 0, 0, 1),
    ];
    for (node, market_id, outcome_index, amount) in stakes {
        contract.stake(&caller(node), market_id, outcome_index, amount).unwrap();
        assert!(contract.state().is_well_formed());
    }
    let state = contract.state();
    assert_eq!(state.market(0).unwrap().total_staked, vec![13, 11]);
    assert_eq!(state.market(1).unwrap().total_staked, vec![u128::MAX, 0]);
    assert_eq!(staked_total(&state.stakes, 0, 0), 13);
    assert_eq!(staked_total(&state.stakes, 0, 1), 11);
    assert_eq!(staked_total(&state.stakes, 1, 0), u128::MAX);
    assert_eq!(staked_total(&state.stakes, 1, 1), 0);
    assert_eq!(staked_total(&state.stakes, 2, 0), 0);
    for node in 2..5 {
        for market_id in 0..2 {
            for outcome_index in 0..2 {
                assert!(
                    state.stake(market_id, outcome_index, chain(node))
                        <= state.market(market_id).unwrap().total_staked[outcome_index as usize]
                );
            }
        }
    }
}

#[test]
fn every_operation_leaves_well_formed_ledgers() {
    let mut contract = PredictionMarketContract::instantiate(chain(1), PayoutPool::LosingStakes);
    assert!(contract.state().is_well_formed());
    let operations = vec![
        (1, Operation::CreateMarket { question: "Q".to_string(), outcomes: yes_no(), resolution_time: 1 }),
        (2, Operation::Subscribe),
        (2, Operation::Stake { market_id: 0, outcome_index: 1, amount: 30 }),
        (3, Operation::Stake { market_id: 0, outcome_index: 0, amount: 10 }),
        (1, Operation::UpdateOdds { market_id: 0, new_odds: vec![1, 2], sentiment_score: 3 }),
        (1, Operation::AddOracle { oracle_chain: chain(5) }),
        (2, Operation::Subscribe),
        (5, Operation::Resolve { market_id: 0, winning_outcome: 1 }),
        (5, Operation::CreateMarket { question: "Q2".to_string(), outcomes: yes_no(), resolution_time: 2 }),
    ];
    for (node, operation) in operations {
        contract.execute_operation(&caller(node), operation).unwrap();
        assert!(contract.state().is_well_formed());
        for market in &contract.state().markets {
            assert_eq!(market.odds.len(), market.outcomes.len());
            assert_eq!(market.total_staked.len(), market.outcomes.len());
        }
    }
    let failing = vec![
        (2, Operation::Resolve { market_id: 1, winning_outcome: 0 }),
        (1, Operation::Stake { market_id: 0, outcome_index: 0, amount: 1 }),
        (1, Operation::UpdateOdds { market_id: 1, new_odds: vec![], sentiment_score: 0 }),
    ];
    let before = format!("{:?}", contract.state());
    for (node, operation) in failing {
        assert!(contract.execute_operation(&caller(node), operation).is_err());
        assert_eq!(format!("{:?}", contract.state()), before);
    }
}

#[test]
fn service_counts_the_markets() {
    let fresh = PredictionMarketContract::instantiate(chain(1), PayoutPool::AllStakes);
    assert_eq!(PredictionMarketService::new(fresh.store()).market_count(), 0);
    let service = PredictionMarketService::new(stored_ledgers());
    assert_eq!(service.market_count(), 2);
    assert_eq!(service.state().market(1).unwrap().question, "Q2");
    assert_eq!(service.state().winning_outcome(1), Some(1));
}
