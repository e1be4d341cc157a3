//! The stake ledger: what each node has put on each outcome of each market.

use vstd::prelude::*;
use crate::amount::{capped, saturating_add, saturating_sum};
use crate::types::{Amount, ChainId};

verus! {

/// What a stake is recorded under.
#[derive(Clone, Copy, Debug, PartialEq, Eq, Structural)]
pub struct StakeKey {
    pub market_id: u64,
    pub outcome_index: u32,
    pub chain_id: ChainId,
}

/// The amount that one node has accumulated on one outcome of one market.
#[derive(Clone, Copy, Debug, PartialEq, Eq, Structural)]
pub struct StakeRecord {
    pub key: StakeKey,
    pub amount: Amount,
}

/// No two records of the ledger share a key.
pub open spec fn distinct_keys(stakes: Seq<StakeRecord>) -> bool {
    forall|i: int, j: int|
        0 <= i < j < stakes.len() ==> (#[trigger] stakes[i]).key != (#[trigger] stakes[j]).key
}

/// Whether the ledger holds a record under `key`.
pub open spec fn has_stake(stakes: Seq<StakeRecord>, key: StakeKey) -> bool {
    exists|i: int| 0 <= i < stakes.len() && (#[trigger] stakes[i]).key == key
}

/// Where the ledger holds the record under `key`; meaningful where `has_stake` holds.
pub open spec fn position_of(stakes: Seq<StakeRecord>, key: StakeKey) -> int {
    choose|i: int| 0 <= i < stakes.len() && (#[trigger] stakes[i]).key == key
}

/// The amount recorded under `key`: zero where the ledger holds no record.
pub open spec fn stake_of(stakes: Seq<StakeRecord>, key: StakeKey) -> Amount {
    if has_stake(stakes, key) {
        stakes[position_of(stakes, key)].amount
    } else {
        0
    }
}

/// The ledger as a map: each key that has a record, with its amount.
pub open spec fn ledger(stakes: Seq<StakeRecord>) -> Map<StakeKey, Amount> {
    Map::new(|key: StakeKey| has_stake(stakes, key), |key: StakeKey| stake_of(stakes, key))
}

/// The ledger after `amount` more has been staked under `key`.
pub open spec fn with_stake(
    stakes: Seq<StakeRecord>,
    key: StakeKey,
    amount: Amount,
) -> Seq<StakeRecord> {
    let total = saturating_sum(stake_of(stakes, key), amount);
    if has_stake(stakes, key) {
        stakes.update(position_of(stakes, key), StakeRecord { key, amount: total })
    } else {
        stakes.push(StakeRecord { key, amount: total })
    }
}

/// What a record adds to the total of one outcome of one market: its
/// amount where it stands on that outcome, and nothing elsewhere.
pub open spec fn share_in(record: StakeRecord, market_id: u64, outcome_index: u32) -> nat {
    if record.key.market_id == market_id && record.key.outcome_index == outcome_index {
        record.amount as nat
    } else {
        0
    }
}

/// What all nodes together have on one outcome of one market.
pub open spec fn staked_on(stakes: Seq<StakeRecord>, market_id: u64, outcome_index: u32) -> nat
    decreases stakes.len(),
{
    if stakes.len() == 0 {
        0
    } else {
        staked_on(stakes.drop_last(), market_id, outcome_index) + share_in(
            stakes.last(),
            market_id,
            outcome_index,
        )
    }
}

/// A new record adds its share to the total of its outcome.
pub proof fn lemma_staked_on_push(
    stakes: Seq<StakeRecord>,
    record: StakeRecord,
    market_id: u64,
    outcome_index: u32,
)
    ensures
        staked_on(stakes.push(record), market_id, outcome_index) == staked_on(
            stakes,
            market_id,
            outcome_index,
        ) + share_in(record, market_id, outcome_index),
{
    assert(stakes.push(record).drop_last() =~= stakes);
}

/// Replacing a record takes its old share out of the total and puts the
/// new one in.
pub proof fn lemma_staked_on_update(
    stakes: Seq<StakeRecord>,
    i: int,
    record: StakeRecord,
    market_id: u64,
    outcome_index: u32,
)
    requires
        0 <= i < stakes.len(),
    ensures
        staked_on(stakes.update(i, record), market_id, outcome_index) + share_in(
            stakes[i],
            market_id,
            outcome_index,
        ) == staked_on(stakes, market_id, outcome_index) + share_in(
            record,
            market_id,
            outcome_index,
        ),
    decreases stakes.len(),
{
    let updated = stakes.update(i, record);
    if i == stakes.len() - 1 {
        assert(updated.drop_last() =~= stakes.drop_last());
    } else {
        assert(updated.drop_last() =~= stakes.drop_last().update(i, record));
        lemma_staked_on_update(stakes.drop_last(), i, record, market_id, outcome_index);
    }
}

/// No record has more on an outcome than all records together.
pub proof fn lemma_share_within_total(
    stakes: Seq<StakeRecord>,
    i: int,
    market_id: u64,
    outcome_index: u32,
)
    requires
        0 <= i < stakes.len(),
    ensures
        share_in(stakes[i], market_id, outcome_index) <= staked_on(
            stakes,
            market_id,
            outcome_index,
        ),
{
    let emptied = StakeRecord { key: stakes[i].key, amount: 0 };
    lemma_staked_on_update(stakes, i, emptied, market_id, outcome_index);
}

/// Where no record stands on an outcome, nothing is staked on it.
pub proof fn lemma_nothing_staked_on(stakes: Seq<StakeRecord>, market_id: u64, outcome_index: u32)
    requires
        forall|k: int|
            0 <= k < stakes.len() ==> share_in(#[trigger] stakes[k], market_id, outcome_index)
                == 0,
    ensures
        staked_on(stakes, market_id, outcome_index) == 0,
    decreases stakes.len(),
{
    if stakes.len() > 0 {
        assert(share_in(stakes[stakes.len() - 1], market_id, outcome_index) == 0);
        assert forall|k: int| 0 <= k < stakes.drop_last().len() implies share_in(
            #[trigger] stakes.drop_last()[k],
            market_id,
            outcome_index,
        ) == 0 by {
            assert(stakes.drop_last()[k] == stakes[k]);
        }
        lemma_nothing_staked_on(stakes.drop_last(), market_id, outcome_index);
    }
}

/// What staking does to the totals: the outcome that was staked on has
/// `amount` more, saturating, and every other outcome has what it had.
pub proof fn lemma_with_stake_totals(
    stakes: Seq<StakeRecord>,
    key: StakeKey,
    amount: Amount,
    market_id: u64,
    outcome_index: u32,
)
    requires
        distinct_keys(stakes),
    ensures
        capped(staked_on(with_stake(stakes, key, amount), market_id, outcome_index)) == if key.market_id
            == market_id && key.outcome_index == outcome_index {
            saturating_sum(capped(staked_on(stakes, market_id, outcome_index)), amount)
        } else {
            capped(staked_on(stakes, market_id, outcome_index))
        },
{
    let total = saturating_sum(stake_of(stakes, key), amount);
    let record = StakeRecord { key, amount: total };
    if has_stake(stakes, key) {
        let at = position_of(stakes, key);
        lemma_staked_on_update(stakes, at, record, market_id, outcome_index);
        lemma_share_within_total(stakes, at, market_id, outcome_index);
    } else {
        lemma_staked_on_push(stakes, record, market_id, outcome_index);
    }
}

/// In a ledger with distinct keys, a record is found at its own place.
pub proof fn lemma_position_is_unique(stakes: Seq<StakeRecord>, i: int)
    requires
        distinct_keys(stakes),
        0 <= i < stakes.len(),
    ensures
        has_stake(stakes, stakes[i].key),
        position_of(stakes, stakes[i].key) == i,
        stake_of(stakes, stakes[i].key) == stakes[i].amount,
{
    let key = stakes[i].key;
    let j = position_of(stakes, key);
    assert(0 <= j < stakes.len() && stakes[j].key == key);
    if j < i {
        assert(stakes[j].key != stakes[i].key);
    } else if i < j {
        assert(stakes[i].key != stakes[j].key);
    }
}

/// Staking keeps the keys distinct, sets the amount under `key` to the
/// saturating sum, and leaves every other key's amount alone.
pub proof fn lemma_with_stake(stakes: Seq<StakeRecord>, key: StakeKey, amount: Amount)
    requires
        distinct_keys(stakes),
    ensures
        distinct_keys(with_stake(stakes, key, amount)),
        stake_of(with_stake(stakes, key, amount), key) == saturating_sum(
            stake_of(stakes, key),
            amount,
        ),
        forall|other: StakeKey|
            other != key ==> stake_of(with_stake(stakes, key, amount), other) == stake_of(
                stakes,
                other,
            ),
        forall|other: StakeKey|
            has_stake(with_stake(stakes, key, amount), other) <==> has_stake(stakes, other)
                || other == key,
        ledger(with_stake(stakes, key, amount)) == ledger(stakes).insert(
            key,
            saturating_sum(stake_of(stakes, key), amount),
        ),
{
    let after = with_stake(stakes, key, amount);
    let total = saturating_sum(stake_of(stakes, key), amount);
    let at: int = if has_stake(stakes, key) {
        position_of(stakes, key)
    } else {
        stakes.len() as int
    };
    assert(0 <= at < after.len());
    assert(after[at] == StakeRecord { key, amount: total });
    assert forall|k: int| 0 <= k < after.len() && k != at implies after[k] == stakes[k]
        && stakes[k].key != key by {
        if stakes[k].key == key {
            lemma_position_is_unique(stakes, k);
        }
    }
    assert forall|i: int, j: int| 0 <= i < j < after.len() implies (#[trigger] after[i]).key != (
    #[trigger] after[j]).key by {
        if i != at && j != at {
            assert(stakes[i].key != stakes[j].key);
        }
    }
    lemma_position_is_unique(after, at);
    assert forall|other: StakeKey| other != key implies stake_of(after, other) == stake_of(
        stakes,
        other,
    ) && (has_stake(after, other) <==> has_stake(stakes, other)) by {
        if has_stake(stakes, other) {
            let p = position_of(stakes, other);
            assert(p != at);
            assert(after[p] == stakes[p]);
            lemma_position_is_unique(after, p);
        } else if has_stake(after, other) {
            let p = position_of(after, other);
            assert(p != at);
            assert(stakes[p].key == other);
        }
    }
    assert(ledger(after) =~= ledger(stakes).insert(key, total));
}

/// Looks for the record under `key`.
pub fn find_stake(stakes: &Vec<StakeRecord>, key: StakeKey) -> (found: Option<usize>)
    requires
        distinct_keys(stakes@),
    ensures
        match found {
            Some(i) => has_stake(stakes@, key) && i as int == position_of(stakes@, key),
            None => !has_stake(stakes@, key),
        },
{
    let mut i: usize = 0;
    while i < stakes.len()
        invariant
            i <= stakes.len(),
            distinct_keys(stakes@),
            forall|k: int| 0 <= k < i ==> (#[trigger] stakes@[k]).key != key,
        decreases stakes.len() - i,
    {
        if stakes[i].key == key {
            proof {
                lemma_position_is_unique(stakes@, i as int);
            }
            return Some(i);
        }
        i += 1;
    }
    None
}

/// Whether no two records of the ledger share a key.
pub fn has_distinct_keys(stakes: &Vec<StakeRecord>) -> (ok: bool)
    ensures
        ok == distinct_keys(stakes@),
{
    let mut i: usize = 0;
    while i < stakes.len()
        invariant
            i <= stakes.len(),
            forall|a: int, b: int|
                0 <= a < b < stakes.len() && a < i ==> (#[trigger] stakes@[a]).key != (
                #[trigger] stakes@[b]).key,
        decreases stakes.len() - i,
    {
        let mut j: usize = i + 1;
        while j < stakes.len()
            invariant
                i < j <= stakes.len(),
                forall|b: int| i < b < j ==> stakes@[i as int].key != (#[trigger] stakes@[b]).key,
            decreases stakes.len() - j,
        {
            if stakes[i].key == stakes[j].key {
                return false;
            }
            j += 1;
        }
        i += 1;
    }
    true
}

/// Adds up, saturating, what all nodes have on one outcome of one market.
pub fn staked_total(stakes: &Vec<StakeRecord>, market_id: u64, outcome_index: u32) -> (total: Amount)
    ensures
        total == capped(staked_on(stakes@, market_id, outcome_index)),
{
    let mut total: Amount = 0;
    let mut i: usize = 0;
    while i < stakes.len()
        invariant
            i <= stakes.len(),
            total == capped(staked_on(stakes@.take(i as int), market_id, outcome_index)),
        decreases stakes.len() - i,
    {
        let record = stakes[i];
        proof {
            assert(stakes@.take(i + 1).drop_last() =~= stakes@.take(i as int));
        }
        if record.key.market_id == market_id && record.key.outcome_index == outcome_index {
            total = saturating_add(total, record.amount);
        }
        i += 1;
    }
    proof {
        assert(stakes@.take(stakes.len() as int) =~= stakes@);
    }
    total
}

/// Adds `amount` to what is recorded under `key`, saturating, and starts a
/// record where there was none.
pub fn accumulate_stake(stakes: &mut Vec<StakeRecord>, key: StakeKey, amount: Amount)
    requires
        distinct_keys(old(stakes)@),
    ensures
        final(stakes)@ == with_stake(old(stakes)@, key, amount),
        distinct_keys(final(stakes)@),
{
    proof {
        lemma_with_stake(stakes@, key, amount);
    }
    match find_stake(stakes, key) {
        Some(i) => {
            let total = saturating_add(stakes[i].amount, amount);
            stakes[i] = StakeRecord { key, amount: total };
        },
        None => {
            let total = saturating_add(0, amount);
            stakes.push(StakeRecord { key, amount: total });
        },
    }
}

} // verus!
