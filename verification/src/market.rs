//! A market: a question, its outcomes, their odds and what was staked on them.

use vstd::prelude::*;
use crate::amount::{saturating_add, saturating_sum};
use crate::error::MarketError;
use crate::types::{AccountOwner, Amount, MarketStatus, Odds, Timestamp, ODDS_ONE};

verus! {

/// A market as the ledger holds it.
#[derive(Clone, Debug)]
pub struct Market {
    /// The id of the market: markets are numbered from zero as they are created.
    pub id: u64,
    /// The account that signed the creation.
    pub creator: AccountOwner,
    pub question: String,
    /// The labels of the outcomes, fixed at creation.
    pub outcomes: Vec<String>,
    /// The current odds, one per outcome.
    pub odds: Vec<Odds>,
    /// When the market is meant to be resolved. This is advice to readers:
    /// an oracle may resolve the market at any time.
    pub resolution_time: Timestamp,
    pub status: MarketStatus,
    /// What was staked on each outcome, over all nodes.
    pub total_staked: Vec<Amount>,
}

/// What a market is, as plain mathematical values.
pub struct MarketView {
    pub id: u64,
    pub creator: AccountOwner,
    pub question: Seq<char>,
    pub outcomes: Seq<Seq<char>>,
    pub odds: Seq<Odds>,
    pub resolution_time: Timestamp,
    pub status: MarketStatus,
    pub total_staked: Seq<Amount>,
}

/// The labels of a list of outcomes, each as its characters.
pub open spec fn labels(outcomes: Seq<String>) -> Seq<Seq<char>> {
    outcomes.map_values(|label: String| label@)
}

/// The odds of a fresh market with `count` outcomes: each outcome gets the
/// `count`-th part of certainty, rounded down to a whole number of parts.
pub open spec fn uniform_odds(count: nat) -> Seq<Odds> {
    Seq::new(count, |i: int| (ODDS_ONE as nat / count) as u64)
}

/// Nothing staked yet on any of `count` outcomes.
pub open spec fn nothing_staked(count: nat) -> Seq<Amount> {
    Seq::new(count, |i: int| 0u128)
}

impl View for Market {
    type V = MarketView;

    open spec fn view(&self) -> MarketView {
        MarketView {
            id: self.id,
            creator: self.creator,
            question: self.question@,
            outcomes: labels(self.outcomes@),
            odds: self.odds@,
            resolution_time: self.resolution_time,
            status: self.status,
            total_staked: self.total_staked@,
        }
    }
}

impl MarketView {
    /// A market has at least two outcomes, and one odds entry and one staked
    /// total for each of them.
    pub open spec fn well_formed(self) -> bool {
        &&& self.outcomes.len() >= 2
        &&& self.odds.len() == self.outcomes.len()
        &&& self.total_staked.len() == self.outcomes.len()
    }

    /// The market that creation yields: active, with uniform odds and
    /// nothing staked.
    pub open spec fn opened(
        id: u64,
        creator: AccountOwner,
        question: Seq<char>,
        outcomes: Seq<Seq<char>>,
        resolution_time: Timestamp,
    ) -> MarketView {
        MarketView {
            id,
            creator,
            question,
            outcomes,
            odds: uniform_odds(outcomes.len()),
            resolution_time,
            status: MarketStatus::Active,
            total_staked: nothing_staked(outcomes.len()),
        }
    }

    /// Why a stake on `outcome_index` is turned down, if it is.
    pub open spec fn stake_error(self, outcome_index: u32) -> Option<MarketError> {
        if outcome_index >= self.outcomes.len() {
            Some(MarketError::InvalidOutcome { outcome_index })
        } else if self.status != MarketStatus::Active {
            Some(MarketError::AlreadyResolved { market_id: self.id })
        } else {
            None
        }
    }

    /// The market after `amount` more was staked on `outcome_index`.
    pub open spec fn with_stake(self, outcome_index: u32, amount: Amount) -> MarketView {
        MarketView {
            total_staked: self.total_staked.update(
                outcome_index as int,
                saturating_sum(self.total_staked[outcome_index as int], amount),
            ),
            ..self
        }
    }

    /// Why a revision to `new_odds` is turned down, if it is.
    pub open spec fn odds_error(self, new_odds: Seq<Odds>) -> Option<MarketError> {
        if new_odds.len() != self.outcomes.len() {
            Some(
                MarketError::InvalidOddsShape {
                    expected: self.outcomes.len() as usize,
                    found: new_odds.len() as usize,
                },
            )
        } else if self.status != MarketStatus::Active {
            Some(MarketError::AlreadyResolved { market_id: self.id })
        } else {
            None
        }
    }

    /// The market with its odds replaced.
    pub open spec fn with_odds(self, new_odds: Seq<Odds>) -> MarketView {
        MarketView { odds: new_odds, ..self }
    }

    /// Why resolving to `winning_outcome` is turned down, if it is.
    pub open spec fn resolve_error(self, winning_outcome: u32) -> Option<MarketError> {
        if winning_outcome >= self.outcomes.len() {
            Some(MarketError::InvalidOutcome { outcome_index: winning_outcome })
        } else if self.status != MarketStatus::Active {
            Some(MarketError::AlreadyResolved { market_id: self.id })
        } else {
            None
        }
    }

    /// The market once resolved.
    pub open spec fn resolved(self) -> MarketView {
        MarketView { status: MarketStatus::Resolved, ..self }
    }
}

/// Builds the odds of a fresh market with `count` outcomes.
pub fn uniform_odds_for(count: usize) -> (odds: Vec<Odds>)
    requires
        count > 0,
    ensures
        odds@ == uniform_odds(count as nat),
{
    let each: u64 = ODDS_ONE / (count as u64);
    let mut odds: Vec<Odds> = Vec::new();
    let mut i: usize = 0;
    while i < count
        invariant
            i <= count,
            count > 0,
            each == (ODDS_ONE as nat / count as nat) as u64,
            odds@ == Seq::new(i as nat, |k: int| each),
        decreases count - i,
    {
        odds.push(each);
        i += 1;
    }
    odds
}

/// Builds the staked totals of a fresh market with `count` outcomes.
pub fn nothing_staked_for(count: usize) -> (totals: Vec<Amount>)
    ensures
        totals@ == nothing_staked(count as nat),
{
    let mut totals: Vec<Amount> = Vec::new();
    let mut i: usize = 0;
    while i < count
        invariant
            i <= count,
            totals@ == nothing_staked(i as nat),
        decreases count - i,
    {
        totals.push(0);
        i += 1;
    }
    totals
}

impl Market {
    /// Whether the market has at least two outcomes, and odds and a staked
    /// total for each.
    pub fn is_well_formed(&self) -> (ok: bool)
        ensures
            ok == self@.well_formed(),
    {
        self.outcomes.len() >= 2 && self.odds.len() == self.outcomes.len()
            && self.total_staked.len() == self.outcomes.len()
    }

    /// Opens a market under `id`. A market needs at least two outcomes.
    pub fn open(
        id: u64,
        creator: AccountOwner,
        question: String,
        outcomes: Vec<String>,
        resolution_time: Timestamp,
    ) -> (result: Result<Market, MarketError>)
        ensures
            match result {
                Ok(market) => {
                    &&& outcomes.len() >= 2
                    &&& market@ == MarketView::opened(
                        id,
                        creator,
                        question@,
                        labels(outcomes@),
                        resolution_time,
                    )
                    &&& market@.well_formed()
                },
                Err(error) => {
                    &&& outcomes.len() < 2
                    &&& error == MarketError::InvalidOutcomeSet { count: outcomes.len() }
                },
            },
    {
        let count = outcomes.len();
        if count < 2 {
            return Err(MarketError::InvalidOutcomeSet { count });
        }
        let odds = uniform_odds_for(count);
        let total_staked = nothing_staked_for(count);
        Ok(
            Market {
                id,
                creator,
                question,
                outcomes,
                odds,
                resolution_time,
                status: MarketStatus::Active,
                total_staked,
            },
        )
    }

    /// Adds `amount` to what is staked on `outcome_index`, saturating.
    pub fn add_stake(
        &mut self,
        outcome_index: u32,
        amount: Amount,
    ) -> (result: Result<(), MarketError>)
        requires
            old(self)@.well_formed(),
        ensures
            match result {
                Ok(()) => {
                    &&& old(self)@.stake_error(outcome_index) is None
                    &&& final(self)@ == old(self)@.with_stake(outcome_index, amount)
                },
                Err(error) => {
                    &&& old(self)@.stake_error(outcome_index) == Some(error)
                    &&& *final(self) == *old(self)
                },
            },
            final(self)@.well_formed(),
    {
        let index = outcome_index as usize;
        if index >= self.outcomes.len() {
            return Err(MarketError::InvalidOutcome { outcome_index });
        }
        if self.status != MarketStatus::Active {
            return Err(MarketError::AlreadyResolved { market_id: self.id });
        }
        let total = saturating_add(self.total_staked[index], amount);
        self.total_staked[index] = total;
        Ok(())
    }

    /// Replaces the odds wholesale.
    pub fn set_odds(&mut self, new_odds: Vec<Odds>) -> (result: Result<(), MarketError>)
        requires
            old(self)@.well_formed(),
        ensures
            match result {
                Ok(()) => {
                    &&& old(self)@.odds_error(new_odds@) is None
                    &&& final(self)@ == old(self)@.with_odds(new_odds@)
                },
                Err(error) => {
                    &&& old(self)@.odds_error(new_odds@) == Some(error)
                    &&& *final(self) == *old(self)
                },
            },
            final(self)@.well_formed(),
    {
        if new_odds.len() != self.outcomes.len() {
            return Err(
                MarketError::InvalidOddsShape {
                    expected: self.outcomes.len(),
                    found: new_odds.len(),
                },
            );
        }
        if self.status != MarketStatus::Active {
            return Err(MarketError::AlreadyResolved { market_id: self.id });
        }
        self.odds = new_odds;
        Ok(())
    }

    /// Marks the market as resolved.
    pub fn resolve(&mut self, winning_outcome: u32) -> (result: Result<(), MarketError>)
        requires
            old(self)@.well_formed(),
        ensures
            match result {
                Ok(()) => {
                    &&& old(self)@.resolve_error(winning_outcome) is None
                    &&& final(self)@ == old(self)@.resolved()
                },
                Err(error) => {
                    &&& old(self)@.resolve_error(winning_outcome) == Some(error)
                    &&& *final(self) == *old(self)
                },
            },
            final(self)@.well_formed(),
    {
        if winning_outcome as usize >= self.outcomes.len() {
            return Err(MarketError::InvalidOutcome { outcome_index: winning_outcome });
        }
        if self.status != MarketStatus::Active {
            return Err(MarketError::AlreadyResolved { market_id: self.id });
        }
        self.status = MarketStatus::Resolved;
        Ok(())
    }
}

} // verus!
