//! Operations that a node submits, and the messages that nodes send each other.

use vstd::prelude::*;
use crate::market::labels;
use crate::types::{Amount, ChainId, Odds, Timestamp};

verus! {

/// What a caller can ask of the market contract.
#[derive(Clone, Debug)]
pub enum Operation {
    /// Create a new prediction market.
    CreateMarket { question: String, outcomes: Vec<String>, resolution_time: Timestamp },
    /// Place a stake on an outcome.
    Stake { market_id: u64, outcome_index: u32, amount: Amount },
    /// Replace the odds of a market (oracles only).
    UpdateOdds { market_id: u64, new_odds: Vec<Odds>, sentiment_score: i32 },
    /// Resolve a market with its winning outcome (oracles only).
    Resolve { market_id: u64, winning_outcome: u32 },
    /// Subscribe the calling node to odds updates.
    Subscribe,
    /// Authorize another oracle (oracles only).
    AddOracle { oracle_chain: ChainId },
}

/// An operation as plain mathematical values.
pub enum OperationView {
    CreateMarket { question: Seq<char>, outcomes: Seq<Seq<char>>, resolution_time: Timestamp },
    Stake { market_id: u64, outcome_index: u32, amount: Amount },
    UpdateOdds { market_id: u64, new_odds: Seq<Odds>, sentiment_score: i32 },
    Resolve { market_id: u64, winning_outcome: u32 },
    Subscribe,
    AddOracle { oracle_chain: ChainId },
}

impl View for Operation {
    type V = OperationView;

    open spec fn view(&self) -> OperationView {
        match *self {
            Operation::CreateMarket { question, outcomes, resolution_time } => {
                OperationView::CreateMarket {
                    question: question@,
                    outcomes: labels(outcomes@),
                    resolution_time,
                }
            },
            Operation::Stake { market_id, outcome_index, amount } => OperationView::Stake {
                market_id,
                outcome_index,
                amount,
            },
            Operation::UpdateOdds { market_id, new_odds, sentiment_score } => {
                OperationView::UpdateOdds { market_id, new_odds: new_odds@, sentiment_score }
            },
            Operation::Resolve { market_id, winning_outcome } => OperationView::Resolve {
                market_id,
                winning_outcome,
            },
            Operation::Subscribe => OperationView::Subscribe,
            Operation::AddOracle { oracle_chain } => OperationView::AddOracle { oracle_chain },
        }
    }
}

/// What one node tells another.
#[derive(Clone, Debug)]
pub enum Message {
    /// The odds of a market were revised.
    SentimentUpdate { market_id: u64, odds: Vec<Odds>, sentiment_score: i32 },
    /// A stake on the winning outcome earned `amount`.
    Payout { market_id: u64, amount: Amount, beneficiary: ChainId },
}

/// A message as plain mathematical values.
pub enum MessageView {
    SentimentUpdate { market_id: u64, odds: Seq<Odds>, sentiment_score: i32 },
    Payout { market_id: u64, amount: Amount, beneficiary: ChainId },
}

impl View for Message {
    type V = MessageView;

    open spec fn view(&self) -> MessageView {
        match *self {
            Message::SentimentUpdate { market_id, odds, sentiment_score } => {
                MessageView::SentimentUpdate { market_id, odds: odds@, sentiment_score }
            },
            Message::Payout { market_id, amount, beneficiary } => MessageView::Payout {
                market_id,
                amount,
                beneficiary,
            },
        }
    }
}

/// A message on its way to the node `destination`.
#[derive(Clone, Debug)]
pub struct OutgoingMessage {
    pub destination: ChainId,
    pub message: Message,
}

/// An outgoing message as plain mathematical values.
pub struct OutgoingMessageView {
    pub destination: ChainId,
    pub message: MessageView,
}

impl View for OutgoingMessage {
    type V = OutgoingMessageView;

    open spec fn view(&self) -> OutgoingMessageView {
        OutgoingMessageView { destination: self.destination, message: self.message@ }
    }
}

/// A list of outgoing messages, each as plain mathematical values.
pub open spec fn outbox(messages: Seq<OutgoingMessage>) -> Seq<OutgoingMessageView> {
    messages.map_values(|message: OutgoingMessage| message@)
}

/// What a successful operation hands back: the response for the caller and
/// the messages to send.
#[derive(Clone, Debug)]
pub struct OperationOutcome {
    pub response: u64,
    pub messages: Vec<OutgoingMessage>,
}

/// The outcome of an operation as plain mathematical values.
pub struct OperationOutcomeView {
    pub response: u64,
    pub messages: Seq<OutgoingMessageView>,
}

impl View for OperationOutcome {
    type V = OperationOutcomeView;

    open spec fn view(&self) -> OperationOutcomeView {
        OperationOutcomeView { response: self.response, messages: outbox(self.messages@) }
    }
}

/// One odds update for each subscriber, in the order in which they subscribed.
pub open spec fn sentiment_updates(
    subscribers: Seq<ChainId>,
    market_id: u64,
    odds: Seq<Odds>,
    sentiment_score: i32,
) -> Seq<OutgoingMessageView> {
    Seq::new(
        subscribers.len(),
        |i: int|
            OutgoingMessageView {
                destination: subscribers[i],
                message: MessageView::SentimentUpdate { market_id, odds, sentiment_score },
            },
    )
}

/// Writes the odds update that goes to each subscriber.
pub fn broadcast_odds(
    subscribers: &Vec<ChainId>,
    market_id: u64,
    odds: &Vec<Odds>,
    sentiment_score: i32,
) -> (messages: Vec<OutgoingMessage>)
    ensures
        outbox(messages@) == sentiment_updates(subscribers@, market_id, odds@, sentiment_score),
{
    let mut messages: Vec<OutgoingMessage> = Vec::new();
    let mut i: usize = 0;
    while i < subscribers.len()
        invariant
            i <= subscribers.len(),
            outbox(messages@) == sentiment_updates(
                subscribers@.take(i as int),
                market_id,
                odds@,
                sentiment_score,
            ),
        decreases subscribers.len() - i,
    {
        let message = Message::SentimentUpdate {
            market_id,
            odds: odds.clone(),
            sentiment_score,
        };
        let ghost before = messages@;
        messages.push(OutgoingMessage { destination: subscribers[i], message });
        proof {
            assert(outbox(messages@) =~= outbox(before).push(messages@[i as int]@));
            assert(outbox(messages@) =~= sentiment_updates(
                subscribers@.take(i + 1),
                market_id,
                odds@,
                sentiment_score,
            ));
        }
        i += 1;
    }
    proof {
        assert(subscribers@.take(subscribers.len() as int) =~= subscribers@);
    }
    messages
}

} // verus!
