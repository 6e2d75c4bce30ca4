//! The Bitstamp feed: the subscription to a pair's order book, the events it
//! sends and how they become a book.
use vstd::prelude::*;

use crate::decimal::Dec;
use crate::error::Error;
use crate::order_collection::{self, lemma_levels_of, levels_of, Exchange, InputData, Side, ToLevel, ToLevels, ToTick};
use crate::symbol::{pair_symbol, symbol_of};
use crate::websocket::Message;

verus! {

/// How many levels of each side are kept of a book.
pub const DEPTH: usize = 10;

/// The messages of the Bitstamp feed, both ways.
#[derive(Debug, PartialEq)]
pub enum Event {
    /// A book of the channel.
    Data { data: InData, channel: String },
    /// The subscription to a channel, sent to Bitstamp.
    Subscribe { data: OutSubscription },
    /// Bitstamp's answer to a subscription.
    SubscriptionSucceeded { data: InSubscription, channel: String },
}

/// The channel subscribed to.
#[derive(Debug, PartialEq)]
pub struct OutSubscription {
    pub channel: String,
}

/// The bids and asks of a book, best first.
#[derive(Debug, PartialEq)]
pub struct InData {
    pub bids: Vec<Level>,
    pub asks: Vec<Level>,
}

/// The (empty) body of a subscription's answer.
#[derive(Debug, PartialEq)]
pub struct InSubscription {}

/// One level of a book: a price and the amount offered at it.
#[derive(Debug, Clone, Copy, PartialEq)]
pub struct Level {
    pub price: Dec,
    pub amount: Dec,
}

impl ToLevel for Level {
    open spec fn level_of(&self, side: Side) -> order_collection::Level {
        order_collection::Level {
            side,
            price: self.price,
            amount: self.amount,
            exchange: Exchange::Bitstamp,
        }
    }

    /// The level of the merged book: the same price and amount, on Bitstamp.
    fn to_level(&self, side: Side) -> (r: order_collection::Level) {
        order_collection::Level::new(side, self.price, self.amount, Exchange::Bitstamp)
    }
}

impl InData {
    /// The book it stands for: Bitstamp, with the first ten bids and the first ten asks.
    pub open spec fn tick_parts(&self) -> (Exchange, Seq<order_collection::Level>, Seq<order_collection::Level>) {
        (
            Exchange::Bitstamp,
            levels_of(self.bids@, Side::Bid, DEPTH as nat),
            levels_of(self.asks@, Side::Ask, DEPTH as nat),
        )
    }
}

/// The book of a data event keeps, of each side, its first ten levels (all of them when
/// there are fewer), in order, each with its own price and amount, as a
/// level of that side on Bitstamp.
pub proof fn lemma_data_keeps_first_ten(data: InData)
    ensures
        data.tick_parts().0 == Exchange::Bitstamp,
        data.tick_parts().1.len() == if data.bids@.len() < 10 { data.bids@.len() } else { 10 },
        data.tick_parts().2.len() == if data.asks@.len() < 10 { data.asks@.len() } else { 10 },
        forall|i: int|
            0 <= i < data.tick_parts().1.len() ==> #[trigger] data.tick_parts().1[i] == (order_collection::Level {
                side: Side::Bid,
                price: data.bids@[i].price,
                amount: data.bids@[i].amount,
                exchange: Exchange::Bitstamp,
            }),
        forall|i: int|
            0 <= i < data.tick_parts().2.len() ==> #[trigger] data.tick_parts().2[i] == (order_collection::Level {
                side: Side::Ask,
                price: data.asks@[i].price,
                amount: data.asks@[i].amount,
                exchange: Exchange::Bitstamp,
            }),
{
    lemma_levels_of(data.bids@, Side::Bid, DEPTH as nat);
    lemma_levels_of(data.asks@, Side::Ask, DEPTH as nat);
}

impl ToTick for Event {
    /// Only a data event holds a book; only its first ten levels of each side are kept.
    fn option_intick(&self) -> (r: Option<InputData>)
        ensures
            match self {
                Event::Data { data, .. } => r matches Some(t) && t.parts() == data.tick_parts(),
                _ => r is None,
            },
    {
        match self {
            Event::Data { data, .. } => {
                let bids = data.bids.to_levels(Side::Bid, DEPTH);
                let asks = data.asks.to_levels(Side::Ask, DEPTH);
                Some(InputData { exchange: Exchange::Bitstamp, bids, asks })
            },
            _ => None,
        }
    }
}

/// The channel of a currency pair's order book.
pub open spec fn channel_of(currency_pair: Seq<char>) -> Seq<char> {
    "order_book_"@ + symbol_of(currency_pair)
}

/// The subscription to a currency pair's order book.
pub fn subscribe_event(currency_pair: &str) -> (r: Event)
    ensures
        r matches Event::Subscribe { data } && data.channel@ == channel_of(currency_pair@),
{
    let symbol = pair_symbol(currency_pair);
    let mut channel = String::from_str("order_book_");
    channel.append(symbol.as_str());
    Event::Subscribe { data: OutSubscription { channel } }
}

/// What a frame of the feed gives: the book of a data event for a text
/// frame, nothing for another event or another frame, and the decoding error
/// where its text was no event.
pub fn parse(msg: Message<Result<Event, Error>>) -> (r: Result<Option<InputData>, Error>)
    ensures
        match msg {
            Message::Text(Ok(e)) => match e {
                Event::Data { data, .. } => r matches Ok(Some(t)) && t.parts() == data.tick_parts(),
                _ => r matches Ok(None),
            },
            Message::Text(Err(err)) => r == Err::<Option<InputData>, Error>(err),
            _ => r matches Ok(None),
        },
{
    match msg {
        Message::Text(decoded) => match decoded {
            Ok(e) => Ok(e.option_intick()),
            Err(err) => Err(err),
        },
        _ => Ok(None),
    }
}

} // verus!
