//! The Binance feed: its stream address, the depth snapshots it sends and
//! how they become a book.
use vstd::prelude::*;

use crate::decimal::Dec;
use crate::error::Error;
use crate::order_collection::{self, lemma_levels_of, levels_of, Exchange, InputData, Side, ToLevel, ToLevels, ToTick};
use crate::symbol::{pair_symbol, symbol_of};
use crate::websocket::Message;

verus! {

/// How many levels of each side are kept of a snapshot.
pub const DEPTH: usize = 10;

/// A depth snapshot as Binance sends it.
#[derive(Debug, PartialEq)]
pub struct BinanceDataFormat {
    pub last_update_id: usize,
    pub bids: Vec<Level>,
    pub asks: Vec<Level>,
}

/// One level of a snapshot: a price and the amount offered at it.
#[derive(Debug, Clone, Copy, PartialEq)]
pub struct Level {
    pub price: Dec,
    pub amount: Dec,
}

impl ToLevel for Level {
    open spec fn level_of(&self, side: Side) -> order_collection::Level {
        order_collection::Level {
            side,
            price: self.price,
            amount: self.amount,
            exchange: Exchange::Binance,
        }
    }

    /// The level of the merged book: the same price and amount, on Binance.
    fn to_level(&self, side: Side) -> (r: order_collection::Level) {
        order_collection::Level::new(side, self.price, self.amount, Exchange::Binance)
    }
}

impl BinanceDataFormat {
    /// The book a snapshot stands for: Binance, with the first ten bids and
    /// the first ten asks.
    pub open spec fn tick_parts(&self) -> (Exchange, Seq<order_collection::Level>, Seq<order_collection::Level>) {
        (
            Exchange::Binance,
            levels_of(self.bids@, Side::Bid, DEPTH as nat),
            levels_of(self.asks@, Side::Ask, DEPTH as nat),
        )
    }
}

/// The book of a snapshot keeps, of each side, its first ten levels (all of them when
/// there are fewer), in order, each with its own price and amount, as a
/// level of that side on Binance.
pub proof fn lemma_snapshot_keeps_first_ten(e: BinanceDataFormat)
    ensures
        e.tick_parts().0 == Exchange::Binance,
        e.tick_parts().1.len() == if e.bids@.len() < 10 { e.bids@.len() } else { 10 },
        e.tick_parts().2.len() == if e.asks@.len() < 10 { e.asks@.len() } else { 10 },
        forall|i: int|
            0 <= i < e.tick_parts().1.len() ==> #[trigger] e.tick_parts().1[i] == (order_collection::Level {
                side: Side::Bid,
                price: e.bids@[i].price,
                amount: e.bids@[i].amount,
                exchange: Exchange::Binance,
            }),
        forall|i: int|
            0 <= i < e.tick_parts().2.len() ==> #[trigger] e.tick_parts().2[i] == (order_collection::Level {
                side: Side::Ask,
                price: e.asks@[i].price,
                amount: e.asks@[i].amount,
                exchange: Exchange::Binance,
            }),
{
    lemma_levels_of(e.bids@, Side::Bid, DEPTH as nat);
    lemma_levels_of(e.asks@, Side::Ask, DEPTH as nat);
}

impl ToTick for BinanceDataFormat {
    /// Every snapshot holds a book; only its first ten levels of each side are kept.
    fn option_intick(&self) -> (r: Option<InputData>)
        ensures
            r matches Some(t) && t.parts() == self.tick_parts(),
    {
        let bids = self.bids.to_levels(Side::Bid, DEPTH);
        let asks = self.asks.to_levels(Side::Ask, DEPTH);
        Some(InputData { exchange: Exchange::Binance, bids, asks })
    }
}

/// The address of the stream of depth snapshots for a currency pair: the
/// ten best levels every 100 ms.
pub fn stream_url(currency_pair: &str) -> (r: String)
    ensures
        r@ == "wss://stream.binance.com:9443/ws/"@ + symbol_of(currency_pair@) + "@depth10@100ms"@,
{
    let symbol = pair_symbol(currency_pair);
    let mut url = String::from_str("wss://stream.binance.com:9443/ws/");
    url.append(symbol.as_str());
    url.append("@depth10@100ms");
    url
}

/// What a frame of the feed gives: the book of a snapshot for a text frame,
/// the decoding error where its text was no snapshot, nothing for any other frame.
pub fn parse(msg: Message<Result<BinanceDataFormat, Error>>) -> (r: Result<Option<InputData>, Error>)
    ensures
        match msg {
            Message::Text(Ok(e)) => r matches Ok(Some(t)) && t.parts() == e.tick_parts(),
            Message::Text(Err(err)) => r == Err::<Option<InputData>, Error>(err),
            _ => r matches Ok(None),
        },
{
    match msg {
        Message::Text(decoded) => match decoded {
            Ok(e) => Ok(e.option_intick()),
            Err(err) => Err(err),
        },
        _ => Ok(None),
    }
}

} // verus!
