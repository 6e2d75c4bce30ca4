//! Merging the order books of several exchanges into one book: the top bids,
//! the top asks and the spread between them.

pub mod decimal;
pub mod book_order;
pub mod order_collection;
pub mod error;
pub mod symbol;
pub mod websocket;
pub mod binance;
pub mod bitstamp;
pub mod orders;
