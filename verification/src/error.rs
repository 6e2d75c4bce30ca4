//! The errors of the library.
use vstd::prelude::*;

verus! {

/// What went wrong with a feed or with the service.
#[derive(Debug, Clone, PartialEq, Eq)]
pub enum Error {
    /// The feed was closed.
    ConnectionClosed,
    /// The websocket failed; the text is its description.
    WebSocket(String),
    /// A message could not be decoded; the text is the decoder's description.
    Json(String),
    /// The gRPC service failed; the text is its description.
    Grpc(String),
    /// An address could not be read; the text is the parser's description.
    Address(String),
}

/// An error of one exchange's feed, with the exchange it came from.
#[derive(Debug, Clone, PartialEq, Eq)]
pub enum ExchangeErr {
    Bitstamp(Error),
    Binance(Error),
}

} // verus!
