//! The frames a websocket feed delivers, as far as the feeds read them.
use vstd::prelude::*;

use crate::error::Error;

verus! {

/// A websocket frame. A text frame carries what its text was decoded to.
#[derive(Debug, PartialEq)]
pub enum Message<T> {
    Text(T),
    Binary(Vec<u8>),
    Ping(Vec<u8>),
    Pong(Vec<u8>),
    Close,
    Frame,
}

/// What the next read of a feed gives: a frame, an error, or nothing once the
/// feed has ended. The end of the feed is the error `ConnectionClosed`.
pub fn handle<M>(ws_msg: Option<Result<M, Error>>) -> (r: Result<M, Error>)
    ensures
        r == (match ws_msg {
            Some(res) => res,
            None => Err(Error::ConnectionClosed),
        }),
{
    match ws_msg {
        Some(res) => res,
        None => Err(Error::ConnectionClosed),
    }
}

} // verus!
