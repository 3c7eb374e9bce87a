//! Websocket plumbing shared by the market-data clients: frame kinds, the
//! pacing of writes, and the bookkeeping of a pool of connections.
use vstd::prelude::*;

pub mod utils;
pub mod ws_connection;

verus! {

/// The kind of a websocket frame.
#[derive(Debug, Clone, Copy, PartialEq, Eq, Structural)]
pub enum OpCode {
    Ping,
    Pong,
    Text,
    Binary,
    Close,
}

} // verus!
