//! Gate.io best-bid (`spot.book_ticker`) data: the pool the streams run on.
use vstd::prelude::*;

use crate::web_socket::ws_connection::WsConnectionPool;

verus! {

/// The market's name in the pool.
pub const MARKET_CODE: &'static str = "Gate";

/// Pairs per connection.
pub const MAX_PAIRS_PER_CONN: u8 = 100;

/// Least time between two writes on a connection, in milliseconds.
pub const WRITE_WAIT_MS: u16 = 300;

/// The client of Gate.io best-bid streams.
pub struct GateL1DeepSocketClient;

impl GateL1DeepSocketClient {
    /// The pool the streams run on: compressed connections to the private
    /// spot endpoint, 100 pairs each, writes 300 ms apart.
    pub fn new_pool() -> (p: WsConnectionPool)
        ensures
            p.market_text() == MARKET_CODE@,
            p.url_text() == "wss://spotws-private.gateapi.io/ws/v4/"@,
            p.deflate(),
            p.capacity() == MAX_PAIRS_PER_CONN,
            p.write_wait() == WRITE_WAIT_MS,
            p.pairs().len() == 0,
            !p.started(),
    {
        let mut p = WsConnectionPool::new(MARKET_CODE, "wss://spotws-private.gateapi.io/ws/v4/", true, MAX_PAIRS_PER_CONN);
        p.set_write_wait_time(WRITE_WAIT_MS);
        p
    }
}

} // verus!
