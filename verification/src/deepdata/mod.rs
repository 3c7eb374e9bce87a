//! Best-bid market data from spot exchanges: the pairs followed, the settings
//! of the connection pools, the subscription messages and the liveness check
//! of each connection.
use vstd::prelude::*;

use crate::clock::utc_now_secs;

pub mod binance_l1;
pub mod gate_l1;
pub mod utils;

verus! {

/// A pair followed on a market-data socket.
#[derive(Debug, Clone)]
pub struct DepthSocketCurrencyPairs {
    pub market_code: &'static str,
    pub currency_code: String,
    pub currency_unit: String,
    pub symbol: String,
    pub socket_key: String,
    pub guid: String,
    pub last_data_time: i64,
    /// When a ping was last sent on the pair's own connection.
    pub send_ping_pong_time: u128,
}

/// Seconds since the Unix epoch, UTC; `None` when the system clock reads
/// before the epoch.
pub fn get_current_time_secs() -> (s: Option<i64>)
    ensures
        s matches Some(t) ==> t >= 0,
{
    utc_now_secs()
}

/// Seconds of silence after which a connection is taken for dead.
pub const SILENCE_LIMIT_SECS: i64 = 60;

/// A connection whose last message came at `last_msg_time` is dead at `now`
/// (both in seconds) when that was more than a minute before.
pub open spec fn silent(last_msg_time: int, now: int) -> bool {
    last_msg_time < now - SILENCE_LIMIT_SECS
}

/// Whether a connection whose last message came at `last_msg_time` is dead
/// at `now` (both in seconds).
pub fn is_silent(last_msg_time: i64, now: i64) -> (dead: bool)
    requires
        now >= i64::MIN + SILENCE_LIMIT_SECS,
    ensures
        dead == silent(last_msg_time as int, now as int),
{
    last_msg_time < now - SILENCE_LIMIT_SECS
}

/// The time of last message to record for a connection whose reader stopped
/// at `now`: a minute back, so that the next heartbeat reconnects it.
pub fn silenced_at(now: i64) -> (t: i64)
    requires
        now >= i64::MIN + SILENCE_LIMIT_SECS,
    ensures
        t == now - SILENCE_LIMIT_SECS,
{
    now - SILENCE_LIMIT_SECS
}

/// Law: a connection whose reader stopped at `stopped` is taken for dead by
/// any heartbeat in a later second, so that the heartbeat reconnects it.
pub proof fn lemma_silenced_is_dead(stopped: int, later: int)
    requires
        later > stopped,
    ensures
        silent(stopped - SILENCE_LIMIT_SECS, later),
{
}

} // verus!
