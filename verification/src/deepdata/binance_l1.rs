//! Binance best-bid (`bookTicker`) data: the pool the streams run on, the
//! subscription of one pair, and the quantity arithmetic of the trades that
//! a price jump triggers.
use vstd::prelude::*;

use crate::text::{decimal_string, decimal_text, join_text, str_bytes};
use crate::trade::opt_text;
use crate::web_socket::ws_connection::WsConnectionPool;

verus! {

/// The market's name in the pool.
pub const MARKET_CODE: &'static str = "Binance";

/// Pairs per connection.
pub const MAX_PAIRS_PER_CONN: u8 = 150;

/// Least time between two writes on a connection, in milliseconds: the
/// exchange takes at most five messages a second, pings included.
pub const WRITE_WAIT_MS: u16 = 300;

/// The subscription of one pair's best bid and offer, with request id `id`.
pub open spec fn sub_param_text(pair: Seq<char>, id: u64) -> Seq<char> {
    "{\"method\":\"SUBSCRIBE\",\"params\":[\""@ + pair + "@bookTicker\"],\"id\":"@ + decimal_text(
        id as nat,
    ) + "}"@
}

/// The bytes after the first `.`, when there is one.
pub open spec fn after_first_dot(b: Seq<u8>) -> Option<Seq<u8>>
    decreases b.len(),
{
    if b.len() == 0 {
        None
    } else if b[0] == 46 {
        Some(b.drop_first())
    } else {
        after_first_dot(b.drop_first())
    }
}

/// The number of bytes before the first `.` (all of them when there is none).
pub open spec fn run_before_dot(b: Seq<u8>) -> nat
    decreases b.len(),
{
    if b.len() == 0 || b[0] == 46 {
        0
    } else {
        1 + run_before_dot(b.drop_first())
    }
}

/// The number of decimal places of a quantity: the length of the piece after
/// the first `.` (up to a further `.`), or 0 without a `.`.
pub open spec fn decimal_places_of(b: Seq<u8>) -> nat {
    match after_first_dot(b) {
        Some(r) => run_before_dot(r),
        None => 0,
    }
}

/// Bytes before a first `.` do not change what follows it.
proof fn lemma_after_dot_skips(a: Seq<u8>, rest: Seq<u8>)
    requires
        !a.contains(46u8),
    ensures
        after_first_dot(a + rest) == after_first_dot(rest),
    decreases a.len(),
{
    if a.len() > 0 {
        assert(!a.drop_first().contains(46u8)) by {
            assert forall|i: int| 0 <= i < a.drop_first().len() implies a.drop_first()[i] != 46u8 by {
                assert(a.drop_first()[i] == a[i + 1]);
            }
        }
        assert(a[0] != 46u8);
        assert((a + rest).drop_first() =~= a.drop_first() + rest);
        lemma_after_dot_skips(a.drop_first(), rest);
    } else {
        assert(a + rest =~= rest);
    }
}

/// A run free of `.` followed by nothing or by a `.` is counted whole.
proof fn lemma_run_counts(d: Seq<u8>, r: Seq<u8>)
    requires
        !d.contains(46u8),
        r.len() == 0 || r[0] == 46u8,
    ensures
        run_before_dot(d + r) == d.len(),
    decreases d.len(),
{
    if d.len() > 0 {
        assert(!d.drop_first().contains(46u8)) by {
            assert forall|i: int| 0 <= i < d.drop_first().len() implies d.drop_first()[i] != 46u8 by {
                assert(d.drop_first()[i] == d[i + 1]);
            }
        }
        assert(d[0] != 46u8);
        assert((d + r).drop_first() =~= d.drop_first() + r);
        lemma_run_counts(d.drop_first(), r);
    } else {
        assert(d + r =~= r);
    }
}

/// Law: the decimal places of a quantity are all the bytes between its
/// first `.` and the next `.` (or the end), however many there are; a
/// quantity without `.` has none.
pub proof fn lemma_decimal_places_count(a: Seq<u8>, d: Seq<u8>, r: Seq<u8>)
    requires
        !a.contains(46u8),
        !d.contains(46u8),
        r.len() == 0 || r[0] == 46u8,
    ensures
        decimal_places_of(a + seq![46u8] + d + r) == d.len(),
        decimal_places_of(a) == 0,
{
    lemma_after_dot_skips(a, seq![46u8] + d + r);
    assert(a + seq![46u8] + d + r =~= a + (seq![46u8] + d + r));
    assert((seq![46u8] + d + r).drop_first() =~= d + r);
    lemma_run_counts(d, r);
    lemma_after_dot_skips(a, Seq::<u8>::empty());
    assert(a + Seq::<u8>::empty() =~= a);
}

/// The share of a bought quantity that is sold again.
pub const SELL_FACTOR: &'static str = "0.985";

/// Whether `text`, read as a `rust_decimal::Decimal`, is above zero; `None`
/// when it does not read as one.
pub uninterp spec fn decimal_positive(text: Seq<char>) -> Option<bool>;

/// `text.parse::<rust_decimal::Decimal>()` compared with `Decimal::ZERO`:
/// `None` when the text does not parse, else whether the value is above
/// zero. The reading and the comparison are named.
#[verifier::external_body]
fn decimal_is_positive(text: &str) -> (r: Option<bool>)
    ensures
        r == decimal_positive(text@),
{
    match text.parse::<rust_decimal::Decimal>() {
        Ok(d) => Some(d > rust_decimal::Decimal::ZERO),
        Err(_) => None,
    }
}

/// The text of `qty` times `factor`, as `rust_decimal` computes it,
/// truncated to `scale` decimal places and stripped of trailing zeros;
/// `None` when either does not read as a decimal or the product overflows.
pub uninterp spec fn decimal_scaled_text(qty: Seq<char>, factor: Seq<char>, scale: u32) -> Option<Seq<char>>;

/// `qty.parse::<Decimal>()` and `Decimal::from_str_exact(factor)`, then
/// `checked_mul`, `trunc_with_scale(scale)`, `normalize` and `to_string`.
/// The text is named.
#[verifier::external_body]
fn decimal_scaled(qty: &str, factor: &str, scale: u32) -> (r: Option<String>)
    ensures
        opt_text(r) == decimal_scaled_text(qty@, factor@, scale),
{
    let q = qty.parse::<rust_decimal::Decimal>().ok()?;
    let f = rust_decimal::Decimal::from_str_exact(factor).ok()?;
    Some(q.checked_mul(f)?.trunc_with_scale(scale).normalize().to_string())
}

/// What is sold after a buy that filled `qty`: 98.5% of it, truncated to
/// the decimal places of `qty`; nothing when `qty` does not read as a
/// decimal, is not above zero, or leaves nothing above zero to sell.
pub open spec fn sell_quantity_text(qty: Seq<char>) -> Option<Seq<char>> {
    let scale = decimal_places_of(str_bytes(qty)) as u32;
    if decimal_positive(qty) == Some(true) {
        match decimal_scaled_text(qty, SELL_FACTOR@, scale) {
            Some(t) => if decimal_positive(t) == Some(true) {
                Some(t)
            } else {
                None
            },
            None => None,
        }
    } else {
        None
    }
}

/// The client of Binance best-bid streams.
pub struct BinanceL1DeepSocketClient;

impl BinanceL1DeepSocketClient {
    /// The pool the streams run on: compressed connections to the combined
    /// stream endpoint, 150 pairs each, writes 300 ms apart.
    pub fn new_pool() -> (p: WsConnectionPool)
        ensures
            p.market_text() == MARKET_CODE@,
            p.url_text() == "wss://stream.binance.com:9443/stream"@,
            p.deflate(),
            p.capacity() == MAX_PAIRS_PER_CONN,
            p.write_wait() == WRITE_WAIT_MS,
            p.pairs().len() == 0,
            !p.started(),
    {
        let mut p = WsConnectionPool::new(MARKET_CODE, "wss://stream.binance.com:9443/stream", true, MAX_PAIRS_PER_CONN);
        p.set_write_wait_time(WRITE_WAIT_MS);
        p
    }

    /// The subscription message of one pair, with request id `id`:
    /// `{"method":"SUBSCRIBE","params":["<pair>@bookTicker"],"id":<id>}`.
    pub fn sub_param(pair: &str, id: u64) -> (m: String)
        ensures
            m@ == sub_param_text(pair@, id),
    {
        let a = join_text("{\"method\":\"SUBSCRIBE\",\"params\":[\"", pair);
        let b = join_text(a.as_str(), "@bookTicker\"],\"id\":");
        let n = decimal_string(id);
        let c = join_text(b.as_str(), n.as_str());
        join_text(c.as_str(), "}")
    }

    /// The quantity to sell after a buy that filled `executed_qty`: 98.5% of
    /// it, truncated to as many decimal places as `executed_qty` has, as
    /// text; `None` when nothing is to be sold.
    pub fn sell_quantity(executed_qty: &str) -> (r: Option<String>)
        ensures
            opt_text(r) == sell_quantity_text(executed_qty@),
    {
        let places = Self::decimal_places(executed_qty);
        match decimal_is_positive(executed_qty) {
            Some(true) => {},
            _ => return None,
        }
        let sell = match decimal_scaled(executed_qty, SELL_FACTOR, places as u32) {
            Some(t) => t,
            None => return None,
        };
        match decimal_is_positive(sell.as_str()) {
            Some(true) => Some(sell),
            _ => None,
        }
    }

    /// The number of decimal places of a quantity text: the length of the
    /// piece after the first `.` up to a further `.`, or 0 without a `.`.
    pub fn decimal_places(qty: &str) -> (n: usize)
        ensures
            n == decimal_places_of(str_bytes(qty@)),
    {
        let b = qty.as_bytes();
        let len = b.len();
        let mut i: usize = 0;
        assert(b@.skip(0) =~= b@);
        while i < len && b[i] != 46
            invariant
                0 <= i <= len,
                len == b@.len(),
                after_first_dot(b@) == after_first_dot(b@.skip(i as int)),
            decreases len - i,
        {
            assert(b@.skip(i as int).drop_first() =~= b@.skip(i + 1));
            i = i + 1;
        }
        if i == len {
            assert(b@.skip(i as int).len() == 0);
            return 0;
        }
        let start = i + 1;
        let mut j: usize = start;
        assert(b@.skip(i as int).drop_first() =~= b@.skip(start as int));
        while j < len && b[j] != 46
            invariant
                start <= j <= len,
                len == b@.len(),
                after_first_dot(b@) == Some(b@.skip(start as int)),
                run_before_dot(b@.skip(start as int)) == (j - start) + run_before_dot(b@.skip(j as int)),
            decreases len - j,
        {
            assert(b@.skip(j as int).drop_first() =~= b@.skip(j + 1));
            j = j + 1;
        }
        j - start
    }
}

} // verus!
