//! Spot trading over the websocket APIs of Binance, Gate.io and OKX: what the
//! clients send, how they sign it, and the decisions of their connection loops.
use vstd::prelude::*;
use vstd::string::StringSliceAdditionalSpecFns;

use crate::crypto::{hex_lower, lemma_hex_lower_len};
use crate::text::{decimal_text, push_str, str_bytes};

pub mod binance;
pub mod gate;
pub mod okx;

verus! {

/// Why a trading request was not made or failed.
#[derive(Debug, Clone, PartialEq, Eq)]
pub enum TradeError {
    /// The websocket is not connected.
    NotConnected,
    /// The session has not logged in.
    NotLoggedIn,
    /// No writer is attached to the websocket.
    SenderUnavailable,
    /// A market order names neither a base quantity nor a quote quantity.
    MissingMarketQuantity,
    /// Neither an order id nor a client order id was given.
    MissingOrderId,
    /// An amendment gives neither a new size nor a new price.
    MissingAmendment,
    /// The signing key was refused.
    InvalidKeyLength,
    /// Binance answered with an error.
    BinanceApi { code: i32, msg: String },
    /// Binance answered with a status other than 200 and no error body.
    RequestStatus(u16),
    /// Gate.io refused the login.
    GateLogin { label: String, message: String },
    /// Gate.io answered the login with a status other than `200` and no error body.
    GateLoginStatus(String),
    /// OKX answered with a code other than `0`.
    OkxApi { okx_code: String, msg: String },
    /// OKX refused the login.
    OkxLoginFailed,
    /// OKX did not answer the login in time.
    OkxLoginTimeout,
    /// The system's random source failed, so no request id could be made.
    RandomUnavailable,
    /// The system clock reads before the Unix epoch or beyond what the
    /// clock library represents.
    ClockUnavailable,
    /// The connection could not be established after the allowed attempts.
    ReconnectLimit { attempts: u32 },
}

/// Counts consecutive failed connection attempts against a limit.
pub struct ReconnectCounter {
    max_reconnect_attempts: u32,
    attempts: u32,
}

impl ReconnectCounter {
    /// The counter never passes one beyond its limit, and the limit leaves room
    /// for that.
    #[verifier::type_invariant]
    spec fn inv(self) -> bool {
        &&& self.max_reconnect_attempts < u32::MAX
        &&& self.attempts <= self.max_reconnect_attempts + 1
    }

    /// The limit.
    pub closed spec fn limit(self) -> u32 {
        self.max_reconnect_attempts
    }

    /// The consecutive failures counted so far.
    pub closed spec fn count(self) -> u32 {
        self.attempts
    }

    /// A counter at zero with the given limit.
    pub fn new(max_reconnect_attempts: u32) -> (c: Self)
        requires
            max_reconnect_attempts < u32::MAX,
        ensures
            c.limit() == max_reconnect_attempts,
            c.count() == 0,
    {
        ReconnectCounter { max_reconnect_attempts, attempts: 0 }
    }

    /// The consecutive failures counted so far.
    pub fn attempts(&self) -> (a: u32)
        ensures
            a == self.count(),
    {
        self.attempts
    }

    /// The limit.
    pub fn max_reconnect_attempts(&self) -> (m: u32)
        ensures
            m == self.limit(),
    {
        self.max_reconnect_attempts
    }

    /// Sets a new limit. A count already past it is brought back to one past
    /// it, so that the next failure gives up.
    pub fn set_limit(&mut self, max_reconnect_attempts: u32)
        requires
            max_reconnect_attempts < u32::MAX,
        ensures
            final(self).limit() == max_reconnect_attempts,
            final(self).count() == (if old(self).count() <= max_reconnect_attempts + 1 {
                old(self).count() as int
            } else {
                max_reconnect_attempts + 1
            }),
    {
        proof {
            use_type_invariant(&*self);
        }
        if self.attempts > max_reconnect_attempts + 1 {
            self.attempts = max_reconnect_attempts + 1;
        }
        self.max_reconnect_attempts = max_reconnect_attempts;
    }

    /// A connection succeeded: the count starts again from zero.
    pub fn on_connected(&mut self)
        ensures
            final(self).count() == 0,
            final(self).limit() == old(self).limit(),
    {
        proof {
            use_type_invariant(&*self);
        }
        self.attempts = 0;
    }

    /// A connection failed: the failure is counted, and the loop may retry as
    /// long as the count stays within the limit. Once the count has passed
    /// the limit it stays there.
    pub fn on_failure(&mut self) -> (retry: bool)
        ensures
            final(self).limit() == old(self).limit(),
            old(self).count() <= old(self).limit() ==> final(self).count() == old(self).count() + 1,
            old(self).count() > old(self).limit() ==> final(self).count() == old(self).count(),
            retry == (final(self).count() <= final(self).limit()),
    {
        proof {
            use_type_invariant(&*self);
        }
        if self.attempts <= self.max_reconnect_attempts {
            self.attempts = self.attempts + 1;
        }
        self.attempts <= self.max_reconnect_attempts
    }
}

/// The count after one more failure: one more while within the limit, and
/// no further once past it.
pub open spec fn next_failure_count(count: int, limit: int) -> int {
    if count <= limit {
        count + 1
    } else {
        count
    }
}

/// The count after `k` consecutive failures from a fresh counter.
pub open spec fn failure_count(limit: int, k: nat) -> int
    decreases k,
{
    if k == 0 {
        0
    } else {
        next_failure_count(failure_count(limit, (k - 1) as nat), limit)
    }
}

/// Law: from a fresh counter, the `k`-th consecutive failure is retried
/// exactly when `k` is within the limit; after that the count stays one past
/// the limit, so every further failure gives up.
pub proof fn lemma_reconnect_gives_up(limit: int, k: nat)
    requires
        limit >= 0,
    ensures
        failure_count(limit, k) == (if k <= limit + 1 { k as int } else { limit + 1 }),
        k >= 1 ==> (failure_count(limit, k) <= limit <==> k <= limit),
    decreases k,
{
    if k > 0 {
        lemma_reconnect_gives_up(limit, (k - 1) as nat);
    }
}

/// The text of an optional string.
pub open spec fn opt_text(o: Option<String>) -> Option<Seq<char>> {
    match o {
        Some(s) => Some(s@),
        None => None,
    }
}

/// The text of an optional string slice.
pub open spec fn opt_str<'a>(o: Option<&'a str>) -> Option<Seq<char>> {
    match o {
        Some(s) => Some(s@),
        None => None,
    }
}

/// The decimal text of an optional number.
pub open spec fn opt_decimal(o: Option<u64>) -> Option<Seq<char>> {
    match o {
        Some(n) => Some(decimal_text(n as nat)),
        None => None,
    }
}

/// The parameter `key=value` when a value is given, else nothing.
pub open spec fn opt_param(key: Seq<char>, value: Option<Seq<char>>) -> Seq<(Seq<char>, Seq<char>)> {
    match value {
        Some(v) => seq![(key, v)],
        None => seq![],
    }
}

/// `getrandom::fill` on 16 bytes: random bytes from the system's source, or
/// `None` when that source fails. Nothing else is stated: they are random.
#[verifier::external_body]
fn random_bytes16() -> (r: Option<[u8; 16]>) {
    let mut bytes = [0u8; 16];
    match getrandom::fill(&mut bytes) {
        Ok(()) => Some(bytes),
        Err(_) => None,
    }
}

/// The version-4 UUID made of 16 random bytes, as text: the bytes with the
/// version (4) in the high nibble of byte 6 and the RFC 4122 variant in the
/// two high bits of byte 8, in lower-case hexadecimal, grouped 4-2-2-2-6
/// bytes with hyphens between.
pub open spec fn uuid_v4_text(b: Seq<u8>) -> Seq<char> {
    let v = b.update(6, (b[6] & 0x0fu8) | 0x40u8).update(8, (b[8] & 0x3fu8) | 0x80u8);
    hex_lower(v.subrange(0, 4)) + seq!['-'] + hex_lower(v.subrange(4, 6)) + seq!['-'] + hex_lower(
        v.subrange(6, 8),
    ) + seq!['-'] + hex_lower(v.subrange(8, 10)) + seq!['-'] + hex_lower(v.subrange(10, 16))
}

/// `uuid::Builder::from_random_bytes(bytes).into_uuid().to_string()`: the
/// builder sets the version and variant bits, and the text is the
/// hyphenated lower-case form.
#[verifier::external_body]
fn uuid_v4_from(bytes: [u8; 16]) -> (s: String)
    ensures
        s@ == uuid_v4_text(bytes@),
{
    uuid::Builder::from_random_bytes(bytes).into_uuid().to_string()
}

/// A fresh request id: a random version-4 UUID of 36 characters, or `None`
/// when the system's random source fails.
pub(crate) fn new_request_id() -> (r: Option<String>)
    ensures
        r matches Some(s) ==> s@.len() == 36 && exists|b: Seq<u8>| b.len() == 16 && s@ == uuid_v4_text(b),
{
    match random_bytes16() {
        Some(b) => {
            let s = uuid_v4_from(b);
            proof {
                let v = b@.update(6, (b@[6] & 0x0fu8) | 0x40u8).update(8, (b@[8] & 0x3fu8) | 0x80u8);
                lemma_hex_lower_len(v.subrange(0, 4));
                lemma_hex_lower_len(v.subrange(4, 6));
                lemma_hex_lower_len(v.subrange(6, 8));
                lemma_hex_lower_len(v.subrange(8, 10));
                lemma_hex_lower_len(v.subrange(10, 16));
            }
            Some(s)
        },
        None => None,
    }
}

/// Byte-wise lexicographic order of texts, as `str` orders them.
pub open spec fn bytes_lt(a: Seq<u8>, b: Seq<u8>) -> bool
    decreases a.len(),
{
    if a.len() == 0 {
        b.len() > 0
    } else if b.len() == 0 {
        false
    } else if a[0] != b[0] {
        a[0] < b[0]
    } else {
        bytes_lt(a.drop_first(), b.drop_first())
    }
}

/// The key and value texts of parameters.
pub open spec fn params_view<'a>(ps: Seq<(&'a str, String)>) -> Seq<(Seq<char>, Seq<char>)> {
    ps.map_values(|p: (&'a str, String)| (p.0@, p.1@))
}

/// Inserts `p` before the first parameter whose key orders after its key.
pub open spec fn insert_by_key(s: Seq<(Seq<char>, Seq<char>)>, p: (Seq<char>, Seq<char>)) -> Seq<
    (Seq<char>, Seq<char>),
>
    decreases s.len(),
{
    if s.len() == 0 {
        seq![p]
    } else if bytes_lt(str_bytes(p.0), str_bytes(s[0].0)) {
        seq![p] + s
    } else {
        seq![s[0]] + insert_by_key(s.drop_first(), p)
    }
}

/// The parameters sorted by key, equal keys keeping their order (a stable
/// sort, as `sort_by` on the keys is).
pub open spec fn sorted_by_key(s: Seq<(Seq<char>, Seq<char>)>) -> Seq<(Seq<char>, Seq<char>)>
    decreases s.len(),
{
    if s.len() == 0 {
        seq![]
    } else {
        insert_by_key(sorted_by_key(s.drop_last()), s.last())
    }
}

/// Keys never decrease along the parameters.
pub open spec fn keys_sorted(s: Seq<(Seq<char>, Seq<char>)>) -> bool {
    forall|i: int, j: int|
        0 <= i < j < s.len() ==> !bytes_lt(str_bytes(#[trigger] s[j].0), str_bytes(#[trigger] s[i].0))
}

/// No text orders before itself.
pub proof fn lemma_bytes_lt_irreflexive(a: Seq<u8>)
    ensures
        !bytes_lt(a, a),
    decreases a.len(),
{
    if a.len() > 0 {
        lemma_bytes_lt_irreflexive(a.drop_first());
    }
}

/// The byte-wise order is transitive.
pub proof fn lemma_bytes_lt_transitive(a: Seq<u8>, b: Seq<u8>, c: Seq<u8>)
    requires
        bytes_lt(a, b),
        bytes_lt(b, c),
    ensures
        bytes_lt(a, c),
    decreases a.len(),
{
    if a.len() > 0 && b.len() > 0 && c.len() > 0 && a[0] == b[0] && b[0] == c[0] {
        lemma_bytes_lt_transitive(a.drop_first(), b.drop_first(), c.drop_first());
    }
}

/// Inserting by key puts the parameter at some position of the list.
pub proof fn lemma_insert_position(s: Seq<(Seq<char>, Seq<char>)>, p: (Seq<char>, Seq<char>)) -> (j: int)
    ensures
        0 <= j <= s.len(),
        insert_by_key(s, p) == s.insert(j, p),
    decreases s.len(),
{
    if s.len() == 0 {
        assert(insert_by_key(s, p) =~= s.insert(0, p));
        0
    } else if bytes_lt(str_bytes(p.0), str_bytes(s[0].0)) {
        assert(insert_by_key(s, p) =~= s.insert(0, p));
        0
    } else {
        let j = lemma_insert_position(s.drop_first(), p);
        assert(insert_by_key(s, p) =~= s.insert(j + 1, p));
        j + 1
    }
}

/// Inserting by key into parameters sorted by key leaves them sorted.
pub proof fn lemma_insert_sorted(s: Seq<(Seq<char>, Seq<char>)>, p: (Seq<char>, Seq<char>))
    requires
        keys_sorted(s),
    ensures
        keys_sorted(insert_by_key(s, p)),
    decreases s.len(),
{
    let r = insert_by_key(s, p);
    if s.len() == 0 {
    } else if bytes_lt(str_bytes(p.0), str_bytes(s[0].0)) {
        assert(r == seq![p] + s);
        assert forall|i: int, j: int| 0 <= i < j < r.len() implies !bytes_lt(
            str_bytes(#[trigger] r[j].0),
            str_bytes(#[trigger] r[i].0),
        ) by {
            if i == 0 {
                assert(r[j] == s[j - 1]);
                if bytes_lt(str_bytes(s[j - 1].0), str_bytes(p.0)) {
                    lemma_bytes_lt_transitive(str_bytes(s[j - 1].0), str_bytes(p.0), str_bytes(s[0].0));
                    if j - 1 == 0 {
                        lemma_bytes_lt_irreflexive(str_bytes(s[0].0));
                    }
                }
            } else {
                assert(r[i] == s[i - 1]);
                assert(r[j] == s[j - 1]);
            }
        }
    } else {
        let rest = s.drop_first();
        assert forall|i: int, j: int| 0 <= i < j < rest.len() implies !bytes_lt(
            str_bytes(#[trigger] rest[j].0),
            str_bytes(#[trigger] rest[i].0),
        ) by {
            assert(rest[i] == s[i + 1]);
            assert(rest[j] == s[j + 1]);
        }
        lemma_insert_sorted(rest, p);
        let t = insert_by_key(rest, p);
        let k = lemma_insert_position(rest, p);
        assert(r == seq![s[0]] + t);
        assert forall|i: int, j: int| 0 <= i < j < r.len() implies !bytes_lt(
            str_bytes(#[trigger] r[j].0),
            str_bytes(#[trigger] r[i].0),
        ) by {
            if i == 0 {
                assert(r[j] == t[j - 1]);
                if j - 1 == k {
                    assert(t[j - 1] == p);
                } else if j - 1 < k {
                    assert(t[j - 1] == rest[j - 1]);
                    assert(rest[j - 1] == s[j]);
                } else {
                    assert(t[j - 1] == rest[j - 2]);
                    assert(rest[j - 2] == s[j - 1]);
                }
            } else {
                assert(r[i] == t[i - 1]);
                assert(r[j] == t[j - 1]);
            }
        }
    }
}

/// Law: the parameters are signed in ascending order of their keys, and the
/// sort neither loses nor adds a parameter.
pub proof fn lemma_sorted_by_key(s: Seq<(Seq<char>, Seq<char>)>)
    ensures
        keys_sorted(sorted_by_key(s)),
        sorted_by_key(s).to_multiset() == s.to_multiset(),
    decreases s.len(),
{
    if s.len() > 0 {
        let d = s.drop_last();
        lemma_sorted_by_key(d);
        lemma_insert_sorted(sorted_by_key(d), s.last());
        let j = lemma_insert_position(sorted_by_key(d), s.last());
        vstd::seq_lib::to_multiset_insert(sorted_by_key(d), j, s.last());
        vstd::seq_lib::to_multiset_build(d, s.last());
        assert(d.push(s.last()) == s);
    } else {
        assert(sorted_by_key(s) =~= s);
    }
}

/// `key=value`, as bytes.
pub open spec fn param_bytes(p: (Seq<char>, Seq<char>)) -> Seq<u8> {
    str_bytes(p.0) + seq![61u8] + str_bytes(p.1)
}

/// The parameters as `key=value` joined by `&`, as bytes.
pub open spec fn query_bytes(ps: Seq<(Seq<char>, Seq<char>)>) -> Seq<u8>
    decreases ps.len(),
{
    if ps.len() == 0 {
        seq![]
    } else if ps.len() == 1 {
        param_bytes(ps[0])
    } else {
        query_bytes(ps.drop_last()) + seq![38u8] + param_bytes(ps.last())
    }
}

/// True when `a` orders before `b`, byte by byte.
fn str_less(a: &str, b: &str) -> (r: bool)
    ensures
        r == bytes_lt(str_bytes(a@), str_bytes(b@)),
{
    let x = a.as_bytes();
    let y = b.as_bytes();
    let mut i: usize = 0;
    assert(x@.skip(0) == x@);
    assert(y@.skip(0) == y@);
    while i < x.len() && i < y.len()
        invariant
            0 <= i <= x@.len(),
            i <= y@.len(),
            x@ == str_bytes(a@),
            y@ == str_bytes(b@),
            x@.take(i as int) == y@.take(i as int),
            bytes_lt(x@, y@) == bytes_lt(x@.skip(i as int), y@.skip(i as int)),
        decreases x@.len() - i,
    {
        if x[i] != y[i] {
            return x[i] < y[i];
        }
        assert(x@.skip(i as int).drop_first() == x@.skip(i + 1));
        assert(y@.skip(i as int).drop_first() == y@.skip(i + 1));
        assert(x@.take(i + 1) == x@.take(i as int).push(x@[i as int]));
        assert(y@.take(i + 1) == y@.take(i as int).push(y@[i as int]));
        i = i + 1;
    }
    i < y.len()
}

/// Inserts `p` into `v` before the first parameter whose key orders after its key.
fn insert_param<'a>(v: &mut Vec<(&'a str, String)>, p: (&'a str, String))
    ensures
        params_view(final(v)@) == insert_by_key(params_view(old(v)@), (p.0@, p.1@)),
{
    let ghost pv = (p.0@, p.1@);
    let ghost s = params_view(v@);
    let n = v.len();
    let mut j: usize = 0;
    assert(s.take(0) + s.skip(0) =~= s);
    assert(s.skip(0) == s);
    assert(s.take(0) + insert_by_key(s, pv) =~= insert_by_key(s, pv));
    while j < n
        invariant
            0 <= j <= n,
            n == v@.len(),
            s == params_view(v@),
            pv == (p.0@, p.1@),
            insert_by_key(s, pv) == s.take(j as int) + insert_by_key(s.skip(j as int), pv),
        ensures
            0 <= j <= n,
            insert_by_key(s, pv) == s.take(j as int) + insert_by_key(s.skip(j as int), pv),
            j < n ==> bytes_lt(str_bytes(pv.0), str_bytes(s[j as int].0)),
        decreases n - j,
    {
        let less = str_less(p.0, v[j].0);
        proof {
            assert(s[j as int] == (v@[j as int].0@, v@[j as int].1@));
        }
        if less {
            break;
        }
        proof {
            let t = s.skip(j as int);
            assert(t.len() > 0);
            assert(t[0] == s[j as int]);
            assert(t.drop_first() == s.skip(j + 1));
            assert(s.take(j + 1) == s.take(j as int).push(s[j as int]));
            assert(insert_by_key(t, pv) == seq![t[0]] + insert_by_key(t.drop_first(), pv));
            assert(s.take(j as int) + insert_by_key(t, pv) =~= s.take(j + 1) + insert_by_key(
                s.skip(j + 1),
                pv,
            ));
        }
        j = j + 1;
    }
    let ghost t = s.skip(j as int);
    assert(insert_by_key(t, pv) == seq![pv] + t);
    v.insert(j, p);
    assert(params_view(v@) =~= s.take(j as int) + (seq![pv] + t));
}

/// The parameters sorted by key, stably.
pub fn sort_params<'a>(params: Vec<(&'a str, String)>) -> (sorted: Vec<(&'a str, String)>)
    ensures
        params_view(sorted@) == sorted_by_key(params_view(params@)),
{
    let ghost s = params_view(params@);
    let mut out: Vec<(&'a str, String)> = Vec::new();
    let mut rest = params;
    let ghost total = rest@;
    let mut taken: usize = 0;
    let n = rest.len();
    let mut rev: Vec<(&'a str, String)> = Vec::new();
    while rest.len() > 0
        invariant
            rest@.len() + rev@.len() == n,
            total == rest@ + rev@.reverse(),
            s == params_view(total),
            n == total.len(),
        decreases rest@.len(),
    {
        let p = rest.pop().unwrap();
        proof {
            assert(rest@.push(p) + rev@.reverse() =~= rest@ + rev@.push(p).reverse());
        }
        rev.push(p);
    }
    assert(rev@.reverse() =~= total);
    while rev.len() > 0
        invariant
            taken + rev@.len() == n,
            0 <= taken <= n,
            total == rev@.reverse().take(0) + total,
            total.take(taken as int) + rev@.reverse() == total,
            s == params_view(total),
            n == total.len(),
            params_view(out@) == sorted_by_key(s.take(taken as int)),
        decreases rev@.len(),
    {
        let p = rev.pop().unwrap();
        proof {
            assert(total.take(taken as int).push(p) + rev@.reverse() =~= total.take(taken as int)
                + rev@.push(p).reverse());
            assert(total.take(taken + 1) =~= total.take(taken as int).push(p));
            assert(s.take(taken + 1).drop_last() =~= s.take(taken as int));
            assert(s.take(taken + 1).last() == (p.0@, p.1@));
        }
        insert_param(&mut out, p);
        taken = taken + 1;
    }
    assert(s.take(n as int) =~= s);
    out
}

/// The parameters as `key=value` joined by `&`, in the order given.
pub fn query_string_bytes<'a>(params: &Vec<(&'a str, String)>) -> (q: Vec<u8>)
    ensures
        q@ == query_bytes(params_view(params@)),
{
    let ghost s = params_view(params@);
    let mut q: Vec<u8> = Vec::new();
    let n = params.len();
    let mut i: usize = 0;
    while i < n
        invariant
            0 <= i <= n,
            n == params@.len(),
            s == params_view(params@),
            q@ == query_bytes(s.take(i as int)),
        decreases n - i,
    {
        let ghost pre = q@;
        if i > 0 {
            q.push(38u8);
        }
        push_str(&mut q, params[i].0);
        q.push(61u8);
        push_str(&mut q, params[i].1.as_str());
        proof {
            let t = s.take(i + 1);
            assert(t.drop_last() =~= s.take(i as int));
            assert(t.last() == s[i as int]);
            if i == 0 {
                assert(q@ =~= param_bytes(t[0]));
            } else {
                assert(q@ =~= query_bytes(t.drop_last()) + seq![38u8] + param_bytes(t.last()));
            }
        }
        i = i + 1;
    }
    assert(s.take(n as int) =~= s);
    q
}

} // verus!
