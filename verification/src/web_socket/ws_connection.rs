//! The bookkeeping of a pool of websocket connections that share the
//! subscriptions of a market: which pair is subscribed on which connection,
//! which connections are open, where the next pairs go, and the settings the
//! pool connects and writes with.
//!
//! A pool has `MAX_CONN_COUNT` connection slots. Each subscribed pair is on
//! exactly one slot; new pairs fill the first slot that has some pairs and
//! room for more, else the first empty slot.
use vstd::prelude::*;

use vstd::multiset::Multiset;

use crate::clock::{instant_now, millis_since, utc_now_millis};
use crate::text::{signed_decimal_string, signed_decimal_text, str_bytes, str_equal};

verus! {

/// The number of connection slots of a pool.
pub const MAX_CONN_COUNT: usize = 30;

/// Why a connection of the pool cannot be opened.
#[derive(Debug, Clone, Copy, PartialEq, Eq, Structural)]
pub enum WsPoolError {
    /// The pool has not been started (or has been closed).
    NotInitialized,
    /// The address does not parse as a URL.
    InvalidUrl,
    /// The address names no host.
    MissingHost,
}

/// No pair is listed twice.
pub open spec fn keys_distinct(s: Seq<(Seq<char>, u8)>) -> bool {
    forall|i: int, j: int| 0 <= i < j < s.len() ==> #[trigger] s[i].0 != #[trigger] s[j].0
}

/// Every listed slot is one of the pool's.
pub open spec fn slots_in_range(s: Seq<(Seq<char>, u8)>) -> bool {
    forall|i: int| 0 <= i < s.len() ==> (#[trigger] s[i]).1 < MAX_CONN_COUNT
}

/// `k` is listed.
pub open spec fn has_key(s: Seq<(Seq<char>, u8)>, k: Seq<char>) -> bool {
    exists|i: int| 0 <= i < s.len() && #[trigger] s[i].0 == k
}

/// The position of `k` in the list, when listed.
pub open spec fn index_of(s: Seq<(Seq<char>, u8)>, k: Seq<char>) -> int {
    choose|i: int| 0 <= i < s.len() && #[trigger] s[i].0 == k
}

/// The slot of `k`, when listed.
pub open spec fn lookup(s: Seq<(Seq<char>, u8)>, k: Seq<char>) -> Option<u8> {
    if has_key(s, k) {
        Some(s[index_of(s, k)].1)
    } else {
        None
    }
}

/// The list after `k` is put on slot `idx`: in place when listed, else at the end.
pub open spec fn record(s: Seq<(Seq<char>, u8)>, k: Seq<char>, idx: u8) -> Seq<(Seq<char>, u8)> {
    if has_key(s, k) {
        s.update(index_of(s, k), (k, idx))
    } else {
        s.push((k, idx))
    }
}

/// The list after each of `ks`, in turn, is put on slot `idx`.
pub open spec fn record_all(s: Seq<(Seq<char>, u8)>, ks: Seq<Seq<char>>, idx: u8) -> Seq<(Seq<char>, u8)>
    decreases ks.len(),
{
    if ks.len() == 0 {
        s
    } else {
        record(record_all(s, ks.drop_last(), idx), ks.last(), idx)
    }
}

/// The list without `k`.
pub open spec fn erase(s: Seq<(Seq<char>, u8)>, k: Seq<char>) -> Seq<(Seq<char>, u8)> {
    if has_key(s, k) {
        s.remove(index_of(s, k))
    } else {
        s
    }
}

/// The pairs on slot `idx`, in list order.
pub open spec fn conn_pairs(s: Seq<(Seq<char>, u8)>, idx: u8) -> Seq<Seq<char>>
    decreases s.len(),
{
    if s.len() == 0 {
        seq![]
    } else if s.last().1 == idx {
        conn_pairs(s.drop_last(), idx).push(s.last().0)
    } else {
        conn_pairs(s.drop_last(), idx)
    }
}

/// The list without the pairs on slot `idx`.
pub open spec fn without_conn(s: Seq<(Seq<char>, u8)>, idx: u8) -> Seq<(Seq<char>, u8)>
    decreases s.len(),
{
    if s.len() == 0 {
        seq![]
    } else if s.last().1 == idx {
        without_conn(s.drop_last(), idx)
    } else {
        without_conn(s.drop_last(), idx).push(s.last())
    }
}

/// The number of pairs on slot `i`.
pub open spec fn conn_count(s: Seq<(Seq<char>, u8)>, i: int) -> nat {
    conn_pairs(s, i as u8).len()
}

/// Slot `i` has pairs and room for more.
pub open spec fn is_partial(s: Seq<(Seq<char>, u8)>, max: u8, i: int) -> bool {
    0 < conn_count(s, i) < max
}

/// Some slot has pairs and room for more.
pub open spec fn some_partial(s: Seq<(Seq<char>, u8)>, max: u8) -> bool {
    exists|i: int| 0 <= i < MAX_CONN_COUNT && #[trigger] is_partial(s, max, i)
}

/// Some slot has no pair.
pub open spec fn some_empty(s: Seq<(Seq<char>, u8)>) -> bool {
    exists|i: int| 0 <= i < MAX_CONN_COUNT && #[trigger] conn_count(s, i) == 0
}

/// Where the next pairs go, and how many more that slot takes: the first slot
/// that has pairs and room for more; else the first slot without pairs, or
/// `MAX_CONN_COUNT` when every slot has pairs, with a whole slot's room.
pub open spec fn next_slot(s: Seq<(Seq<char>, u8)>, max: u8) -> (int, int) {
    if some_partial(s, max) {
        let i = choose|i: int|
            0 <= i < MAX_CONN_COUNT && is_partial(s, max, i) && forall|j: int|
                0 <= j < i ==> !#[trigger] is_partial(s, max, j);
        (i, max - conn_count(s, i))
    } else if some_empty(s) {
        let i = choose|i: int|
            0 <= i < MAX_CONN_COUNT && conn_count(s, i) == 0 && forall|j: int|
                0 <= j < i ==> #[trigger] conn_count(s, j) != 0;
        (i, max as int)
    } else {
        (MAX_CONN_COUNT as int, max as int)
    }
}

/// The texts of pairs.
pub open spec fn texts(v: Seq<String>) -> Seq<Seq<char>> {
    v.map_values(|s: String| s@)
}

/// The list of pairs and slots of a vector.
pub open spec fn entries_view(v: Seq<(String, u8)>) -> Seq<(Seq<char>, u8)> {
    v.map_values(|e: (String, u8)| (e.0@, e.1))
}

/// The headers as texts.
pub open spec fn headers_view(v: Seq<(String, String)>) -> Seq<(Seq<char>, Seq<char>)> {
    v.map_values(|e: (String, String)| (e.0@, e.1@))
}

/// With no pair listed twice, the pair at `i` is the one `index_of` finds.
pub proof fn lemma_index_of(s: Seq<(Seq<char>, u8)>, k: Seq<char>, i: int)
    requires
        keys_distinct(s),
        0 <= i < s.len(),
        s[i].0 == k,
    ensures
        has_key(s, k),
        index_of(s, k) == i,
        lookup(s, k) == Some(s[i].1),
{
    assert(has_key(s, k));
    let j = index_of(s, k);
    if j != i {
        if j < i {
            assert(s[j].0 != s[i].0);
        } else {
            assert(s[i].0 != s[j].0);
        }
    }
}

/// Law: putting a pair on a slot keeps each pair on one slot; the pair is
/// then on that slot, and every other pair stays where it was.
pub proof fn lemma_record(s: Seq<(Seq<char>, u8)>, k: Seq<char>, idx: u8)
    requires
        keys_distinct(s),
        slots_in_range(s),
        idx < MAX_CONN_COUNT,
    ensures
        keys_distinct(record(s, k, idx)),
        slots_in_range(record(s, k, idx)),
        lookup(record(s, k, idx), k) == Some(idx),
        forall|k2: Seq<char>| k2 != k ==> lookup(record(s, k, idx), k2) == lookup(s, k2),
{
    let r = record(s, k, idx);
    if has_key(s, k) {
        let j = index_of(s, k);
        assert(r.len() == s.len());
        assert forall|a: int, b: int| 0 <= a < b < r.len() implies #[trigger] r[a].0 != #[trigger] r[b].0 by {
            assert(s[a].0 != s[b].0);
        }
        lemma_index_of(r, k, j);
        assert forall|k2: Seq<char>| k2 != k implies lookup(r, k2) == lookup(s, k2) by {
            if has_key(s, k2) {
                let j2 = index_of(s, k2);
                assert(j2 != j);
                assert(r[j2] == s[j2]);
                lemma_index_of(r, k2, j2);
            } else {
                assert forall|t: int| 0 <= t < r.len() implies r[t].0 != k2 by {
                    if t != j {
                        assert(r[t] == s[t]);
                    }
                }
            }
        }
    } else {
        assert forall|a: int, b: int| 0 <= a < b < r.len() implies #[trigger] r[a].0 != #[trigger] r[b].0 by {
            if b == s.len() {
                assert(r[a] == s[a]);
            } else {
                assert(s[a].0 != s[b].0);
            }
        }
        lemma_index_of(r, k, s.len() as int);
        assert forall|k2: Seq<char>| k2 != k implies lookup(r, k2) == lookup(s, k2) by {
            if has_key(s, k2) {
                let j2 = index_of(s, k2);
                assert(r[j2] == s[j2]);
                lemma_index_of(r, k2, j2);
            } else {
                assert forall|t: int| 0 <= t < r.len() implies r[t].0 != k2 by {
                    if t < s.len() {
                        assert(r[t] == s[t]);
                    }
                }
            }
        }
    }
}

/// Law: removing a pair keeps each pair on one slot; the pair is then no
/// more subscribed, and every other pair stays where it was.
pub proof fn lemma_erase(s: Seq<(Seq<char>, u8)>, k: Seq<char>)
    requires
        keys_distinct(s),
        slots_in_range(s),
    ensures
        keys_distinct(erase(s, k)),
        slots_in_range(erase(s, k)),
        lookup(erase(s, k), k) is None,
        forall|k2: Seq<char>| k2 != k ==> lookup(erase(s, k), k2) == lookup(s, k2),
{
    let r = erase(s, k);
    if has_key(s, k) {
        let j = index_of(s, k);
        assert forall|a: int, b: int| 0 <= a < b < r.len() implies #[trigger] r[a].0 != #[trigger] r[b].0 by {
            let a2 = if a < j { a } else { a + 1 };
            let b2 = if b < j { b } else { b + 1 };
            assert(r[a] == s[a2]);
            assert(r[b] == s[b2]);
            assert(s[a2].0 != s[b2].0);
        }
        assert forall|t: int| 0 <= t < r.len() implies (#[trigger] r[t]).1 < MAX_CONN_COUNT by {
            let t2 = if t < j { t } else { t + 1 };
            assert(r[t] == s[t2]);
        }
        assert forall|t: int| 0 <= t < r.len() implies r[t].0 != k by {
            let t2 = if t < j { t } else { t + 1 };
            assert(r[t] == s[t2]);
            assert(s[t2].0 != s[j].0);
        }
        assert forall|k2: Seq<char>| k2 != k implies lookup(r, k2) == lookup(s, k2) by {
            if has_key(s, k2) {
                let j2 = index_of(s, k2);
                assert(j2 != j);
                let t = if j2 < j { j2 } else { j2 - 1 };
                assert(r[t] == s[j2]);
                lemma_index_of(r, k2, t);
            } else {
                assert forall|t: int| 0 <= t < r.len() implies r[t].0 != k2 by {
                    let t2 = if t < j { t } else { t + 1 };
                    assert(r[t] == s[t2]);
                }
            }
        }
    }
}

/// Law: emptying a slot keeps each pair on one slot; no pair is left on it,
/// the pairs left were there before, and every other slot keeps its pairs.
pub proof fn lemma_without_conn(s: Seq<(Seq<char>, u8)>, idx: u8)
    requires
        keys_distinct(s),
        slots_in_range(s),
    ensures
        keys_distinct(without_conn(s, idx)),
        slots_in_range(without_conn(s, idx)),
        forall|t: int| 0 <= t < without_conn(s, idx).len() ==> (#[trigger] without_conn(s, idx)[t]).1 != idx,
        forall|t: int| 0 <= t < without_conn(s, idx).len() ==> s.contains(#[trigger] without_conn(s, idx)[t]),
        conn_pairs(without_conn(s, idx), idx).len() == 0,
        forall|i: u8| i != idx ==> conn_pairs(#[trigger] without_conn(s, idx), i) == conn_pairs(s, i),
    decreases s.len(),
{
    if s.len() > 0 {
        let d = s.drop_last();
        assert forall|a: int, b: int| 0 <= a < b < d.len() implies #[trigger] d[a].0 != #[trigger] d[b].0 by {
            assert(s[a].0 != s[b].0);
        }
        assert forall|t: int| 0 <= t < d.len() implies (#[trigger] d[t]).1 < MAX_CONN_COUNT by {
            assert(d[t] == s[t]);
        }
        lemma_without_conn(d, idx);
        let w = without_conn(d, idx);
        let e = s.last();
        if e.1 != idx {
            let r = w.push(e);
            assert forall|t: int| 0 <= t < w.len() implies w[t].0 != e.0 by {
                assert(d.contains(w[t]));
                let u = choose|u: int| 0 <= u < d.len() && d[u] == w[t];
                assert(s[u].0 != s[s.len() - 1].0);
            }
            assert forall|a: int, b: int| 0 <= a < b < r.len() implies #[trigger] r[a].0 != #[trigger] r[b].0 by {
                if b == w.len() {
                    assert(r[a] == w[a]);
                } else {
                    assert(w[a].0 != w[b].0);
                }
            }
            assert forall|t: int| 0 <= t < r.len() implies s.contains(#[trigger] r[t]) by {
                if t == w.len() {
                    assert(s[s.len() - 1] == e);
                } else {
                    assert(d.contains(w[t]));
                    let u = choose|u: int| 0 <= u < d.len() && d[u] == w[t];
                    assert(s[u] == w[t]);
                }
            }
            assert(r.drop_last() == w);
            assert forall|i: u8| i != idx implies conn_pairs(#[trigger] without_conn(s, idx), i) == conn_pairs(s, i) by {
                assert(conn_pairs(w, i) == conn_pairs(d, i));
            }
        } else {
            assert forall|t: int| 0 <= t < w.len() implies s.contains(#[trigger] w[t]) by {
                assert(d.contains(w[t]));
                let u = choose|u: int| 0 <= u < d.len() && d[u] == w[t];
                assert(s[u] == w[t]);
            }
            assert forall|i: u8| i != idx implies conn_pairs(#[trigger] without_conn(s, idx), i) == conn_pairs(s, i) by {
                assert(conn_pairs(w, i) == conn_pairs(d, i));
            }
        }
    }
}

/// The open slots among the first `n`, in increasing order.
pub open spec fn open_indices(st: Seq<bool>, n: int) -> Seq<u8>
    decreases n,
{
    if n <= 0 {
        seq![]
    } else if st[n - 1] {
        open_indices(st, n - 1).push((n - 1) as u8)
    } else {
        open_indices(st, n - 1)
    }
}

/// For each slot, whether some subscribed pair is on it.
pub open spec fn used_slots(s: Seq<(Seq<char>, u8)>) -> Seq<bool> {
    Seq::new(MAX_CONN_COUNT as nat, |k: int| exists|m: int| 0 <= m < s.len() && #[trigger] s[m].1 == k)
}

/// The pairs of `ks` that are not subscribed, in order.
pub open spec fn unsubscribed(s: Seq<(Seq<char>, u8)>, ks: Seq<Seq<char>>) -> Seq<Seq<char>>
    decreases ks.len(),
{
    if ks.len() == 0 {
        seq![]
    } else if has_key(s, ks.last()) {
        unsubscribed(s, ks.drop_last())
    } else {
        unsubscribed(s, ks.drop_last()).push(ks.last())
    }
}

/// How many pending pairs go in the next batch: no more than the slot takes,
/// no more than `max_count` when given, and no more than are pending.
pub open spec fn batch_size(remaining: int, max_count: Option<u16>, pending: int) -> int {
    let a = match max_count {
        Some(m) => if (m as int) < remaining { m as int } else { remaining },
        None => remaining,
    };
    if pending < a { pending } else { a }
}

/// The list after each of `ks`, in turn, is removed.
pub open spec fn erase_all(s: Seq<(Seq<char>, u8)>, ks: Seq<Seq<char>>) -> Seq<(Seq<char>, u8)>
    decreases ks.len(),
{
    if ks.len() == 0 {
        s
    } else {
        erase(erase_all(s, ks.drop_last()), ks.last())
    }
}

/// The pairs of `ks`, in order, that were on slot `i` when removed in turn.
pub open spec fn taken_from(s: Seq<(Seq<char>, u8)>, ks: Seq<Seq<char>>, i: u8) -> Seq<Seq<char>>
    decreases ks.len(),
{
    if ks.len() == 0 {
        seq![]
    } else if lookup(erase_all(s, ks.drop_last()), ks.last()) == Some(i) {
        taken_from(s, ks.drop_last(), i).push(ks.last())
    } else {
        taken_from(s, ks.drop_last(), i)
    }
}

/// The texts of groups of pairs.
pub open spec fn groups_view(v: Seq<Vec<String>>) -> Seq<Seq<Seq<char>>> {
    v.map_values(|g: Vec<String>| texts(g@))
}

/// `s` cut, from the front, into pieces of `n` (the last may be shorter).
pub open spec fn chunks<A>(s: Seq<A>, n: int) -> Seq<Seq<A>>
    decreases s.len(),
{
    if s.len() == 0 || n <= 0 {
        seq![]
    } else if s.len() <= n {
        seq![s]
    } else {
        seq![s.take(n)] + chunks(s.skip(n), n)
    }
}

/// The items of `s` whose position is `j` modulo `count`, in order.
pub open spec fn bucket<A>(s: Seq<A>, count: int, j: int) -> Seq<A>
    decreases s.len(),
{
    if s.len() == 0 {
        seq![]
    } else if (s.len() - 1) % count == j {
        bucket(s.drop_last(), count, j).push(s.last())
    } else {
        bucket(s.drop_last(), count, j)
    }
}

/// `s` dealt round-robin into `count` groups, empty groups left out: the
/// first `min(len, count)` groups.
pub open spec fn dealt<A>(s: Seq<A>, count: int) -> Seq<Seq<A>> {
    let k = if s.len() < count { s.len() as int } else { count };
    Seq::new(k as nat, |j: int| bucket(s, count, j))
}

/// Where the next pairs go, when the slot with pairs and room comes first.
pub proof fn lemma_next_slot_partial(s: Seq<(Seq<char>, u8)>, max: u8, i: int)
    requires
        0 <= i < MAX_CONN_COUNT,
        is_partial(s, max, i),
        forall|j: int| 0 <= j < i ==> !#[trigger] is_partial(s, max, j),
    ensures
        next_slot(s, max) == (i, max - conn_count(s, i)),
{
    assert(some_partial(s, max));
    let i2 = choose|i2: int|
        0 <= i2 < MAX_CONN_COUNT && is_partial(s, max, i2) && forall|j: int|
            0 <= j < i2 ==> !#[trigger] is_partial(s, max, j);
    assert(0 <= i2 < MAX_CONN_COUNT && is_partial(s, max, i2) && forall|j: int|
        0 <= j < i2 ==> !#[trigger] is_partial(s, max, j));
    if i2 < i {
        assert(!is_partial(s, max, i2));
    } else if i2 > i {
        assert(!is_partial(s, max, i));
    }
}

/// Where the next pairs go, when no slot has pairs and room, and an empty
/// slot comes first.
pub proof fn lemma_next_slot_empty(s: Seq<(Seq<char>, u8)>, max: u8, i: int)
    requires
        0 <= i < MAX_CONN_COUNT,
        forall|j: int| 0 <= j < MAX_CONN_COUNT ==> !#[trigger] is_partial(s, max, j),
        conn_count(s, i) == 0,
        forall|j: int| 0 <= j < i ==> #[trigger] conn_count(s, j) != 0,
    ensures
        next_slot(s, max) == (i, max as int),
{
    assert(some_empty(s));
    let i2 = choose|i2: int|
        0 <= i2 < MAX_CONN_COUNT && conn_count(s, i2) == 0 && forall|j: int|
            0 <= j < i2 ==> #[trigger] conn_count(s, j) != 0;
    assert(0 <= i2 < MAX_CONN_COUNT && conn_count(s, i2) == 0 && forall|j: int|
        0 <= j < i2 ==> #[trigger] conn_count(s, j) != 0);
    if i2 < i {
        assert(conn_count(s, i2) != 0);
    } else if i2 > i {
        assert(conn_count(s, i) != 0);
    }
}

/// The group of position `j` (below `count`) is empty exactly when there
/// are no more than `j` items.
pub proof fn lemma_bucket_nonempty<A>(s: Seq<A>, count: int)
    requires
        count > 0,
    ensures
        forall|j: int| 0 <= j < count ==> (#[trigger] bucket(s, count, j).len() > 0 <==> j < s.len()),
    decreases s.len(),
{
    if s.len() > 0 {
        lemma_bucket_nonempty(s.drop_last(), count);
        assert forall|j: int| 0 <= j < count implies (#[trigger] bucket(s, count, j).len() > 0 <==> j < s.len()) by {
            let m = s.len() - 1;
            let d = s.drop_last();
            assert(bucket(d, count, j).len() > 0 <==> j < d.len());
            if m % count == j {
                assert(bucket(s, count, j) == bucket(d, count, j).push(s.last()));
                assert(j <= m) by (nonlinear_arith)
                    requires
                        m % count == j,
                        m >= 0,
                        count > 0,
                ;
            } else {
                assert(bucket(s, count, j) == bucket(d, count, j));
                if j == m {
                    assert(m % count == m) by (nonlinear_arith)
                        requires
                            0 <= m < count,
                    ;
                }
            }
        }
    }
}

/// Law: cutting into pieces loses nothing and keeps the order; every piece
/// has between one and `n` items.
pub proof fn lemma_chunks_flatten<A>(s: Seq<A>, n: int)
    requires
        n > 0,
    ensures
        chunks(s, n).flatten() == s,
        forall|k: int| 0 <= k < chunks(s, n).len() ==> 0 < (#[trigger] chunks(s, n)[k]).len() <= n,
    decreases s.len(),
{
    if s.len() == 0 {
    } else if s.len() <= n {
        let c = chunks(s, n);
        assert(c.drop_first() =~= Seq::<Seq<A>>::empty());
        assert(c.flatten() == c.first() + c.drop_first().flatten());
        assert(c.flatten() =~= s);
    } else {
        lemma_chunks_flatten(s.skip(n), n);
        let c = chunks(s, n);
        assert(c.drop_first() == chunks(s.skip(n), n));
        assert(c.flatten() == c.first() + c.drop_first().flatten());
        assert(s.take(n) + s.skip(n) =~= s);
        assert forall|k: int| 0 <= k < c.len() implies 0 < (#[trigger] c[k]).len() <= n by {
            if k > 0 {
                assert(c[k] == chunks(s.skip(n), n)[k - 1]);
            }
        }
    }
}

/// Law: cutting into pieces of `n` takes them in order from the front: the
/// `k`-th piece is the items from position `k * n` up to `(k + 1) * n` (or
/// to the end), so every piece but the last holds exactly `n` items, and
/// there are just enough pieces to hold every item.
pub proof fn lemma_chunks_pieces<A>(s: Seq<A>, n: int)
    requires
        n > 0,
    ensures
        forall|k: int|
            0 <= k < chunks(s, n).len() ==> #[trigger] chunks(s, n)[k] == s.subrange(
                k * n,
                if (k + 1) * n <= s.len() {
                    (k + 1) * n
                } else {
                    s.len() as int
                },
            ),
        chunks(s, n).len() * n >= s.len(),
        s.len() > 0 ==> (chunks(s, n).len() - 1) * n < s.len(),
        s.len() == 0 ==> chunks(s, n).len() == 0,
    decreases s.len(),
{
    let c = chunks(s, n);
    if s.len() == 0 {
    } else if s.len() <= n {
        assert(c.len() == 1);
        assert(c[0] == s);
        assert(s.subrange(0, s.len() as int) =~= s);
        assert(1 * n == n) by (nonlinear_arith);
        assert((c.len() - 1) * n == 0) by (nonlinear_arith)
            requires
                c.len() == 1,
        ;
        assert forall|k: int| 0 <= k < c.len() implies #[trigger] c[k] == s.subrange(
            k * n,
            if (k + 1) * n <= s.len() {
                (k + 1) * n
            } else {
                s.len() as int
            },
        ) by {
            assert(k == 0);
            assert(0 * n == 0) by (nonlinear_arith);
            assert((0 + 1) * n == n) by (nonlinear_arith);
        }
    } else {
        let t = s.skip(n);
        lemma_chunks_pieces(t, n);
        let ct = chunks(t, n);
        assert(c == seq![s.take(n)] + ct);
        assert(c.len() == ct.len() + 1);
        assert forall|k: int| 0 <= k < c.len() implies #[trigger] c[k] == s.subrange(
            k * n,
            if (k + 1) * n <= s.len() {
                (k + 1) * n
            } else {
                s.len() as int
            },
        ) by {
            if k == 0 {
                assert(0 * n == 0) by (nonlinear_arith);
                assert((0 + 1) * n == n) by (nonlinear_arith);
                assert(s.take(n) =~= s.subrange(0, n));
            } else {
                assert(c[k] == ct[k - 1]);
                assert((k - 1) * n + n == k * n) by (nonlinear_arith);
                assert(k * n + n == (k + 1) * n) by (nonlinear_arith);
                let e = if k * n <= t.len() {
                    k * n
                } else {
                    t.len() as int
                };
                assert(ct[k - 1] == t.subrange((k - 1) * n, e));
                assert((k - 1) * n >= 0) by (nonlinear_arith)
                    requires
                        k >= 1,
                        n > 0,
                ;
                assert((k - 1) * n <= (ct.len() - 1) * n) by (nonlinear_arith)
                    requires
                        k - 1 <= ct.len() - 1,
                        n > 0,
                ;
                assert((k - 1) * n <= e);
                assert(t.subrange((k - 1) * n, e) =~= s.subrange((k - 1) * n + n, e + n));
            }
        }
        assert(c.len() * n == ct.len() * n + n) by (nonlinear_arith)
            requires
                c.len() == ct.len() + 1,
        ;
        assert((c.len() - 1) * n == ct.len() * n) by (nonlinear_arith)
            requires
                c.len() == ct.len() + 1,
        ;
        assert(ct.len() * n == (ct.len() - 1) * n + n) by (nonlinear_arith);
    }
}

/// Law: a batch never overfills the slot it goes to: the pairs already on
/// the slot and the batch together are no more than the slot takes.
pub proof fn lemma_batch_fits(s: Seq<(Seq<char>, u8)>, max: u8, max_count: Option<u16>, pending: int)
    requires
        0 <= next_slot(s, max).0 < MAX_CONN_COUNT,
        pending >= 0,
    ensures
        conn_count(s, next_slot(s, max).0) + batch_size(next_slot(s, max).1, max_count, pending) <= max,
{
    if some_partial(s, max) {
        let i = choose|i: int|
            0 <= i < MAX_CONN_COUNT && is_partial(s, max, i) && forall|j: int|
                0 <= j < i ==> !#[trigger] is_partial(s, max, j);
        let w = choose|w: int| 0 <= w < MAX_CONN_COUNT && #[trigger] is_partial(s, max, w);
        if !(0 <= i < MAX_CONN_COUNT && is_partial(s, max, i) && forall|j: int|
            0 <= j < i ==> !#[trigger] is_partial(s, max, j)) {
            lemma_first_partial(s, max, w);
        }
    } else if some_empty(s) {
        let i = choose|i: int|
            0 <= i < MAX_CONN_COUNT && conn_count(s, i) == 0 && forall|j: int|
                0 <= j < i ==> #[trigger] conn_count(s, j) != 0;
        let w = choose|w: int| 0 <= w < MAX_CONN_COUNT && #[trigger] conn_count(s, w) == 0;
        if !(0 <= i < MAX_CONN_COUNT && conn_count(s, i) == 0 && forall|j: int|
            0 <= j < i ==> #[trigger] conn_count(s, j) != 0) {
            lemma_first_empty(s, w);
        }
    }
}

/// Putting one pair at the end adds it to its slot's count only.
proof fn lemma_count_push(s: Seq<(Seq<char>, u8)>, e: (Seq<char>, u8), t: int)
    ensures
        conn_count(s.push(e), t) == conn_count(s, t) + (if e.1 == t as u8 { 1int } else { 0int }),
{
    assert(s.push(e).drop_last() == s);
}

/// Replacing one entry adds at most one to the count of the new entry's
/// slot and to no other slot.
proof fn lemma_count_update(s: Seq<(Seq<char>, u8)>, j: int, e: (Seq<char>, u8), t: int)
    requires
        0 <= j < s.len(),
    ensures
        conn_count(s.update(j, e), t) <= conn_count(s, t) + (if e.1 == t as u8 { 1int } else { 0int }),
    decreases s.len(),
{
    let u = s.update(j, e);
    if j == s.len() - 1 {
        assert(u.drop_last() == s.drop_last());
        assert(u.last() == e);
    } else {
        lemma_count_update(s.drop_last(), j, e, t);
        assert(u.drop_last() == s.drop_last().update(j, e));
        assert(u.last() == s.last());
    }
}

/// Putting a pair on slot `idx` adds at most one to that slot's count and
/// to no other slot.
proof fn lemma_count_record(s: Seq<(Seq<char>, u8)>, k: Seq<char>, idx: u8, t: int)
    ensures
        conn_count(record(s, k, idx), t) <= conn_count(s, t) + (if idx == t as u8 { 1int } else { 0int }),
{
    if has_key(s, k) {
        let j = index_of(s, k);
        lemma_count_update(s, j, (k, idx), t);
    } else {
        lemma_count_push(s, (k, idx), t);
    }
}

/// Putting pairs on slot `idx` adds at most their number to that slot's
/// count and nothing to any other slot.
proof fn lemma_count_record_all(s: Seq<(Seq<char>, u8)>, ks: Seq<Seq<char>>, idx: u8, t: int)
    ensures
        conn_count(record_all(s, ks, idx), t) <= conn_count(s, t) + (if idx == t as u8 { ks.len() as int } else { 0int }),
    decreases ks.len(),
{
    if ks.len() > 0 {
        lemma_count_record_all(s, ks.drop_last(), idx, t);
        lemma_count_record(record_all(s, ks.drop_last(), idx), ks.last(), idx, t);
    }
}

/// Law: subscribing the next batch where the pool puts it keeps every slot
/// within its capacity, so that batch after batch no slot is overfilled.
pub proof fn lemma_batch_keeps_capacity(
    s: Seq<(Seq<char>, u8)>,
    max: u8,
    max_count: Option<u16>,
    pending: Seq<Seq<char>>,
)
    requires
        0 <= next_slot(s, max).0 < MAX_CONN_COUNT,
        forall|t: int| 0 <= t < MAX_CONN_COUNT ==> #[trigger] conn_count(s, t) <= max,
    ensures
        ({
            let n = batch_size(next_slot(s, max).1, max_count, pending.len() as int);
            let after = record_all(s, pending.take(n), next_slot(s, max).0 as u8);
            forall|t: int| 0 <= t < MAX_CONN_COUNT ==> #[trigger] conn_count(after, t) <= max
        }),
{
    let slot = next_slot(s, max).0;
    let n = batch_size(next_slot(s, max).1, max_count, pending.len() as int);
    lemma_batch_fits(s, max, max_count, pending.len() as int);
    assert(next_slot(s, max).1 >= 0) by {
        if some_partial(s, max) {
            let i = choose|i: int|
                0 <= i < MAX_CONN_COUNT && is_partial(s, max, i) && forall|j: int|
                    0 <= j < i ==> !#[trigger] is_partial(s, max, j);
            let w = choose|w: int| 0 <= w < MAX_CONN_COUNT && #[trigger] is_partial(s, max, w);
            if !(0 <= i < MAX_CONN_COUNT && is_partial(s, max, i) && forall|j: int|
                0 <= j < i ==> !#[trigger] is_partial(s, max, j)) {
                lemma_first_partial(s, max, w);
            }
        }
    }
    assert(0 <= n <= pending.len());
    let ks = pending.take(n);
    let after = record_all(s, ks, slot as u8);
    assert forall|t: int| 0 <= t < MAX_CONN_COUNT implies #[trigger] conn_count(after, t) <= max by {
        lemma_count_record_all(s, ks, slot as u8, t);
        assert(conn_count(s, t) <= max);
        if slot as u8 == t as u8 {
            assert(t == slot);
        }
    }
}

/// Some slot with pairs and room comes first when there is one.
proof fn lemma_first_partial(s: Seq<(Seq<char>, u8)>, max: u8, w: int)
    requires
        0 <= w < MAX_CONN_COUNT,
        is_partial(s, max, w),
    ensures
        exists|i: int|
            0 <= i < MAX_CONN_COUNT && is_partial(s, max, i) && forall|j: int|
                0 <= j < i ==> !#[trigger] is_partial(s, max, j),
    decreases w,
{
    if exists|j: int| 0 <= j < w && #[trigger] is_partial(s, max, j) {
        let j = choose|j: int| 0 <= j < w && #[trigger] is_partial(s, max, j);
        lemma_first_partial(s, max, j);
    } else {
        assert(0 <= w < MAX_CONN_COUNT && is_partial(s, max, w) && forall|j: int|
            0 <= j < w ==> !#[trigger] is_partial(s, max, j));
    }
}

/// Some empty slot comes first when there is one.
proof fn lemma_first_empty(s: Seq<(Seq<char>, u8)>, w: int)
    requires
        0 <= w < MAX_CONN_COUNT,
        conn_count(s, w) == 0,
    ensures
        exists|i: int|
            0 <= i < MAX_CONN_COUNT && conn_count(s, i) == 0 && forall|j: int|
                0 <= j < i ==> #[trigger] conn_count(s, j) != 0,
    decreases w,
{
    if exists|j: int| 0 <= j < w && #[trigger] conn_count(s, j) == 0 {
        let j = choose|j: int| 0 <= j < w && #[trigger] conn_count(s, j) == 0;
        lemma_first_empty(s, j);
    } else {
        assert(0 <= w < MAX_CONN_COUNT && conn_count(s, w) == 0 && forall|j: int|
            0 <= j < w ==> #[trigger] conn_count(s, j) != 0);
    }
}

/// An empty sequence makes an empty multiset.
proof fn lemma_empty_multiset<A>(s: Seq<A>)
    requires
        s.len() == 0,
    ensures
        s.to_multiset() =~= Multiset::<A>::empty(),
{
    broadcast use vstd::seq_lib::group_to_multiset_ensures;
    broadcast use vstd::multiset::group_multiset_axioms;

    assert forall|a: A| s.to_multiset().count(a) == Multiset::<A>::empty().count(a) by {
        assert(!s.contains(a));
    }
}

/// The items of the groups of positions below `k`, together.
pub open spec fn dealt_items<A>(s: Seq<A>, count: int, k: int) -> Multiset<A>
    decreases k,
{
    if k <= 0 {
        Multiset::empty()
    } else {
        dealt_items(s, count, k - 1).add(bucket(s, count, k - 1).to_multiset())
    }
}

/// Dealing one more item adds it to the group of its position.
proof fn lemma_dealt_items_push<A>(s: Seq<A>, count: int, k: int)
    requires
        count > 0,
        s.len() > 0,
        0 <= k <= count,
    ensures
        dealt_items(s, count, k) == (if (s.len() - 1) % count < k {
            dealt_items(s.drop_last(), count, k).insert(s.last())
        } else {
            dealt_items(s.drop_last(), count, k)
        }),
    decreases k,
{
    broadcast use vstd::multiset::group_multiset_axioms;
    broadcast use vstd::seq_lib::to_multiset_build;

    let t = s.drop_last();
    let j0 = (s.len() - 1) % count;
    if k > 0 {
        lemma_dealt_items_push(s, count, k - 1);
        if k - 1 == j0 {
            assert(bucket(s, count, k - 1) == bucket(t, count, k - 1).push(s.last()));
        } else {
            assert(bucket(s, count, k - 1) == bucket(t, count, k - 1));
        }
        assert(dealt_items(s, count, k) =~= (if j0 < k {
            dealt_items(t, count, k).insert(s.last())
        } else {
            dealt_items(t, count, k)
        }));
    } else {
        assert(dealt_items(s, count, k) =~= dealt_items(t, count, k));
    }
}

/// All the groups together hold the items dealt.
proof fn lemma_dealt_items_all<A>(s: Seq<A>, count: int)
    requires
        count > 0,
    ensures
        dealt_items(s, count, count) == s.to_multiset(),
    decreases s.len(),
{
    broadcast use vstd::multiset::group_multiset_axioms;

    if s.len() == 0 {
        assert forall|k: int| 0 <= k <= count implies dealt_items(s, count, k) =~= Multiset::<A>::empty() by {
            lemma_dealt_items_empty(s, count, k);
        }
        lemma_empty_multiset(s);
    } else {
        lemma_dealt_items_all(s.drop_last(), count);
        lemma_dealt_items_push(s, count, count);
        vstd::seq_lib::to_multiset_build(s.drop_last(), s.last());
        assert(s.drop_last().push(s.last()) == s);
        assert((s.len() - 1) % count < count) by (nonlinear_arith)
            requires
                count > 0,
                s.len() > 0,
        ;
    }
}

/// No group holds anything when there is nothing to deal.
proof fn lemma_dealt_items_empty<A>(s: Seq<A>, count: int, k: int)
    requires
        s.len() == 0,
    ensures
        dealt_items(s, count, k) =~= Multiset::<A>::empty(),
    decreases k,
{
    broadcast use vstd::multiset::group_multiset_axioms;

    if k > 0 {
        lemma_dealt_items_empty(s, count, k - 1);
        lemma_empty_multiset(bucket(s, count, k - 1));
    }
}

/// The groups past the last item are empty, so they add nothing.
proof fn lemma_dealt_items_tail<A>(s: Seq<A>, count: int, k: int)
    requires
        count > 0,
        s.len() <= k <= count,
    ensures
        dealt_items(s, count, k) == dealt_items(s, count, s.len() as int),
    decreases k,
{
    broadcast use vstd::multiset::group_multiset_axioms;

    if k > s.len() {
        lemma_dealt_items_tail(s, count, k - 1);
        lemma_bucket_nonempty(s, count);
        assert(bucket(s, count, k - 1).len() == 0);
        lemma_empty_multiset(bucket(s, count, k - 1));
        assert(dealt_items(s, count, k) =~= dealt_items(s, count, k - 1));
    }
}

/// The items of the first `k` groups of `g`, together.
proof fn lemma_flatten_new<A>(s: Seq<A>, count: int, k: int)
    requires
        0 <= k,
    ensures
        Seq::new(k as nat, |j: int| bucket(s, count, j)).flatten().to_multiset() == dealt_items(s, count, k),
    decreases k,
{
    broadcast use vstd::multiset::group_multiset_axioms;
    broadcast use vstd::seq_lib::lemma_multiset_commutative;

    let g = Seq::new(k as nat, |j: int| bucket(s, count, j));
    if k == 0 {
        assert(g.flatten() =~= Seq::<A>::empty());
        lemma_empty_multiset(g.flatten());
    } else {
        let h = Seq::new((k - 1) as nat, |j: int| bucket(s, count, j));
        lemma_flatten_new(s, count, k - 1);
        assert(g =~= h + seq![bucket(s, count, k - 1)]);
        vstd::seq_lib::lemma_flatten_concat(h, seq![bucket(s, count, k - 1)]);
        assert(seq![bucket(s, count, k - 1)].flatten() =~= bucket(s, count, k - 1)) by {
            let one = seq![bucket(s, count, k - 1)];
            assert(one.drop_first() =~= Seq::<Seq<A>>::empty());
            assert(one.drop_first().flatten() =~= Seq::<A>::empty());
            assert(one.flatten() == one.first() + one.drop_first().flatten());
        }
        vstd::seq_lib::lemma_multiset_commutative(h.flatten(), bucket(s, count, k - 1));
    }
}

/// Law: dealing round-robin loses no item and adds none: the groups, taken
/// together, hold exactly the items dealt.
pub proof fn lemma_dealt_keeps_items<A>(s: Seq<A>, count: int)
    requires
        count > 0,
    ensures
        dealt(s, count).flatten().to_multiset() == s.to_multiset(),
{
    let k = if s.len() < count { s.len() as int } else { count };
    lemma_flatten_new(s, count, k);
    lemma_dealt_items_all(s, count);
    if s.len() < count {
        lemma_dealt_items_tail(s, count, count);
    }
}

/// The host of `url` and its port (the one given, or the scheme's default),
/// as `url::Url` parses it; `None` when it does not parse.
pub uninterp spec fn url_parts(url: Seq<char>) -> Option<(Option<Seq<char>>, Option<u16>)>;

/// `url::Url::parse`, then `host_str` and `port_or_known_default` of the
/// parsed URL; `None` when the text does not parse. The parts are named.
#[verifier::external_body]
fn parse_url_parts(url: &str) -> (r: Option<(Option<String>, Option<u16>)>)
    ensures
        r is None <==> url_parts(url@) is None,
        r matches Some(p) ==> url_parts(url@) == Some((crate::trade::opt_text(p.0), p.1)),
{
    match url::Url::parse(url) {
        Ok(u) => Some((u.host_str().map(str::to_string), u.port_or_known_default())),
        Err(_) => None,
    }
}

/// Where a websocket address points: its host, its port, and whether the
/// connection runs over TLS.
#[derive(Debug, Clone, PartialEq, Eq)]
pub struct WsEndpoint {
    pub host: String,
    pub port: u16,
    pub tls: bool,
}

/// The host that `url_parts` names for `url`, if any.
pub open spec fn url_host(url: Seq<char>) -> Option<Seq<char>> {
    match url_parts(url) {
        Some(p) => p.0,
        None => None,
    }
}

/// The port that `url_parts` names for `url`, if any.
pub open spec fn url_port(url: Seq<char>) -> Option<u16> {
    match url_parts(url) {
        Some(p) => p.1,
        None => None,
    }
}

/// The address starts with `wss`.
pub open spec fn is_wss(url: Seq<char>) -> bool {
    str_bytes(url).len() >= 3 && str_bytes(url).take(3) == seq![119u8, 115u8, 115u8]
}

/// Where `url` points: its host, its port (port 443 when neither given nor
/// known for the scheme), and TLS when the address starts with `wss`. An
/// address that does not parse, or names no host, is refused.
pub fn ws_endpoint(url: &str) -> (r: Result<WsEndpoint, WsPoolError>)
    ensures
        url_parts(url@) is None ==> r == Err::<WsEndpoint, WsPoolError>(WsPoolError::InvalidUrl),
        url_parts(url@) is Some && url_host(url@) is None ==> r == Err::<WsEndpoint, WsPoolError>(
            WsPoolError::MissingHost,
        ),
        url_parts(url@) is Some && url_host(url@) is Some ==> ({
            &&& r is Ok
            &&& r->Ok_0.host@ == url_host(url@)->0
            &&& r->Ok_0.port == (match url_port(url@) {
                Some(port) => port,
                None => 443u16,
            })
            &&& r->Ok_0.tls == is_wss(url@)
        }),
{
    let parts = match parse_url_parts(url) {
        Some(p) => p,
        None => return Err(WsPoolError::InvalidUrl),
    };
    let host = match parts.0 {
        Some(h) => h,
        None => return Err(WsPoolError::MissingHost),
    };
    let port = match parts.1 {
        Some(p) => p,
        None => 443,
    };
    let b = url.as_bytes();
    let tls = b.len() >= 3 && b[0] == 119 && b[1] == 115 && b[2] == 115;
    proof {
        if b@.len() >= 3 {
            if b@.take(3) == seq![119u8, 115u8, 115u8] {
                assert(b@.take(3)[0] == b@[0]);
                assert(b@.take(3)[1] == b@[1]);
                assert(b@.take(3)[2] == b@[2]);
            }
            if b@[0] == 119 && b@[1] == 115 && b@[2] == 115 {
                assert(b@.take(3) =~= seq![119u8, 115u8, 115u8]);
            }
        }
    }
    Ok(WsEndpoint { host, port, tls })
}

/// The state of a pool of websocket connections for one market.
pub struct WsConnectionPool {
    market_code: String,
    url: String,
    is_deflate: bool,
    max_pairs_per_conn: u8,
    min_start_conn_count: u8,
    pair_conn_map: Vec<(String, u8)>,
    conn_status: Vec<bool>,
    link_state: bool,
    headers: Vec<(String, String)>,
    connect_wait_time: u16,
    write_wait_time: u16,
    last_write_time: Vec<u64>,
    clock_start: tokio::time::Instant,
}

impl WsConnectionPool {
    /// Each pair is on one slot of the pool, and each slot has a state and a
    /// time of last write.
    #[verifier::type_invariant]
    spec fn inv(self) -> bool {
        &&& keys_distinct(entries_view(self.pair_conn_map@))
        &&& slots_in_range(entries_view(self.pair_conn_map@))
        &&& self.conn_status@.len() == MAX_CONN_COUNT
        &&& self.last_write_time@.len() == MAX_CONN_COUNT
    }

    /// The subscribed pairs and their slots.
    pub closed spec fn pairs(&self) -> Seq<(Seq<char>, u8)> {
        entries_view(self.pair_conn_map@)
    }

    /// The instant the write stamps count from.
    pub closed spec fn start_instant(&self) -> tokio::time::Instant {
        self.clock_start
    }

    /// Which slots have an open connection.
    pub closed spec fn open_slots(&self) -> Seq<bool> {
        self.conn_status@
    }

    /// Whether the pool is started.
    pub closed spec fn started(&self) -> bool {
        self.link_state
    }

    /// The most pairs a slot takes.
    pub closed spec fn capacity(&self) -> u8 {
        self.max_pairs_per_conn
    }

    /// The headers sent when connecting.
    pub closed spec fn header_list(&self) -> Seq<(Seq<char>, Seq<char>)> {
        headers_view(self.headers@)
    }

    /// The address connected to.
    pub closed spec fn url_text(&self) -> Seq<char> {
        self.url@
    }

    /// The name of the market.
    pub closed spec fn market_text(&self) -> Seq<char> {
        self.market_code@
    }

    /// Whether connections ask for compression.
    pub closed spec fn deflate(&self) -> bool {
        self.is_deflate
    }

    /// How many connections are opened when the pool starts.
    pub closed spec fn min_conn(&self) -> u8 {
        self.min_start_conn_count
    }

    /// The least time between two connections, in milliseconds.
    pub closed spec fn connect_wait(&self) -> u16 {
        self.connect_wait_time
    }

    /// The least time between two writes on a connection, in milliseconds.
    pub closed spec fn write_wait(&self) -> u16 {
        self.write_wait_time
    }

    /// The time of the last write on each slot.
    pub closed spec fn last_writes(&self) -> Seq<u64> {
        self.last_write_time@
    }

    /// True when `other` differs from `self` at most in its pairs and open
    /// slots.
    pub open spec fn same_settings(&self, other: &Self) -> bool {
        &&& other.started() == self.started()
        &&& other.capacity() == self.capacity()
        &&& other.header_list() == self.header_list()
        &&& other.url_text() == self.url_text()
        &&& other.market_text() == self.market_text()
        &&& other.deflate() == self.deflate()
        &&& other.min_conn() == self.min_conn()
        &&& other.connect_wait() == self.connect_wait()
        &&& other.write_wait() == self.write_wait()
        &&& other.last_writes() == self.last_writes()
    }

    /// A pool for `market_code` at `url`, not started, with no pair, no open
    /// connection, no header and no pacing.
    pub fn new(market_code: &str, url: &str, is_deflate: bool, max_pairs_per_conn: u8) -> (p: Self)
        ensures
            p.market_text() == market_code@,
            p.url_text() == url@,
            p.deflate() == is_deflate,
            p.capacity() == max_pairs_per_conn,
            p.min_conn() == 0,
            p.pairs() == Seq::<(Seq<char>, u8)>::empty(),
            p.open_slots() == Seq::new(MAX_CONN_COUNT as nat, |i: int| false),
            !p.started(),
            p.header_list() == Seq::<(Seq<char>, Seq<char>)>::empty(),
            p.connect_wait() == 0,
            p.write_wait() == 0,
            p.last_writes() == Seq::new(MAX_CONN_COUNT as nat, |i: int| 0u64),
    {
        let mut conn_status: Vec<bool> = Vec::new();
        let mut last_write_time: Vec<u64> = Vec::new();
        let mut i: usize = 0;
        while i < MAX_CONN_COUNT
            invariant
                0 <= i <= MAX_CONN_COUNT,
                conn_status@ == Seq::new(i as nat, |j: int| false),
                last_write_time@ == Seq::new(i as nat, |j: int| 0u64),
            decreases MAX_CONN_COUNT - i,
        {
            conn_status.push(false);
            last_write_time.push(0);
            i = i + 1;
        }
        let pair_conn_map: Vec<(String, u8)> = Vec::new();
        let headers: Vec<(String, String)> = Vec::new();
        assert(entries_view(pair_conn_map@) =~= Seq::<(Seq<char>, u8)>::empty());
        assert(headers_view(headers@) =~= Seq::<(Seq<char>, Seq<char>)>::empty());
        WsConnectionPool {
            market_code: market_code.to_string(),
            url: url.to_string(),
            is_deflate,
            max_pairs_per_conn,
            min_start_conn_count: 0,
            pair_conn_map,
            conn_status,
            link_state: false,
            headers,
            connect_wait_time: 0,
            write_wait_time: 0,
            last_write_time,
            clock_start: instant_now(),
        }
    }

    /// The monotonic instant the write stamps count from: the pool's
    /// creation. Writes are stamped, and waits measured, in milliseconds
    /// since it.
    pub fn clock_start(&self) -> (i: &tokio::time::Instant)
        ensures
            *i == self.start_instant(),
    {
        &self.clock_start
    }

    /// The name of the market.
    pub fn market_code(&self) -> (s: &str)
        ensures
            s@ == self.market_text(),
    {
        self.market_code.as_str()
    }

    /// The address connected to.
    pub fn url(&self) -> (s: &str)
        ensures
            s@ == self.url_text(),
    {
        self.url.as_str()
    }

    /// Whether connections ask for compression.
    pub fn is_deflate(&self) -> (b: bool)
        ensures
            b == self.deflate(),
    {
        self.is_deflate
    }

    /// The most pairs a slot takes.
    pub fn max_pairs_per_conn(&self) -> (m: u8)
        ensures
            m == self.capacity(),
    {
        self.max_pairs_per_conn
    }

    /// How many connections are opened when the pool starts.
    pub fn min_conn_count(&self) -> (c: u8)
        ensures
            c == self.min_conn(),
    {
        self.min_start_conn_count
    }

    /// The least time between two connections, in milliseconds.
    pub fn connect_wait_time(&self) -> (t: u16)
        ensures
            t == self.connect_wait(),
    {
        self.connect_wait_time
    }

    /// The least time between two writes on a connection, in milliseconds.
    pub fn write_wait_time(&self) -> (t: u16)
        ensures
            t == self.write_wait(),
    {
        self.write_wait_time
    }

    /// The time of the last write on slot `idx`.
    pub fn last_write_time(&self, idx: u8) -> (t: u64)
        requires
            idx < MAX_CONN_COUNT,
        ensures
            t == self.last_writes()[idx as int],
    {
        proof {
            use_type_invariant(self);
        }
        self.last_write_time[idx as usize]
    }

    /// Records a write on slot `idx` at `now_ms`.
    pub fn record_write(&mut self, idx: u8, now_ms: u64)
        requires
            idx < MAX_CONN_COUNT,
        ensures
            final(self).last_writes() == old(self).last_writes().update(idx as int, now_ms),
            final(self).pairs() == old(self).pairs(),
            final(self).open_slots() == old(self).open_slots(),
            final(self).started() == old(self).started(),
            final(self).capacity() == old(self).capacity(),
            final(self).header_list() == old(self).header_list(),
            final(self).url_text() == old(self).url_text(),
            final(self).market_text() == old(self).market_text(),
            final(self).deflate() == old(self).deflate(),
            final(self).min_conn() == old(self).min_conn(),
            final(self).connect_wait() == old(self).connect_wait(),
            final(self).write_wait() == old(self).write_wait(),
    {
        proof {
            use_type_invariant(&*self);
        }
        let mut times = self.last_write_time.clone();
        assert(times@ =~= self.last_write_time@);
        times.set(idx as usize, now_ms);
        self.last_write_time = times;
    }

    /// Records a write on slot `idx` now: milliseconds since `clock_start`.
    pub fn record_write_now(&mut self, idx: u8)
        requires
            idx < MAX_CONN_COUNT,
        ensures
            exists|now_ms: u64| final(self).last_writes() == old(self).last_writes().update(idx as int, now_ms),
            final(self).pairs() == old(self).pairs(),
            final(self).open_slots() == old(self).open_slots(),
            final(self).started() == old(self).started(),
            final(self).capacity() == old(self).capacity(),
            final(self).write_wait() == old(self).write_wait(),
    {
        let now_ms = millis_since(&self.clock_start);
        self.record_write(idx, now_ms);
    }

    /// Sets the least time between two connections.
    pub fn set_connect_wait_time(&mut self, time: u16)
        ensures
            final(self).connect_wait() == time,
            final(self).pairs() == old(self).pairs(),
            final(self).open_slots() == old(self).open_slots(),
            final(self).started() == old(self).started(),
            final(self).capacity() == old(self).capacity(),
            final(self).header_list() == old(self).header_list(),
            final(self).url_text() == old(self).url_text(),
            final(self).market_text() == old(self).market_text(),
            final(self).deflate() == old(self).deflate(),
            final(self).min_conn() == old(self).min_conn(),
            final(self).write_wait() == old(self).write_wait(),
            final(self).last_writes() == old(self).last_writes(),
    {
        proof {
            use_type_invariant(&*self);
        }
        self.connect_wait_time = time;
    }

    /// Sets the least time between two writes on a connection.
    pub fn set_write_wait_time(&mut self, time: u16)
        ensures
            final(self).write_wait() == time,
            final(self).pairs() == old(self).pairs(),
            final(self).open_slots() == old(self).open_slots(),
            final(self).started() == old(self).started(),
            final(self).capacity() == old(self).capacity(),
            final(self).header_list() == old(self).header_list(),
            final(self).url_text() == old(self).url_text(),
            final(self).market_text() == old(self).market_text(),
            final(self).deflate() == old(self).deflate(),
            final(self).min_conn() == old(self).min_conn(),
            final(self).connect_wait() == old(self).connect_wait(),
            final(self).last_writes() == old(self).last_writes(),
    {
        proof {
            use_type_invariant(&*self);
        }
        self.write_wait_time = time;
    }

    /// Sets how many connections are opened when the pool starts.
    pub fn set_min_conn_count(&mut self, count: u8)
        ensures
            final(self).min_conn() == count,
            final(self).pairs() == old(self).pairs(),
            final(self).open_slots() == old(self).open_slots(),
            final(self).started() == old(self).started(),
            final(self).capacity() == old(self).capacity(),
            final(self).header_list() == old(self).header_list(),
            final(self).url_text() == old(self).url_text(),
            final(self).market_text() == old(self).market_text(),
            final(self).deflate() == old(self).deflate(),
            final(self).connect_wait() == old(self).connect_wait(),
            final(self).write_wait() == old(self).write_wait(),
            final(self).last_writes() == old(self).last_writes(),
    {
        proof {
            use_type_invariant(&*self);
        }
        self.min_start_conn_count = count;
    }

    /// Sets the address connected to.
    pub fn set_url(&mut self, url: &str)
        ensures
            final(self).url_text() == url@,
            final(self).pairs() == old(self).pairs(),
            final(self).open_slots() == old(self).open_slots(),
            final(self).started() == old(self).started(),
            final(self).capacity() == old(self).capacity(),
            final(self).header_list() == old(self).header_list(),
            final(self).market_text() == old(self).market_text(),
            final(self).deflate() == old(self).deflate(),
            final(self).min_conn() == old(self).min_conn(),
            final(self).connect_wait() == old(self).connect_wait(),
            final(self).write_wait() == old(self).write_wait(),
            final(self).last_writes() == old(self).last_writes(),
    {
        proof {
            use_type_invariant(&*self);
        }
        self.url = url.to_string();
    }

    /// Marks the pool started or stopped.
    pub fn set_link_sate(&mut self, state: bool)
        ensures
            final(self).started() == state,
            final(self).pairs() == old(self).pairs(),
            final(self).open_slots() == old(self).open_slots(),
            final(self).capacity() == old(self).capacity(),
            final(self).header_list() == old(self).header_list(),
            final(self).url_text() == old(self).url_text(),
            final(self).market_text() == old(self).market_text(),
            final(self).deflate() == old(self).deflate(),
            final(self).min_conn() == old(self).min_conn(),
            final(self).connect_wait() == old(self).connect_wait(),
            final(self).write_wait() == old(self).write_wait(),
            final(self).last_writes() == old(self).last_writes(),
    {
        proof {
            use_type_invariant(&*self);
        }
        self.link_state = state;
    }

    /// Whether the pool is started.
    pub fn get_state(&self) -> (b: bool)
        ensures
            b == self.started(),
    {
        self.link_state
    }

    /// Replaces the headers sent when connecting.
    pub fn set_headers(&mut self, headers: Vec<(String, String)>)
        ensures
            final(self).header_list() == headers_view(headers@),
            final(self).pairs() == old(self).pairs(),
            final(self).open_slots() == old(self).open_slots(),
            final(self).started() == old(self).started(),
            final(self).capacity() == old(self).capacity(),
            final(self).url_text() == old(self).url_text(),
            final(self).market_text() == old(self).market_text(),
            final(self).deflate() == old(self).deflate(),
            final(self).min_conn() == old(self).min_conn(),
            final(self).connect_wait() == old(self).connect_wait(),
            final(self).write_wait() == old(self).write_wait(),
            final(self).last_writes() == old(self).last_writes(),
    {
        proof {
            use_type_invariant(&*self);
        }
        self.headers = headers;
    }

    /// The position of `pair` in the list, when listed.
    fn find(&self, pair: &str) -> (r: Option<usize>)
        ensures
            r is None <==> !has_key(self.pairs(), pair@),
            r matches Some(i) ==> i < self.pairs().len() && self.pairs()[i as int].0 == pair@
                && index_of(self.pairs(), pair@) == i,
    {
        proof {
            use_type_invariant(self);
        }
        let ghost s = self.pairs();
        let n = self.pair_conn_map.len();
        let mut i: usize = 0;
        while i < n
            invariant
                0 <= i <= n,
                n == s.len(),
                s == entries_view(self.pair_conn_map@),
                keys_distinct(s),
                forall|j: int| 0 <= j < i ==> s[j].0 != pair@,
            decreases n - i,
        {
            if str_equal(self.pair_conn_map[i].0.as_str(), pair) {
                proof {
                    lemma_index_of(s, pair@, i as int);
                }
                return Some(i);
            }
            i = i + 1;
        }
        None
    }

    /// The slot of `pair`, when subscribed.
    pub fn conn_of(&self, pair: &str) -> (r: Option<u8>)
        ensures
            r == lookup(self.pairs(), pair@),
    {
        proof {
            use_type_invariant(self);
        }
        match self.find(pair) {
            Some(i) => {
                proof {
                    lemma_index_of(self.pairs(), pair@, i as int);
                }
                Some(self.pair_conn_map[i].1)
            },
            None => None,
        }
    }

    /// The pairs subscribed on slot `idx`, in list order.
    pub fn get_sub_pairs(&self, idx: u8) -> (v: Vec<String>)
        ensures
            texts(v@) == conn_pairs(self.pairs(), idx),
    {
        let ghost s = self.pairs();
        let mut out: Vec<String> = Vec::new();
        let n = self.pair_conn_map.len();
        let mut i: usize = 0;
        while i < n
            invariant
                0 <= i <= n,
                n == s.len(),
                s == entries_view(self.pair_conn_map@),
                texts(out@) == conn_pairs(s.take(i as int), idx),
            decreases n - i,
        {
            let ghost prev = out@;
            proof {
                let t = s.take(i + 1);
                assert(t.drop_last() =~= s.take(i as int));
                assert(t.last() == s[i as int]);
            }
            if self.pair_conn_map[i].1 == idx {
                let p = self.pair_conn_map[i].0.clone();
                out.push(p);
                proof {
                    assert(texts(out@) =~= texts(prev).push(p@));
                }
            }
            i = i + 1;
        }
        proof {
            assert(s.take(n as int) =~= s);
        }
        out
    }

    /// Puts `pair` on slot `idx`: in place when subscribed, else at the end.
    pub fn record_subscription(&mut self, pair: &str, idx: u8)
        requires
            idx < MAX_CONN_COUNT,
        ensures
            final(self).pairs() == record(old(self).pairs(), pair@, idx),
            final(self).open_slots() == old(self).open_slots(),
            old(self).same_settings(final(self)),
    {
        proof {
            use_type_invariant(&*self);
            lemma_record(self.pairs(), pair@, idx);
        }
        let ghost s = self.pairs();
        let found = self.find(pair);
        let mut m: Vec<(String, u8)> = Vec::new();
        std::mem::swap(&mut m, &mut self.pair_conn_map);
        match found {
            Some(i) => {
                m.set(i, (pair.to_string(), idx));
            },
            None => {
                m.push((pair.to_string(), idx));
            },
        }
        assert(entries_view(m@) =~= record(s, pair@, idx));
        self.pair_conn_map = m;
    }

    /// Puts each of `pairs`, in turn, on slot `idx`.
    pub fn record_subscriptions(&mut self, pairs: Vec<String>, idx: u8)
        requires
            idx < MAX_CONN_COUNT,
        ensures
            final(self).pairs() == record_all(old(self).pairs(), texts(pairs@), idx),
            final(self).open_slots() == old(self).open_slots(),
            old(self).same_settings(final(self)),
    {
        let ghost ks = texts(pairs@);
        let n = pairs.len();
        let mut i: usize = 0;
        while i < n
            invariant
                0 <= i <= n,
                n == pairs@.len(),
                idx < MAX_CONN_COUNT,
                ks == texts(pairs@),
                self.pairs() == record_all(old(self).pairs(), ks.take(i as int), idx),
                self.open_slots() == old(self).open_slots(),
                old(self).same_settings(self),
            decreases n - i,
        {
            proof {
                let t = ks.take(i + 1);
                assert(t.drop_last() =~= ks.take(i as int));
                assert(t.last() == pairs@[i as int]@);
            }
            self.record_subscription(pairs[i].as_str(), idx);
            i = i + 1;
        }
        proof {
            assert(ks.take(n as int) =~= ks);
        }
    }

    /// Removes `pair`, giving the slot it was on.
    pub fn remove_pair(&mut self, pair: &str) -> (r: Option<u8>)
        ensures
            r == lookup(old(self).pairs(), pair@),
            final(self).pairs() == erase(old(self).pairs(), pair@),
            final(self).open_slots() == old(self).open_slots(),
            old(self).same_settings(final(self)),
    {
        proof {
            use_type_invariant(&*self);
            lemma_erase(self.pairs(), pair@);
        }
        let ghost s = self.pairs();
        match self.find(pair) {
            Some(i) => {
                proof {
                    lemma_index_of(s, pair@, i as int);
                }
                let mut m: Vec<(String, u8)> = Vec::new();
                std::mem::swap(&mut m, &mut self.pair_conn_map);
                let e = m.remove(i);
                assert(entries_view(m@) =~= erase(s, pair@));
                self.pair_conn_map = m;
                Some(e.1)
            },
            None => None,
        }
    }

    /// Where the next pairs go, and how many more that slot takes: the first
    /// slot that has pairs and room for more; else the first slot without
    /// pairs, or `MAX_CONN_COUNT` when every slot has pairs, with a whole
    /// slot's room.
    pub fn get_next_idx(&self) -> (r: (u8, usize))
        ensures
            r.0 as int == next_slot(self.pairs(), self.capacity()).0,
            r.1 as int == next_slot(self.pairs(), self.capacity()).1,
    {
        let ghost s = self.pairs();
        let max = self.max_pairs_per_conn;
        let mut next_to_init: usize = MAX_CONN_COUNT;
        let mut i: usize = 0;
        while i < MAX_CONN_COUNT
            invariant
                0 <= i <= MAX_CONN_COUNT,
                s == self.pairs(),
                max == self.capacity(),
                next_to_init <= MAX_CONN_COUNT,
                forall|j: int| 0 <= j < i ==> !#[trigger] is_partial(s, max, j),
                next_to_init < MAX_CONN_COUNT ==> next_to_init < i && conn_count(s, next_to_init as int)
                    == 0 && forall|j: int| 0 <= j < next_to_init ==> #[trigger] conn_count(s, j) != 0,
                next_to_init == MAX_CONN_COUNT ==> forall|j: int|
                    0 <= j < i ==> #[trigger] conn_count(s, j) != 0,
            decreases MAX_CONN_COUNT - i,
        {
            let c = self.get_sub_pairs(i as u8).len();
            assert(c == conn_count(s, i as int));
            if c == 0 {
                if next_to_init == MAX_CONN_COUNT {
                    next_to_init = i;
                }
            } else if c < max as usize {
                proof {
                    lemma_next_slot_partial(s, max, i as int);
                }
                return (i as u8, max as usize - c);
            }
            i = i + 1;
        }
        if next_to_init < MAX_CONN_COUNT {
            proof {
                lemma_next_slot_empty(s, max, next_to_init as int);
            }
            (next_to_init as u8, max as usize)
        } else {
            proof {
                assert(!some_partial(s, max));
                assert(!some_empty(s));
            }
            (MAX_CONN_COUNT as u8, max as usize)
        }
    }

    /// Whether slot `idx` has an open connection.
    pub fn is_conn_open(&self, idx: u8) -> (b: bool)
        requires
            idx < MAX_CONN_COUNT,
        ensures
            b == self.open_slots()[idx as int],
    {
        proof {
            use_type_invariant(self);
        }
        self.conn_status[idx as usize]
    }

    /// Marks slot `idx` open or closed.
    pub fn set_conn_status(&mut self, idx: u8, open: bool)
        requires
            idx < MAX_CONN_COUNT,
        ensures
            final(self).open_slots() == old(self).open_slots().update(idx as int, open),
            final(self).pairs() == old(self).pairs(),
            old(self).same_settings(final(self)),
    {
        proof {
            use_type_invariant(&*self);
        }
        let mut st = self.conn_status.clone();
        assert(st@ =~= self.conn_status@);
        st.set(idx as usize, open);
        self.conn_status = st;
    }

    /// Whether a connection must be opened on slot `index`: the pool must be
    /// started; a slot already open needs none (`false`).
    pub fn init_connection_check(&self, index: u8) -> (r: Result<bool, WsPoolError>)
        requires
            index < MAX_CONN_COUNT,
        ensures
            !self.started() ==> r == Err::<bool, WsPoolError>(WsPoolError::NotInitialized),
            self.started() ==> r == Ok::<bool, WsPoolError>(!self.open_slots()[index as int]),
    {
        if !self.link_state {
            return Err(WsPoolError::NotInitialized);
        }
        Ok(!self.is_conn_open(index))
    }

    /// The slots that still hold a subscribed pair, in increasing order.
    pub fn get_connected_conn(&self) -> (v: Vec<u8>)
        ensures
            v@ == open_indices(used_slots(self.pairs()), MAX_CONN_COUNT as int),
    {
        proof {
            use_type_invariant(self);
        }
        let ghost s = self.pairs();
        let mut used: Vec<bool> = Vec::new();
        let mut i: usize = 0;
        while i < MAX_CONN_COUNT
            invariant
                0 <= i <= MAX_CONN_COUNT,
                used@.len() == i,
                forall|k: int| 0 <= k < i ==> !used@[k],
            decreases MAX_CONN_COUNT - i,
        {
            used.push(false);
            i = i + 1;
        }
        let n = self.pair_conn_map.len();
        let mut j: usize = 0;
        while j < n
            invariant
                0 <= j <= n,
                n == s.len(),
                s == self.pairs(),
                used@.len() == MAX_CONN_COUNT,
                forall|k: int|
                    0 <= k < MAX_CONN_COUNT ==> (used@[k] <==> exists|m: int|
                        0 <= m < j && #[trigger] s[m].1 == k),
            decreases n - j,
        {
            let slot = self.pair_conn_map[j].1;
            assert(s[j as int].1 == slot);
            if (slot as usize) < MAX_CONN_COUNT {
                used.set(slot as usize, true);
            }
            proof {
                assert forall|k: int| 0 <= k < MAX_CONN_COUNT implies (used@[k] <==> exists|m: int|
                    0 <= m < j + 1 && #[trigger] s[m].1 == k) by {
                    if k == slot {
                        assert(s[j as int].1 == k);
                    } else {
                        if exists|m: int| 0 <= m < j + 1 && #[trigger] s[m].1 == k {
                            let m = choose|m: int| 0 <= m < j + 1 && #[trigger] s[m].1 == k;
                            assert(m < j);
                        }
                    }
                }
            }
            j = j + 1;
        }
        assert(used@ =~= used_slots(s));
        let mut out: Vec<u8> = Vec::new();
        let mut i: usize = 0;
        while i < MAX_CONN_COUNT
            invariant
                0 <= i <= MAX_CONN_COUNT,
                used@.len() == MAX_CONN_COUNT,
                used@ == used_slots(s),
                out@ == open_indices(used_slots(s), i as int),
            decreases MAX_CONN_COUNT - i,
        {
            if used[i] {
                out.push(i as u8);
            }
            i = i + 1;
        }
        out
    }

    /// Empties slot `idx`: it is marked closed and its pairs are removed and
    /// given back, in list order.
    pub fn clear_conn_status(&mut self, idx: u8) -> (removed: Vec<String>)
        requires
            idx < MAX_CONN_COUNT,
        ensures
            texts(removed@) == conn_pairs(old(self).pairs(), idx),
            final(self).pairs() == without_conn(old(self).pairs(), idx),
            final(self).open_slots() == old(self).open_slots().update(idx as int, false),
            old(self).same_settings(final(self)),
    {
        proof {
            use_type_invariant(&*self);
            lemma_without_conn(self.pairs(), idx);
        }
        let ghost s = self.pairs();
        let mut kept: Vec<(String, u8)> = Vec::new();
        let mut removed: Vec<String> = Vec::new();
        let n = self.pair_conn_map.len();
        let mut i: usize = 0;
        while i < n
            invariant
                0 <= i <= n,
                n == s.len(),
                s == entries_view(self.pair_conn_map@),
                entries_view(kept@) == without_conn(s.take(i as int), idx),
                texts(removed@) == conn_pairs(s.take(i as int), idx),
            decreases n - i,
        {
            let ghost pk = kept@;
            let ghost pr = removed@;
            proof {
                let t = s.take(i + 1);
                assert(t.drop_last() =~= s.take(i as int));
                assert(t.last() == s[i as int]);
            }
            let p = self.pair_conn_map[i].0.clone();
            let c = self.pair_conn_map[i].1;
            if c == idx {
                removed.push(p);
                proof {
                    assert(texts(removed@) =~= texts(pr).push(p@));
                }
            } else {
                kept.push((p, c));
                proof {
                    assert(entries_view(kept@) =~= entries_view(pk).push((p@, c)));
                }
            }
            i = i + 1;
        }
        proof {
            assert(s.take(n as int) =~= s);
        }
        self.set_conn_status(idx, false);
        let mut m = kept;
        std::mem::swap(&mut m, &mut self.pair_conn_map);
        removed
    }

    /// A reconnection of slot `idx` failed: the slot is marked open again, so
    /// that the next heartbeat retries it, and its pairs are put back on it.
    pub fn restore_connection(&mut self, idx: u8, pairs: Vec<String>)
        requires
            idx < MAX_CONN_COUNT,
        ensures
            final(self).open_slots() == old(self).open_slots().update(idx as int, true),
            final(self).pairs() == record_all(old(self).pairs(), texts(pairs@), idx),
            old(self).same_settings(final(self)),
    {
        self.set_conn_status(idx, true);
        self.record_subscriptions(pairs, idx);
    }

    /// The pairs of `pairs` that are not subscribed yet, in order.
    pub fn filter_unsubscribed(&self, pairs: &Vec<String>) -> (v: Vec<String>)
        ensures
            texts(v@) == unsubscribed(self.pairs(), texts(pairs@)),
    {
        let ghost ks = texts(pairs@);
        let mut out: Vec<String> = Vec::new();
        let n = pairs.len();
        let mut i: usize = 0;
        while i < n
            invariant
                0 <= i <= n,
                n == pairs@.len(),
                ks == texts(pairs@),
                texts(out@) == unsubscribed(self.pairs(), ks.take(i as int)),
            decreases n - i,
        {
            let ghost prev = out@;
            proof {
                let t = ks.take(i + 1);
                assert(t.drop_last() =~= ks.take(i as int));
                assert(t.last() == pairs@[i as int]@);
            }
            if self.find(pairs[i].as_str()).is_none() {
                let p = pairs[i].clone();
                out.push(p);
                proof {
                    assert(texts(out@) =~= texts(prev).push(p@));
                }
            }
            i = i + 1;
        }
        proof {
            assert(ks.take(n as int) =~= ks);
        }
        out
    }

    /// The next batch of `pending` to subscribe: the slot it goes to, and the
    /// first pairs of `pending`, as many as that slot takes, no more than
    /// `max_count` when given; they leave `pending`.
    pub fn subscribe_batch(&self, pending: &mut Vec<String>, max_count: Option<u16>) -> (r: (u8, Vec<String>))
        ensures
            r.0 as int == next_slot(self.pairs(), self.capacity()).0,
            ({
                let n = batch_size(
                    next_slot(self.pairs(), self.capacity()).1,
                    max_count,
                    old(pending)@.len() as int,
                );
                &&& r.1@ == old(pending)@.take(n)
                &&& final(pending)@ == old(pending)@.skip(n)
            }),
    {
        let (idx, remaining) = self.get_next_idx();
        let mut n = remaining;
        match max_count {
            Some(m) => {
                if (m as usize) < n {
                    n = m as usize;
                }
            },
            None => {},
        }
        if pending.len() < n {
            n = pending.len();
        }
        let rest = pending.split_off(n);
        let mut batch = rest;
        std::mem::swap(&mut batch, pending);
        (idx, batch)
    }

    /// Removes each of `pairs` in turn, and groups those that were
    /// subscribed by the slot they were on.
    pub fn take_pairs_by_conn(&mut self, pairs: &Vec<String>) -> (groups: Vec<Vec<String>>)
        ensures
            groups@.len() == MAX_CONN_COUNT,
            forall|i: int| 0 <= i < MAX_CONN_COUNT ==> texts(#[trigger] groups@[i]@) == taken_from(
                old(self).pairs(),
                texts(pairs@),
                i as u8,
            ),
            final(self).pairs() == erase_all(old(self).pairs(), texts(pairs@)),
            final(self).open_slots() == old(self).open_slots(),
            old(self).same_settings(final(self)),
    {
        let ghost s0 = self.pairs();
        let ghost ks = texts(pairs@);
        let mut groups: Vec<Vec<String>> = Vec::new();
        let mut j: usize = 0;
        while j < MAX_CONN_COUNT
            invariant
                0 <= j <= MAX_CONN_COUNT,
                groups@.len() == j,
                forall|i: int| 0 <= i < j ==> (#[trigger] groups@[i])@.len() == 0,
            decreases MAX_CONN_COUNT - j,
        {
            groups.push(Vec::new());
            j = j + 1;
        }
        proof {
            assert forall|i: int| 0 <= i < MAX_CONN_COUNT implies texts(#[trigger] groups@[i]@)
                == taken_from(s0, ks.take(0), i as u8) by {
                assert(texts(groups@[i]@) =~= Seq::<Seq<char>>::empty());
            }
        }
        let n = pairs.len();
        let mut k: usize = 0;
        while k < n
            invariant
                0 <= k <= n,
                n == pairs@.len(),
                ks == texts(pairs@),
                groups@.len() == MAX_CONN_COUNT,
                forall|i: int| 0 <= i < MAX_CONN_COUNT ==> texts(#[trigger] groups@[i]@) == taken_from(
                    s0,
                    ks.take(k as int),
                    i as u8,
                ),
                self.pairs() == erase_all(s0, ks.take(k as int)),
                self.open_slots() == old(self).open_slots(),
                old(self).same_settings(self),
            decreases n - k,
        {
            proof {
                use_type_invariant(&*self);
                let t = ks.take(k + 1);
                assert(t.drop_last() =~= ks.take(k as int));
                assert(t.last() == pairs@[k as int]@);
            }
            let ghost before = groups@;
            let found = self.remove_pair(pairs[k].as_str());
            match found {
                Some(i) => {
                    let mut g = groups[i as usize].clone();
                    assert(g@ =~= groups@[i as int]@);
                    g.push(pairs[k].clone());
                    groups.set(i as usize, g);
                    proof {
                        assert forall|i2: int| 0 <= i2 < MAX_CONN_COUNT implies texts(#[trigger] groups@[i2]@)
                            == taken_from(s0, ks.take(k + 1), i2 as u8) by {
                            if i2 == i as int {
                                assert(texts(groups@[i2]@) =~= texts(before[i2]@).push(pairs@[k as int]@));
                            } else {
                                assert(groups@[i2] == before[i2]);
                            }
                        }
                    }
                },
                None => {
                    proof {
                        assert forall|i2: int| 0 <= i2 < MAX_CONN_COUNT implies texts(#[trigger] groups@[i2]@)
                            == taken_from(s0, ks.take(k + 1), i2 as u8) by {
                            assert(groups@[i2] == before[i2]);
                        }
                    }
                },
            }
            k = k + 1;
        }
        proof {
            assert(ks.take(n as int) =~= ks);
        }
        groups
    }

    /// The slot to resubscribe `pair` on: its own when subscribed; else the
    /// slot the next pairs go to, on which it is then recorded (when that is
    /// a slot of the pool).
    pub fn resubscribe_slot(&mut self, pair: &str) -> (idx: u8)
        ensures
            lookup(old(self).pairs(), pair@) matches Some(i) ==> idx == i && final(self).pairs()
                == old(self).pairs(),
            lookup(old(self).pairs(), pair@) is None ==> idx as int == next_slot(
                old(self).pairs(),
                old(self).capacity(),
            ).0 && final(self).pairs() == (if idx < MAX_CONN_COUNT {
                record(old(self).pairs(), pair@, idx)
            } else {
                old(self).pairs()
            }),
            final(self).open_slots() == old(self).open_slots(),
            old(self).same_settings(final(self)),
    {
        match self.conn_of(pair) {
            Some(i) => i,
            None => {
                let (new_idx, _) = self.get_next_idx();
                if (new_idx as usize) < MAX_CONN_COUNT {
                    self.record_subscription(pair, new_idx);
                }
                new_idx
            },
        }
    }

    /// `pairs` cut, from the front, into groups of `size` (the last may be
    /// shorter).
    pub fn chunk_pairs(pairs: &Vec<String>, size: usize) -> (groups: Vec<Vec<String>>)
        requires
            size > 0,
        ensures
            groups_view(groups@) == chunks(texts(pairs@), size as int),
    {
        let ghost s = texts(pairs@);
        let n = pairs.len();
        let mut out: Vec<Vec<String>> = Vec::new();
        let mut start: usize = 0;
        proof {
            assert(s.skip(0) =~= s);
            assert(groups_view(out@) + chunks(s.skip(0), size as int) =~= chunks(s, size as int));
        }
        while start < n
            invariant
                0 <= start <= n,
                n == pairs@.len(),
                size > 0,
                s == texts(pairs@),
                groups_view(out@) + chunks(s.skip(start as int), size as int) == chunks(s, size as int),
            decreases n - start,
        {
            let end = if n - start <= size { n } else { start + size };
            let mut g: Vec<String> = Vec::new();
            let mut i: usize = start;
            while i < end
                invariant
                    start <= i <= end,
                    end <= n,
                    n == pairs@.len(),
                    s == texts(pairs@),
                    texts(g@) == s.subrange(start as int, i as int),
                decreases end - i,
            {
                let ghost prev = g@;
                g.push(pairs[i].clone());
                proof {
                    assert(texts(g@) =~= texts(prev).push(pairs@[i as int]@));
                    assert(s.subrange(start as int, i + 1) =~= s.subrange(start as int, i as int).push(
                        s[i as int],
                    ));
                }
                i = i + 1;
            }
            let ghost prev_out = out@;
            out.push(g);
            proof {
                let rest = s.skip(start as int);
                assert(groups_view(out@) =~= groups_view(prev_out).push(s.subrange(start as int, end as int)));
                if n - start <= size {
                    assert(rest =~= s.subrange(start as int, end as int));
                    assert(chunks(rest, size as int) == seq![rest]);
                    assert(s.skip(end as int) =~= Seq::<Seq<char>>::empty());
                    assert(chunks(s.skip(end as int), size as int) =~= Seq::<Seq<Seq<char>>>::empty());
                } else {
                    assert(rest.take(size as int) =~= s.subrange(start as int, end as int));
                    assert(rest.skip(size as int) =~= s.skip(end as int));
                }
                assert(groups_view(out@) + chunks(s.skip(end as int), size as int) =~= groups_view(prev_out)
                    + chunks(rest, size as int));
            }
            start = end;
        }
        proof {
            assert(s.skip(n as int) =~= Seq::<Seq<char>>::empty());
            assert(groups_view(out@) + chunks(s.skip(n as int), size as int) =~= groups_view(out@));
        }
        out
    }

    /// `vec` dealt round-robin into `count` groups, leaving out the empty
    /// ones: `count` groups when there are at least `count` pairs, else one
    /// group per pair.
    pub fn split_vec(vec: Vec<String>, count: u8) -> (groups: Vec<Vec<String>>)
        requires
            count > 0 || vec@.len() == 0,
        ensures
            groups_view(groups@) == dealt(texts(vec@), count as int),
    {
        let ghost s = texts(vec@);
        let c = count as usize;
        let mut ret: Vec<Vec<String>> = Vec::new();
        let mut j: usize = 0;
        while j < c
            invariant
                0 <= j <= c,
                ret@.len() == j,
                forall|t: int| 0 <= t < j ==> (#[trigger] ret@[t])@.len() == 0,
            decreases c - j,
        {
            ret.push(Vec::new());
            j = j + 1;
        }
        if vec.len() == 0 {
            let out: Vec<Vec<String>> = Vec::new();
            proof {
                assert(groups_view(out@) =~= dealt(s, count as int));
            }
            return out;
        }
        let n = vec.len();
        let mut index: usize = 0;
        let mut i: usize = 0;
        proof {
            assert forall|t: int| 0 <= t < c implies texts(#[trigger] ret@[t]@) == bucket(s.take(0), c as int, t) by {
                assert(texts(ret@[t]@) =~= Seq::<Seq<char>>::empty());
            }
        }
        while i < n
            invariant
                0 <= i <= n,
                n == vec@.len(),
                c == count,
                c > 0,
                s == texts(vec@),
                index == (i as int) % (c as int),
                ret@.len() == c,
                forall|t: int| 0 <= t < c ==> texts(#[trigger] ret@[t]@) == bucket(s.take(i as int), c as int, t),
            decreases n - i,
        {
            let ghost before = ret@;
            let mut g = ret[index].clone();
            assert(g@ =~= ret@[index as int]@);
            g.push(vec[i].clone());
            ret.set(index, g);
            proof {
                let t2 = s.take(i + 1);
                assert(t2.drop_last() =~= s.take(i as int));
                assert(t2.last() == s[i as int]);
                assert forall|t: int| 0 <= t < c implies texts(#[trigger] ret@[t]@) == bucket(s.take(i + 1), c as int, t) by {
                    if t == index as int {
                        assert(texts(ret@[t]@) =~= texts(before[t]@).push(vec@[i as int]@));
                    } else {
                        assert(ret@[t] == before[t]);
                    }
                }
                assert((i + 1) % (c as int) == (if index + 1 == c { 0 } else { index + 1 })) by (nonlinear_arith)
                    requires
                        index == (i as int) % (c as int),
                        c > 0,
                        0 <= index < c,
                ;
            }
            index = if index + 1 == c { 0 } else { index + 1 };
            i = i + 1;
        }
        proof {
            assert(s.take(n as int) =~= s);
            lemma_bucket_nonempty(s, c as int);
        }
        let mut out: Vec<Vec<String>> = Vec::new();
        let mut t: usize = 0;
        while t < c
            invariant
                0 <= t <= c,
                c == count,
                c > 0,
                n == s.len(),
                n > 0,
                ret@.len() == c,
                forall|u: int| 0 <= u < c ==> texts(#[trigger] ret@[u]@) == bucket(s, c as int, u),
                forall|u: int| 0 <= u < c ==> (bucket(s, c as int, u).len() > 0 <==> u < s.len()),
                out@.len() == (if t < n { t as int } else { n as int }),
                forall|u: int| 0 <= u < out@.len() ==> texts(#[trigger] out@[u]@) == bucket(s, c as int, u),
            decreases c - t,
        {
            if ret[t].len() != 0 {
                let ghost prev = out@;
                out.push(ret[t].clone());
                proof {
                    assert(texts(ret@[t as int]@).len() == ret@[t as int]@.len());
                    assert(out@.len() == prev.len() + 1);
                    assert(texts(out@[prev.len() as int]@) == texts(ret@[t as int]@));
                }
            } else {
                proof {
                    assert(texts(ret@[t as int]@).len() == ret@[t as int]@.len());
                }
            }
            t = t + 1;
        }
        proof {
            assert(groups_view(out@) =~= dealt(s, c as int));
        }
        out
    }

    /// The headers to connect with now, stamped with the UTC clock in
    /// milliseconds; `None` when the clock reads before the Unix epoch.
    pub fn build_header_now(&self) -> (h: Option<Vec<(String, String)>>)
        ensures
            h matches Some(v) ==> (self.header_list().len() == 0 ==> v@.len() == 0) && (self.header_list().len()
                > 0 ==> exists|now_ms: i64|
                now_ms >= 0 && headers_view(v@) == self.header_list().push(
                    ("X-Stamp"@, signed_decimal_text(now_ms as int)),
                )),
    {
        match utc_now_millis() {
            Some(now_ms) => Some(self.build_header(now_ms)),
            None => None,
        }
    }

    /// The headers to connect with at `now_ms`: none when no header is set,
    /// else the set headers followed by `X-Stamp` with the milliseconds.
    pub fn build_header(&self, now_ms: i64) -> (h: Vec<(String, String)>)
        ensures
            self.header_list().len() == 0 ==> h@.len() == 0,
            self.header_list().len() > 0 ==> headers_view(h@) == self.header_list().push(
                ("X-Stamp"@, signed_decimal_text(now_ms as int)),
            ),
    {
        if self.headers.len() == 0 {
            return Vec::new();
        }
        let mut out: Vec<(String, String)> = Vec::new();
        let n = self.headers.len();
        let mut i: usize = 0;
        while i < n
            invariant
                0 <= i <= n,
                n == self.headers@.len(),
                headers_view(out@) == headers_view(self.headers@).take(i as int),
            decreases n - i,
        {
            let ghost prev = out@;
            let k = self.headers[i].0.clone();
            let v = self.headers[i].1.clone();
            out.push((k, v));
            proof {
                let hv = headers_view(self.headers@);
                assert(out@ == prev.push((k, v)));
                assert(hv[i as int] == (k@, v@));
                assert(headers_view(out@) =~= headers_view(prev).push((k@, v@)));
                assert(hv.take(i + 1) =~= hv.take(i as int).push(hv[i as int]));
            }
            i = i + 1;
        }
        out.push(("X-Stamp".to_string(), signed_decimal_string(now_ms)));
        proof {
            assert(headers_view(self.headers@).take(n as int) == headers_view(self.headers@));
            assert(headers_view(out@) =~= headers_view(self.headers@).push(
                ("X-Stamp"@, signed_decimal_text(now_ms as int)),
            ));
        }
        out
    }
}

} // verus!
