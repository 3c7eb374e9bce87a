//! Text as bytes: the UTF-8 bytes of strings, the text form of unsigned and
//! signed integers and the parsing of an unsigned decimal field.
use vstd::prelude::*;
use vstd::string::StringSliceAdditionalSpecFns;
use vstd::utf8::*;
use vstd::string::StringExecFns;

verus! {

/// The ASCII byte of a decimal digit value `d` (0..=9).
pub open spec fn digit_byte(d: int) -> u8 {
    (d + 48) as u8
}

/// True when `b` is an ASCII decimal digit.
pub open spec fn is_digit(b: u8) -> bool {
    48 <= b <= 57
}

/// The decimal text of `n`, most significant digit first, without leading zeros.
pub open spec fn decimal(n: nat) -> Seq<u8>
    decreases n,
{
    if n < 10 {
        seq![digit_byte(n as int)]
    } else {
        decimal(n / 10).push(digit_byte((n % 10) as int))
    }
}

/// The text of a signed integer: a minus sign before the digits of a negative value.
pub open spec fn signed_decimal(n: int) -> Seq<u8> {
    if n < 0 {
        seq![45u8] + decimal((-n) as nat)
    } else {
        decimal(n as nat)
    }
}

/// True when every byte of `s` is a decimal digit.
pub open spec fn all_digits(s: Seq<u8>) -> bool {
    forall|i: int| 0 <= i < s.len() ==> is_digit(#[trigger] s[i])
}

/// The value of a run of decimal digits (0 for the empty run).
pub open spec fn digits_value(s: Seq<u8>) -> nat
    decreases s.len(),
{
    if s.len() == 0 {
        0
    } else {
        digits_value(s.drop_last()) * 10 + (s.last() - 48) as nat
    }
}

/// The bytes after an optional leading `+`.
pub open spec fn unsigned_digits_part(s: Seq<u8>) -> Seq<u8> {
    if s.len() > 0 && s[0] == 43u8 {
        s.drop_first()
    } else {
        s
    }
}

/// What parsing `s` as an unsigned decimal `usize` gives: an optional leading
/// `+` followed by at least one digit, with a value that fits.
pub open spec fn parse_usize(s: Seq<u8>) -> Option<usize> {
    let d = unsigned_digits_part(s);
    if d.len() > 0 && all_digits(d) && digits_value(d) <= usize::MAX {
        Some(digits_value(d) as usize)
    } else {
        None
    }
}

/// The decimal text of a value has only digits, is never empty, and its value
/// reads back.
pub proof fn lemma_decimal_digits(n: nat)
    ensures
        decimal(n).len() > 0,
        all_digits(decimal(n)),
        digits_value(decimal(n)) == n,
    decreases n,
{
    let d = decimal(n);
    if n >= 10 {
        lemma_decimal_digits(n / 10);
        assert(d.drop_last() == decimal(n / 10));
        assert(d.last() == digit_byte((n % 10) as int));
        assert((d.last() - 48) as nat == n % 10);
        assert((n / 10) * 10 + n % 10 == n);
        assert(digits_value(d) == digits_value(d.drop_last()) * 10 + (d.last() - 48) as nat);
    } else {
        assert(digits_value(d) == digits_value(d.drop_last()) * 10 + (d.last() - 48) as nat);
        assert(d.drop_last() =~= Seq::<u8>::empty());
        assert(d.last() == digit_byte(n as int));
    }
}

/// Appends the decimal text of `n` to `out`.
pub fn push_decimal(out: &mut Vec<u8>, n: u64)
    ensures
        final(out)@ == old(out)@ + decimal(n as nat),
    decreases n,
{
    if n < 10 {
        out.push((n as u8) + 48);
        assert(old(out)@ + decimal(n as nat) == old(out)@.push(digit_byte(n as int)));
    } else {
        push_decimal(out, n / 10);
        out.push(((n % 10) as u8) + 48);
        assert(old(out)@ + decimal(n as nat) == (old(out)@ + decimal((n / 10) as nat)).push(
            digit_byte((n % 10) as int),
        ));
    }
}

/// Appends the text of a signed integer to `out`.
pub fn push_signed_decimal(out: &mut Vec<u8>, n: i64)
    ensures
        final(out)@ == old(out)@ + signed_decimal(n as int),
{
    if n < 0 {
        out.push(45u8);
        let m: u64 = ((-(n + 1)) as u64) + 1;
        assert(m == -n);
        push_decimal(out, m);
        assert(old(out)@.push(45u8) + decimal(m as nat) == old(out)@ + (seq![45u8] + decimal(
            m as nat,
        )));
    } else {
        push_decimal(out, n as u64);
    }
}

/// The decimal text of `n` as a fresh byte vector.
pub fn decimal_bytes(n: u64) -> (v: Vec<u8>)
    ensures
        v@ == decimal(n as nat),
{
    let mut v: Vec<u8> = Vec::new();
    push_decimal(&mut v, n);
    assert(v@ == Seq::<u8>::empty() + decimal(n as nat));
    v
}

proof fn lemma_digits_value_push(s: Seq<u8>, b: u8)
    ensures
        digits_value(s.push(b)) == digits_value(s) * 10 + (b - 48) as nat,
{
    assert(s.push(b).drop_last() == s);
}

/// Parses an unsigned decimal `usize` from bytes: an optional leading `+`
/// followed by one or more digits whose value fits in `usize`; anything else
/// gives `None`. Bytes that are not ASCII never parse.
pub fn parse_usize_decimal(s: &[u8]) -> (r: Option<usize>)
    ensures
        r == parse_usize(s@),
{
    let len = s.len();
    let start: usize = if len > 0 && s[0] == 43u8 { 1 } else { 0 };
    let ghost d = unsigned_digits_part(s@);
    assert(d == s@.subrange(start as int, len as int));
    if start >= len {
        return None;
    }
    let mut acc: usize = 0;
    let mut i: usize = start;
    while i < len
        invariant
            start <= i <= len,
            len == s@.len(),
            d == s@.subrange(start as int, len as int),
            d == unsigned_digits_part(s@),
            all_digits(s@.subrange(start as int, i as int)),
            acc as nat == digits_value(s@.subrange(start as int, i as int)),
        decreases len - i,
    {
        let b = s[i];
        let ghost pre = s@.subrange(start as int, i as int);
        assert(s@.subrange(start as int, i + 1) == pre.push(b));
        if b < 48 || b > 57 {
            let ghost j: int = i - start;
            assert(d[j] == b);
            assert(!is_digit(d[j]));
            assert(!all_digits(d));
            return None;
        }
        let v = (b - 48) as usize;
        proof {
            lemma_digits_value_push(pre, b);
        }
        if acc > (usize::MAX - v) / 10 {
            proof {
                assert(acc * 10 + v > usize::MAX) by (nonlinear_arith)
                    requires
                        acc > (usize::MAX - v) / 10,
                        v <= 9,
                ;
                if all_digits(d) {
                    assert(d.subrange(0, i - start + 1) == s@.subrange(start as int, i + 1));
                    lemma_digits_value_prefix_monotone(d, (i - start + 1) as int);
                }
            }
            return None;
        }
        proof {
            assert(acc * 10 + v <= usize::MAX) by (nonlinear_arith)
                requires
                    acc <= (usize::MAX - v) / 10,
                    v <= 9,
            ;
        }
        acc = acc * 10 + v;
        i = i + 1;
    }
    assert(s@.subrange(start as int, len as int) == d);
    Some(acc)
}

/// The value of a run of digits is at least the value of any prefix of it.
pub proof fn lemma_digits_value_prefix_monotone(s: Seq<u8>, k: int)
    requires
        0 <= k <= s.len(),
        all_digits(s),
    ensures
        digits_value(s.subrange(0, k)) <= digits_value(s),
    decreases s.len() - k,
{
    if k < s.len() {
        lemma_digits_value_prefix_monotone(s, k + 1);
        let p = s.subrange(0, k);
        assert(s.subrange(0, k + 1) == p.push(s[k]));
        lemma_digits_value_push(p, s[k]);
    } else {
        assert(s.subrange(0, k) == s);
    }
}

/// The bytes of a text.
pub open spec fn str_bytes(s: Seq<char>) -> Seq<u8> {
    encode_utf8(s)
}

/// The bytes of an ASCII text hold no byte below 2 when its characters hold
/// none.
pub proof fn lemma_ascii_text_bytes_from(t: Seq<char>)
    requires
        forall|i: int| 0 <= i < t.len() ==> 2 <= #[trigger] t[i] as int <= 127,
    ensures
        forall|j: int| 0 <= j < str_bytes(t).len() ==> #[trigger] str_bytes(t)[j] >= 2,
{
    assert(is_ascii_chars(t));
    is_ascii_chars_encode_utf8(t);
    assert forall|j: int| 0 <= j < str_bytes(t).len() implies #[trigger] str_bytes(t)[j] >= 2 by {
        assert(t[j] as u8 == encode_utf8(t)[j]);
    }
}

/// Appends the bytes of a text.
pub fn push_str(out: &mut Vec<u8>, s: &str)
    ensures
        final(out)@ == old(out)@ + str_bytes(s@),
{
    let b = s.as_bytes();
    let n = b.len();
    let mut i: usize = 0;
    while i < n
        invariant
            0 <= i <= n,
            n == b@.len(),
            b@ == str_bytes(s@),
            out@ == old(out)@ + b@.take(i as int),
        decreases n - i,
    {
        out.push(b[i]);
        assert(b@.take(i + 1) == b@.take(i as int).push(b@[i as int]));
        i = i + 1;
    }
    assert(b@.take(n as int) == b@);
}

/// `String::from_utf8`: `Some` exactly when the bytes are UTF-8, and then the
/// text they encode.
#[verifier::external_body]
pub(crate) fn string_from_utf8(v: Vec<u8>) -> (r: Option<String>)
    ensures
        r is Some <==> valid_utf8(v@),
        r matches Some(s) ==> str_bytes(s@) == v@,
{
    String::from_utf8(v).ok()
}

/// Bytes below 0x80 are UTF-8.
pub proof fn lemma_ascii_valid_utf8(b: Seq<u8>)
    requires
        forall|i: int| 0 <= i < b.len() ==> b[i] < 0x80,
    ensures
        valid_utf8(b),
    decreases b.len(),
{
    if b.len() > 0 {
        assert(pop_first_scalar(b) =~= b.drop_first());
        lemma_ascii_valid_utf8(b.drop_first());
    }
}

/// The decimal text of `n` as characters.
pub open spec fn decimal_text(n: nat) -> Seq<char> {
    decode_utf8(decimal(n))
}

/// The digits of a decimal text are UTF-8, and its characters encode back to them.
pub proof fn lemma_decimal_text_bytes(n: nat)
    ensures
        valid_utf8(decimal(n)),
        str_bytes(decimal_text(n)) == decimal(n),
{
    lemma_decimal_digits(n);
    let d = decimal(n);
    assert forall|i: int| 0 <= i < d.len() implies d[i] < 0x80 by {
        assert(is_digit(d[i]));
    }
    lemma_ascii_valid_utf8(d);
    decode_utf8_encode_utf8(d);
}

/// The decimal text of `n` as a `String`.
pub fn decimal_string(n: u64) -> (s: String)
    ensures
        s@ == decimal_text(n as nat),
        str_bytes(s@) == decimal(n as nat),
{
    let v = decimal_bytes(n);
    proof {
        lemma_decimal_text_bytes(n as nat);
    }
    match string_from_utf8(v) {
        Some(s) => {
            proof {
                encode_utf8_decode_utf8(s@);
            }
            s
        },
        None => String::new(),
    }
}

/// The text of a signed integer as characters.
pub open spec fn signed_decimal_text(n: int) -> Seq<char> {
    decode_utf8(signed_decimal(n))
}

/// The text of a signed integer as a `String`.
pub fn signed_decimal_string(n: i64) -> (s: String)
    ensures
        s@ == signed_decimal_text(n as int),
        str_bytes(s@) == signed_decimal(n as int),
{
    let mut v: Vec<u8> = Vec::new();
    push_signed_decimal(&mut v, n);
    proof {
        let m: nat = if n < 0 { (-n) as nat } else { n as nat };
        lemma_decimal_digits(m);
        assert(v@ == signed_decimal(n as int));
        assert forall|i: int| 0 <= i < v@.len() implies v@[i] < 0x80 by {
            if n < 0 {
                if i > 0 {
                    assert(v@[i] == decimal(m)[i - 1]);
                    assert(is_digit(decimal(m)[i - 1]));
                }
            } else {
                assert(is_digit(decimal(m)[i]));
            }
        }
        lemma_ascii_valid_utf8(v@);
    }
    match string_from_utf8(v) {
        Some(s) => {
            proof {
                encode_utf8_decode_utf8(s@);
            }
            s
        },
        None => String::new(),
    }
}

/// `a` followed by `b`.
pub fn join_text(a: &str, b: &str) -> (s: String)
    ensures
        s@ == a@ + b@,
{
    String::from_str(a).concat(b)
}

/// True when the two texts are equal.
pub fn str_equal(a: &str, b: &str) -> (r: bool)
    ensures
        r == (a@ == b@),
{
    let x = a.as_bytes();
    let y = b.as_bytes();
    proof {
        vstd::utf8::encode_utf8_decode_utf8(a@);
        vstd::utf8::encode_utf8_decode_utf8(b@);
    }
    if x.len() != y.len() {
        return false;
    }
    let mut i: usize = 0;
    while i < x.len()
        invariant
            0 <= i <= x@.len(),
            x@.len() == y@.len(),
            x@ == str_bytes(a@),
            y@ == str_bytes(b@),
            forall|j: int| 0 <= j < i ==> x@[j] == y@[j],
        decreases x@.len() - i,
    {
        if x[i] != y[i] {
            return false;
        }
        i = i + 1;
    }
    assert(x@ =~= y@);
    true
}

} // verus!
