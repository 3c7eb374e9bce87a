//! FIX (Financial Information eXchange) messages.
//!
//! A message is a sequence of `tag=value` fields, each ended by SOH (0x01):
//! the header `8=BeginString`, `9=BodyLength`, `35=MsgType`, `34=MsgSeqNum`,
//! `49=SenderCompID`, `52=SendingTime`, `56=TargetCompID`, then the body
//! fields, then the trailer `10=CheckSum`. BodyLength counts the bytes from
//! `35=` up to (not including) `10=`; CheckSum is the sum of all bytes before
//! `10=` modulo 256, written with three digits.
use vstd::prelude::*;
use vstd::string::StringSliceAdditionalSpecFns;
use vstd::utf8::*;

use crate::crypto::{base64_decode, base64_encode, hmac_sha512_tag, sha256_digest, str_from_utf8};
use crate::crypto::{base64_standard, base64_standard_decode, hmac_sha512, sha256};
use crate::text::{lemma_decimal_digits, push_signed_decimal, signed_decimal};
use crate::text::{lemma_ascii_valid_utf8, push_str, str_bytes, string_from_utf8};
use crate::text::{
    all_digits, decimal, digit_byte, digits_value, is_digit, parse_usize, parse_usize_decimal,
    push_decimal,
};

verus! {

/// The field separator.
pub const SOH: u8 = 0x01;

/// `tag=value`, without the separator.
pub open spec fn field(tag: nat, value: Seq<u8>) -> Seq<u8> {
    decimal(tag) + seq![61u8] + value
}

/// A view of `(tag, value)` pairs.
pub open spec fn fields_view(fields: Seq<(u32, String)>) -> Seq<(u32, Seq<char>)> {
    fields.map_values(|f: (u32, String)| (f.0, f.1@))
}

/// The body fields, each followed by SOH.
pub open spec fn body_fields_text(fields: Seq<(u32, Seq<char>)>) -> Seq<u8>
    decreases fields.len(),
{
    if fields.len() == 0 {
        seq![]
    } else {
        body_fields_text(fields.drop_last()) + field(
            fields.last().0 as nat,
            str_bytes(fields.last().1),
        ).push(SOH)
    }
}

/// The bytes that follow the BodyLength digits: SOH, the standard header fields
/// from MsgType on, and the body fields.
pub open spec fn fix_body(
    msg_type: Seq<char>,
    seq_num: u32,
    sender: Seq<char>,
    sending_time: Seq<char>,
    target: Seq<char>,
    fields: Seq<(u32, Seq<char>)>,
) -> Seq<u8> {
    seq![SOH] + field(35, str_bytes(msg_type)).push(SOH) + field(34, decimal(seq_num as nat)).push(
        SOH,
    ) + field(49, str_bytes(sender)).push(SOH) + field(52, str_bytes(sending_time)).push(SOH)
        + field(56, str_bytes(target)).push(SOH) + body_fields_text(fields)
}

/// Everything before the CheckSum field: BeginString, BodyLength and the body.
pub open spec fn fix_head(version: Seq<char>, body: Seq<u8>) -> Seq<u8> {
    field(8, str_bytes(version)).push(SOH) + field(9, decimal((body.len() - 1) as nat)) + body
}

/// Sum of the byte values.
pub open spec fn byte_sum(s: Seq<u8>) -> nat
    decreases s.len(),
{
    if s.len() == 0 {
        0
    } else {
        byte_sum(s.drop_last()) + s.last() as nat
    }
}

/// Three decimal digits of a value below 1000, zero-padded.
pub open spec fn three_digits(c: nat) -> Seq<u8> {
    seq![digit_byte((c / 100) as int), digit_byte(((c / 10) % 10) as int), digit_byte((c % 10) as int)]
}

/// The SendingTime format: `YYYYMMDD-HH:MM:SS.sss` in UTC.
pub open spec fn fix_time_format() -> Seq<char> {
    "%Y%m%d-%H:%M:%S.%3f"@
}

/// The text `chrono` writes for the UTC instant `ms` milliseconds after the
/// Unix epoch under the format `fmt`; `None` when the instant is outside the
/// range `chrono` represents.
pub uninterp spec fn chrono_utc_text(ms: int, fmt: Seq<char>) -> Option<Seq<char>>;

/// `chrono::DateTime::from_timestamp_millis` followed by `format(fmt)` and
/// `to_string()`. `None` exactly when the instant is out of range; the text is
/// named. Only the SendingTime format is passed, for which formatting cannot
/// fail.
#[verifier::external_body]
fn format_utc_millis(ms: i64, fmt: &str) -> (r: Option<String>)
    requires
        fmt@ == fix_time_format(),
    ensures
        r is None <==> chrono_utc_text(ms as int, fmt@) is None,
        r matches Some(t) ==> chrono_utc_text(ms as int, fmt@) == Some(t@),
{
    match chrono::DateTime::from_timestamp_millis(ms) {
        Some(t) => Some(t.format(fmt).to_string()),
        None => None,
    }
}

/// The SendingTime text of the UTC instant `ms` milliseconds after the epoch.
pub fn fix_sending_time(ms: i64) -> (r: Option<String>)
    ensures
        r is None <==> chrono_utc_text(ms as int, fix_time_format()) is None,
        r matches Some(t) ==> chrono_utc_text(ms as int, fix_time_format()) == Some(t@),
{
    let fmt = "%Y%m%d-%H:%M:%S.%3f";
    format_utc_millis(ms, fmt)
}

/// Why a Kraken logon password could not be computed.
#[derive(Debug, Clone, Copy, PartialEq, Eq, Structural)]
pub enum PasswordError {
    /// The API secret is not standard base64.
    SecretNotBase64,
    /// The HMAC key was refused.
    InvalidKeyLength,
}

/// The Kraken logon password: base64 of HMAC-SHA512, keyed with the decoded
/// API secret, of the SHA-256 digest of the logon input followed by the nonce.
pub open spec fn kraken_password(secret: Seq<u8>, input: Seq<u8>, nonce: Seq<u8>) -> Seq<char> {
    base64_standard(hmac_sha512(secret, sha256(input + nonce)))
}

/// The text signed in a Kraken logon:
/// `35=A|34=1|49=<sender>|56=<target>|553=<api key>|`.
pub open spec fn kraken_logon_input(sender: Seq<char>, target: Seq<char>, api_key: Seq<char>) -> Seq<u8> {
    field(35, seq![65u8]).push(SOH) + field(34, decimal(1)).push(SOH) + field(49, str_bytes(sender)).push(
        SOH,
    ) + field(56, str_bytes(target)).push(SOH) + field(553, str_bytes(api_key)).push(SOH)
}

/// The body fields of a Kraken logon: EncryptMethod, HeartBtInt,
/// ResetSeqNumFlag, the API key, the password and the nonce.
pub open spec fn kraken_logon_fields(api_key: Seq<char>, password: Seq<char>, nonce: Seq<char>) -> Seq<(u32, Seq<char>)> {
    seq![(98u32, "0"@), (108u32, "60"@), (141u32, "N"@), (553u32, api_key), (554u32, password), (5025u32, nonce)]
}

/// The nonce of a logon at `ms`: its decimal text.
pub open spec fn kraken_nonce(ms: i64) -> Seq<char> {
    decode_utf8(signed_decimal(ms as int))
}

/// A complete message: the head followed by its CheckSum field.
pub open spec fn fix_frame(head: Seq<u8>) -> Seq<u8> {
    head + field(10, three_digits(byte_sum(head) % 256)).push(SOH)
}

/// The first position of `b` in `s`, if it occurs.
#[verifier::opaque]
pub open spec fn find_byte(s: Seq<u8>, b: u8) -> Option<int> {
    if exists|i: int| 0 <= i < s.len() && s[i] == b && forall|j: int| 0 <= j < i ==> s[j] != b {
        Some(choose|i: int| 0 <= i < s.len() && s[i] == b && forall|j: int| 0 <= j < i ==> s[j] != b)
    } else {
        None
    }
}

/// What the start of a receive buffer says about the message at its front.
pub enum FixHeaderScan {
    /// More bytes are needed to read BeginString and BodyLength.
    Incomplete,
    /// The buffer does not start with a well-formed FIX header.
    Invalid,
    /// The header is complete: `header_len` bytes up to and including the SOH
    /// after BodyLength, whose value is `body_len`.
    Complete { header_len: usize, body_len: usize },
}

/// The scan of the front of a receive buffer: at least 18 bytes, `8=` at the
/// start, `9=` right after the first SOH, then a BodyLength ended by SOH.
/// Bytes that may still grow into such a header are incomplete, not invalid.
pub open spec fn fix_header_scan(buf: Seq<u8>) -> FixHeaderScan {
    if buf.len() < 18 {
        FixHeaderScan::Incomplete
    } else if buf[0] != 56u8 || buf[1] != 61u8 {
        FixHeaderScan::Invalid
    } else {
        match find_byte(buf, SOH) {
            None => FixHeaderScan::Incomplete,
            Some(be) => if buf.len() < be + 3 {
                if buf.len() == be + 2 && buf[be + 1] != 57u8 {
                    FixHeaderScan::Invalid
                } else {
                    FixHeaderScan::Incomplete
                }
            } else if buf[be + 1] != 57u8 || buf[be + 2] != 61u8 {
                FixHeaderScan::Invalid
            } else {
                match find_byte(buf.skip(be + 3), SOH) {
                    None => FixHeaderScan::Incomplete,
                    Some(rel) => match parse_usize(buf.subrange(be + 3, be + 3 + rel)) {
                        None => FixHeaderScan::Invalid,
                        Some(bl) => FixHeaderScan::Complete {
                            header_len: (be + 3 + rel + 1) as usize,
                            body_len: bl,
                        },
                    },
                }
            },
        }
    }
}

/// Extraction of the message at the front of a receive buffer: the message
/// taken out, if a complete one is there, and what the buffer holds after.
/// An invalid header empties the buffer, and so does a BodyLength whose
/// message length would not fit in `usize`; an incomplete header leaves the
/// buffer alone.
pub open spec fn fix_extract(buf: Seq<u8>) -> (Option<Seq<u8>>, Seq<u8>) {
    match fix_header_scan(buf) {
        FixHeaderScan::Incomplete => (None, buf),
        FixHeaderScan::Invalid => (None, Seq::empty()),
        FixHeaderScan::Complete { header_len, body_len } => {
            let total = header_len + body_len + 7;
            if total > usize::MAX {
                (None, Seq::empty())
            } else if buf.len() < total {
                (None, buf)
            } else {
                (Some(buf.take(total)), buf.skip(total))
            }
        },
    }
}

proof fn lemma_find_byte_at(s: Seq<u8>, b: u8, i: int)
    requires
        0 <= i < s.len(),
        s[i] == b,
        forall|j: int| 0 <= j < i ==> s[j] != b,
    ensures
        find_byte(s, b) == Some(i),
{
    reveal(find_byte);
    let k = choose|k: int| 0 <= k < s.len() && s[k] == b && forall|j: int| 0 <= j < k ==> s[j] != b;
    assert(0 <= k < s.len() && s[k] == b && forall|j: int| 0 <= j < k ==> s[j] != b);
    if k < i {
        assert(s[k] != b);
    } else if k > i {
        assert(s[i] != b);
    }
}

proof fn lemma_find_byte_none(s: Seq<u8>, b: u8)
    requires
        forall|j: int| 0 <= j < s.len() ==> s[j] != b,
    ensures
        find_byte(s, b) is None,
{
    reveal(find_byte);
}

pub proof fn lemma_find_byte_bounds(s: Seq<u8>, b: u8)
    ensures
        find_byte(s, b) matches Some(i) ==> 0 <= i < s.len() && s[i] == b && forall|j: int|
            0 <= j < i ==> s[j] != b,
        find_byte(s, b) is None ==> forall|j: int| 0 <= j < s.len() ==> s[j] != b,
{
    reveal(find_byte);
    if find_byte(s, b) is None {
        assert forall|j: int| 0 <= j < s.len() implies s[j] != b by {
            if s[j] == b {
                let i = first_at_or_before(s, b, j);
                assert(0 <= i < s.len() && s[i] == b && forall|k: int| 0 <= k < i ==> s[k] != b);
            }
        }
    }
}

/// A position of the first occurrence of `b` at or before position `j`,
/// where `s[j] == b`.
pub proof fn first_at_or_before(s: Seq<u8>, b: u8, j: int) -> (i: int)
    requires
        0 <= j < s.len(),
        s[j] == b,
    ensures
        0 <= i <= j,
        s[i] == b,
        forall|k: int| 0 <= k < i ==> s[k] != b,
    decreases j,
{
    if exists|k: int| 0 <= k < j && s[k] == b {
        let k = choose|k: int| 0 <= k < j && s[k] == b;
        first_at_or_before(s, b, k)
    } else {
        j
    }
}

/// A receive buffer of the `bytes` crate.
#[verifier::external_type_specification]
#[verifier::external_body]
pub struct ExBytesMut(bytes::BytesMut);

/// The bytes a receive buffer holds, in order.
pub uninterp spec fn buffer_bytes(b: bytes::BytesMut) -> Seq<u8>;

/// `bytes::BytesMut` dereferenced to a slice: the bytes the buffer holds.
#[verifier::external_body]
fn buffer_slice(b: &bytes::BytesMut) -> (s: &[u8])
    ensures
        s@ == buffer_bytes(*b),
{
    &b[..]
}

/// `bytes::BytesMut::clear`: the buffer holds nothing afterwards.
#[verifier::external_body]
fn buffer_clear(b: &mut bytes::BytesMut)
    ensures
        buffer_bytes(*final(b)) == Seq::<u8>::empty(),
{
    b.clear()
}

/// `bytes::BytesMut::split_to`: the first `at` bytes leave the buffer and
/// are returned; the rest stay, in order. The crate panics when `at` passes
/// the end, which `requires` rules out.
#[verifier::external_body]
fn buffer_split_to(b: &mut bytes::BytesMut, at: usize) -> (front: bytes::BytesMut)
    requires
        at <= buffer_bytes(*old(b)).len(),
    ensures
        buffer_bytes(front) == buffer_bytes(*old(b)).take(at as int),
        buffer_bytes(*final(b)) == buffer_bytes(*old(b)).skip(at as int),
{
    b.split_to(at)
}

/// `memchr::memchr`: the position of the first occurrence of `needle` in
/// `haystack`, or `None` when it does not occur (as the crate documents it).
#[verifier::external_body]
fn memchr(needle: u8, haystack: &[u8]) -> (r: Option<usize>)
    ensures
        r matches Some(i) ==> i < haystack@.len() && haystack@[i as int] == needle && forall|j: int|
            0 <= j < i ==> haystack@[j] != needle,
        r is None ==> forall|j: int| 0 <= j < haystack@.len() ==> haystack@[j] != needle,
{
    memchr::memchr(needle, haystack)
}

/// `memchr` as `find_byte`.
fn find(needle: u8, haystack: &[u8]) -> (r: Option<usize>)
    ensures
        r matches Some(i) ==> find_byte(haystack@, needle) == Some(i as int),
        r is None ==> find_byte(haystack@, needle) is None,
{
    let r = memchr(needle, haystack);
    match r {
        Some(i) => {
            proof {
                lemma_find_byte_at(haystack@, needle, i as int);
            }
        },
        None => {
            proof {
                lemma_find_byte_none(haystack@, needle);
            }
        },
    }
    r
}

/// Scans the front of a receive buffer for BeginString and BodyLength.
pub fn scan_fix_header(buf: &[u8]) -> (r: FixHeaderScan)
    ensures
        r == fix_header_scan(buf@),
{
    let len = buf.len();
    if len < 18 {
        return FixHeaderScan::Incomplete;
    }
    if buf[0] != 56u8 || buf[1] != 61u8 {
        return FixHeaderScan::Invalid;
    }
    let be = match find(SOH, buf) {
        Some(i) => i,
        None => {
            return FixHeaderScan::Incomplete;
        },
    };
    proof {
        lemma_find_byte_bounds(buf@, SOH);
    }
    if len - be < 3 {
        if len - be == 2 && buf[be + 1] != 57u8 {
            return FixHeaderScan::Invalid;
        }
        return FixHeaderScan::Incomplete;
    }
    if buf[be + 1] != 57u8 || buf[be + 2] != 61u8 {
        return FixHeaderScan::Invalid;
    }
    let start = be + 3;
    let tail = vstd::slice::slice_subrange(buf, start, len);
    assert(tail@ == buf@.skip(start as int));
    let ble = match find(SOH, tail) {
        Some(rel) => {
            proof {
                lemma_find_byte_bounds(tail@, SOH);
            }
            start + rel
        },
        None => {
            return FixHeaderScan::Incomplete;
        },
    };
    let digits = vstd::slice::slice_subrange(buf, start, ble);
    match parse_usize_decimal(digits) {
        None => FixHeaderScan::Invalid,
        Some(bl) => FixHeaderScan::Complete { header_len: ble + 1, body_len: bl },
    }
}

/// A message whose BeginString holds no SOH, at the front of a buffer, is
/// scanned with the header length and BodyLength it was written with.
#[verifier::rlimit(40)]
proof fn lemma_scan_frame(version: Seq<char>, body: Seq<u8>, rest: Seq<u8>)
    requires
        !str_bytes(version).contains(SOH),
        body.len() >= 6,
        body[0] == SOH,
        fix_frame(fix_head(version, body)).len() + rest.len() <= usize::MAX,
    ensures
        ({
            let frame = fix_frame(fix_head(version, body));
            &&& fix_header_scan(frame + rest) matches FixHeaderScan::Complete { header_len, body_len }
            &&& header_len + body_len + 7 == frame.len()
            &&& fix_extract(frame + rest) == (Some(frame), rest)
        }),
{
    let v = str_bytes(version);
    let n = (body.len() - 1) as nat;
    let d = decimal(n);
    let head = fix_head(version, body);
    let frame = fix_frame(head);
    let buf = frame + rest;
    lemma_decimal_digits(n);
    reveal_with_fuel(decimal, 2);
    assert(decimal(8) == seq![56u8]);
    assert(decimal(9) == seq![57u8]);
    assert(head =~= seq![56u8, 61u8] + v + seq![SOH, 57u8, 61u8] + d + body);
    let be: int = 2 + v.len() as int;
    assert(buf[be] == SOH);
    assert forall|j: int| 0 <= j < be implies buf[j] != SOH by {
        if j >= 2 {
            assert(buf[j] == v[j - 2]);
            assert(!v.contains(SOH));
        }
    }
    lemma_find_byte_at(buf, SOH, be);
    let tail = buf.skip(be + 3);
    assert(tail[d.len() as int] == SOH);
    assert forall|j: int| 0 <= j < d.len() implies tail[j] != SOH by {
        assert(tail[j] == d[j]);
        assert(is_digit(d[j]));
    }
    lemma_find_byte_at(tail, SOH, d.len() as int);
    assert(buf.subrange(be + 3, be + 3 + d.len() as int) =~= d);
    assert(d[0] != 43u8) by {
        assert(is_digit(d[0]));
    }
    assert(parse_usize(d) == Some(n as usize));
    assert(frame.len() == head.len() + 7);
    assert(buf.take(frame.len() as int) =~= frame);
    assert(buf.skip(frame.len() as int) =~= rest);
}

/// Every strict prefix of a message whose BeginString holds no SOH is
/// scanned as incomplete or as a header whose message is not all there.
#[verifier::rlimit(40)]
proof fn lemma_scan_prefix(version: Seq<char>, body: Seq<u8>, k: int)
    requires
        !str_bytes(version).contains(SOH),
        body.len() >= 6,
        body[0] == SOH,
        fix_frame(fix_head(version, body)).len() <= usize::MAX,
        0 <= k < fix_frame(fix_head(version, body)).len(),
    ensures
        fix_extract(fix_frame(fix_head(version, body)).take(k)) == (
            None::<Seq<u8>>,
            fix_frame(fix_head(version, body)).take(k),
        ),
{
    let v = str_bytes(version);
    let n = (body.len() - 1) as nat;
    let d = decimal(n);
    let head = fix_head(version, body);
    let frame = fix_frame(head);
    let buf = frame.take(k);
    if k >= 18 {
        lemma_decimal_digits(n);
        reveal_with_fuel(decimal, 2);
        assert(decimal(8) == seq![56u8]);
        assert(decimal(9) == seq![57u8]);
        assert(head =~= seq![56u8, 61u8] + v + seq![SOH, 57u8, 61u8] + d + body);
        assert(frame.len() == head.len() + 7);
        let be: int = 2 + v.len() as int;
        assert(buf[0] == 56u8 && buf[1] == 61u8);
        assert forall|j: int| 0 <= j < be && j < k implies buf[j] != SOH by {
            if j >= 2 {
                assert(buf[j] == v[j - 2]);
                assert(!v.contains(SOH));
            }
        }
        if k <= be {
            lemma_find_byte_none(buf, SOH);
        } else {
            assert(buf[be] == SOH);
            lemma_find_byte_at(buf, SOH, be);
            if k < be + 3 {
                assert(k == be + 2 ==> buf[be + 1] == 57u8);
            } else {
                let tail = buf.skip(be + 3);
                assert forall|j: int| 0 <= j < d.len() && j < tail.len() implies tail[j] != SOH by {
                    assert(tail[j] == d[j]);
                    assert(is_digit(d[j]));
                }
                if k - (be + 3) <= d.len() {
                    lemma_find_byte_none(tail, SOH);
                } else {
                    assert(tail[d.len() as int] == SOH);
                    lemma_find_byte_at(tail, SOH, d.len() as int);
                    assert(buf.subrange(be + 3, be + 3 + d.len() as int) =~= d);
                    assert(d[0] != 43u8) by {
                        assert(is_digit(d[0]));
                    }
                    assert(parse_usize(d) == Some(n as usize));
                }
            }
        }
    }
}

/// Law: extraction loses, adds and reorders no byte: a message taken out,
/// followed by what stays in the buffer, is the buffer as it was; when no
/// message is taken out, the buffer is kept whole or emptied.
pub proof fn lemma_extract_keeps_bytes(buf: Seq<u8>)
    ensures
        fix_extract(buf).0 matches Some(f) ==> f + fix_extract(buf).1 == buf,
        fix_extract(buf).0 is None ==> (fix_extract(buf).1 == buf || fix_extract(buf).1.len() == 0),
{
    if fix_extract(buf).0 is Some {
        let f = fix_extract(buf).0->0;
        assert(f + fix_extract(buf).1 =~= buf);
    }
}

/// Law: every strict prefix of a message that a buffer gives whole on
/// extraction gives no message and is kept whole, so that the message is
/// taken out once the rest of it has arrived.
#[verifier::rlimit(40)]
pub proof fn lemma_extract_waits_on_any_prefix(buf: Seq<u8>, k: int)
    requires
        fix_extract(buf).0 is Some,
        0 <= k < fix_extract(buf).0->0.len(),
    ensures
        fix_extract(buf.take(k)) == (None::<Seq<u8>>, buf.take(k)),
{
    let p = buf.take(k);
    if k >= 18 {
        lemma_find_byte_bounds(buf, SOH);
        let be = find_byte(buf, SOH)->0;
        let tail = buf.skip(be + 3);
        lemma_find_byte_bounds(tail, SOH);
        let rel = find_byte(tail, SOH)->0;
        assert(buf.len() >= 18 && buf[0] == 56u8 && buf[1] == 61u8);
        assert(buf[be + 1] == 57u8 && buf[be + 2] == 61u8);
        assert(p[0] == buf[0] && p[1] == buf[1]);
        if k <= be {
            assert forall|j: int| 0 <= j < p.len() implies p[j] != SOH by {
                assert(p[j] == buf[j]);
            }
            lemma_find_byte_none(p, SOH);
        } else {
            assert forall|j: int| 0 <= j < be implies p[j] != SOH by {
                assert(p[j] == buf[j]);
            }
            lemma_find_byte_at(p, SOH, be);
            if k >= be + 3 {
                let tp = p.skip(be + 3);
                assert(p[be + 1] == buf[be + 1] && p[be + 2] == buf[be + 2]);
                if k - (be + 3) <= rel {
                    assert forall|j: int| 0 <= j < tp.len() implies tp[j] != SOH by {
                        assert(tp[j] == tail[j]);
                    }
                    lemma_find_byte_none(tp, SOH);
                } else {
                    assert forall|j: int| 0 <= j < rel implies tp[j] != SOH by {
                        assert(tp[j] == tail[j]);
                    }
                    assert(tp[rel] == tail[rel]);
                    lemma_find_byte_at(tp, SOH, rel);
                    assert(p.subrange(be + 3, be + 3 + rel) =~= buf.subrange(be + 3, be + 3 + rel));
                }
            } else {
                assert(k == be + 2 ==> p[be + 1] == buf[be + 1]);
            }
        }
    }
}

/// Law: every strict prefix of a message this builder wrote, with a
/// BeginString free of SOH, gives no message and is kept whole, so that the
/// message is taken out once the rest of it has arrived.
pub proof fn lemma_extract_waits_on_prefix(
    b: FixMessageBuilder,
    fields: Seq<(u32, Seq<char>)>,
    msg_type: Seq<char>,
    seq_num: u32,
    sending_time: Seq<char>,
    k: int,
)
    requires
        !str_bytes(b.fix_version@).contains(SOH),
        b.frame_for(fields, msg_type, seq_num, sending_time).len() <= usize::MAX,
        0 <= k < b.frame_for(fields, msg_type, seq_num, sending_time).len(),
    ensures
        ({
            let prefix = b.frame_for(fields, msg_type, seq_num, sending_time).take(k);
            fix_extract(prefix) == (None::<Seq<u8>>, prefix)
        }),
{
    let body = fix_body(msg_type, seq_num, b.sender_comp_id@, sending_time, b.target_comp_id@, fields);
    assert(body[0] == SOH);
    reveal_with_fuel(decimal, 2);
    assert(body.len() >= 6);
    lemma_scan_prefix(b.fix_version@, body, k);
}

/// Law: a receive buffer whose front is a message this builder wrote, with a
/// BeginString free of SOH, gives back exactly that message on extraction and
/// keeps the bytes that followed it.
pub proof fn lemma_extract_returns_built_message(
    b: FixMessageBuilder,
    fields: Seq<(u32, Seq<char>)>,
    msg_type: Seq<char>,
    seq_num: u32,
    sending_time: Seq<char>,
    rest: Seq<u8>,
)
    requires
        !str_bytes(b.fix_version@).contains(SOH),
        b.frame_for(fields, msg_type, seq_num, sending_time).len() + rest.len() <= usize::MAX,
    ensures
        ({
            let frame = b.frame_for(fields, msg_type, seq_num, sending_time);
            &&& fix_header_scan(frame + rest) matches FixHeaderScan::Complete { header_len, body_len }
            &&& header_len + body_len + 7 == frame.len()
            &&& fix_extract(frame + rest) == (Some(frame), rest)
        }),
{
    let body = fix_body(msg_type, seq_num, b.sender_comp_id@, sending_time, b.target_comp_id@, fields);
    assert(body[0] == SOH);
    reveal_with_fuel(decimal, 2);
    assert(body.len() >= 6);
    lemma_scan_frame(b.fix_version@, body, rest);
}

/// A field free of SOH, followed by SOH, is split off the front.
proof fn lemma_split_front(f: Seq<u8>, rest: Seq<u8>)
    requires
        !f.contains(SOH),
    ensures
        split_field(f + seq![SOH] + rest) == (f, rest),
{
    let s = f + seq![SOH] + rest;
    assert forall|j: int| 0 <= j < f.len() implies s[j] != SOH by {
        assert(s[j] == f[j]);
    }
    lemma_find_byte_at(s, SOH, f.len() as int);
    assert(s.take(f.len() as int) =~= f);
    assert(s.skip(f.len() as int + 1) =~= rest);
}

/// A run of digits is all leading digits.
proof fn lemma_leading_digits_whole(s: Seq<u8>)
    requires
        all_digits(s),
    ensures
        leading_digit_count(s) == s.len(),
    decreases s.len(),
{
    if s.len() > 0 {
        assert(is_digit(s[0]));
        assert forall|i: int| 0 <= i < s.drop_first().len() implies is_digit(#[trigger] s.drop_first()[i]) by {
            assert(s.drop_first()[i] == s[i + 1]);
        }
        lemma_leading_digits_whole(s.drop_first());
    }
}

/// The field `tag=value` has the tag `tag`, the value `value`, and a tag
/// that fits.
proof fn lemma_field_parts(tag: u32, value: Seq<u8>)
    ensures
        forall|key: u32| #[trigger] field_has_tag(field(tag as nat, value), key) <==> key == tag,
        value_of(field(tag as nat, value)) == value,
        tag_fits(field(tag as nat, value)),
{
    let d = decimal(tag as nat);
    let f = field(tag as nat, value);
    lemma_decimal_digits(tag as nat);
    assert forall|j: int| 0 <= j < d.len() implies f[j] != 61u8 by {
        assert(f[j] == d[j]);
        assert(is_digit(d[j]));
    }
    lemma_find_byte_at(f, 61u8, d.len() as int);
    assert(f.take(d.len() as int) =~= d);
    assert(f.skip(d.len() as int + 1) =~= value);
    lemma_leading_digits_whole(d);
    assert(d.take(d.len() as int) =~= d);
}

/// A field whose tag and value hold no SOH holds none.
proof fn lemma_field_no_soh(tag: u32, value: Seq<u8>)
    requires
        !value.contains(SOH),
    ensures
        !field(tag as nat, value).contains(SOH),
{
    let d = decimal(tag as nat);
    let f = field(tag as nat, value);
    lemma_decimal_digits(tag as nat);
    assert forall|j: int| 0 <= j < f.len() implies f[j] != SOH by {
        if j < d.len() {
            assert(f[j] == d[j]);
            assert(is_digit(d[j]));
        } else if j > d.len() {
            assert(f[j] == value[j - d.len() - 1]);
        }
    }
}

/// Law: the MsgType of a message this builder wrote reads back. Looking up
/// tag 35 with `first_stop` in the message finds exactly its MsgType, and
/// every tag read on the way fits, so `get_field_value` accepts the message.
/// BeginString and MsgType must be free of SOH.
pub proof fn lemma_built_message_type(
    b: FixMessageBuilder,
    fields: Seq<(u32, Seq<char>)>,
    msg_type: Seq<char>,
    seq_num: u32,
    sending_time: Seq<char>,
)
    requires
        !str_bytes(b.fix_version@).contains(SOH),
        !str_bytes(msg_type).contains(SOH),
    ensures
        field_scan_fits(b.frame_for(fields, msg_type, seq_num, sending_time), 35, true),
        field_values(b.frame_for(fields, msg_type, seq_num, sending_time), 35, true) == seq![msg_type],
{
    let v = str_bytes(b.fix_version@);
    let m = str_bytes(msg_type);
    let body = fix_body(msg_type, seq_num, b.sender_comp_id@, sending_time, b.target_comp_id@, fields);
    let head = fix_head(b.fix_version@, body);
    let frame = fix_frame(head);
    let cks = field(10, three_digits(byte_sum(head) % 256)).push(SOH);
    let d = decimal((body.len() - 1) as nat);
    let f1 = field(8, v);
    let f2 = field(9, d);
    let f3 = field(35, m);
    let tail = body.skip(f3.len() as int + 2);
    let r2 = f2 + body + cks;
    let r3 = tail + cks;
    assert(body =~= seq![SOH] + f3 + seq![SOH] + tail);
    assert(head =~= f1 + seq![SOH] + f2 + body);
    assert(frame =~= f1 + seq![SOH] + r2);
    assert(r2 =~= f2 + seq![SOH] + (f3 + seq![SOH] + r3));
    lemma_decimal_digits((body.len() - 1) as nat);
    assert(!d.contains(SOH)) by {
        assert forall|j: int| 0 <= j < d.len() implies d[j] != SOH by {
            assert(is_digit(d[j]));
        }
    }
    lemma_field_no_soh(8, v);
    lemma_field_no_soh(9, d);
    lemma_field_no_soh(35, m);
    lemma_split_front(f1, r2);
    lemma_split_front(f2, f3 + seq![SOH] + r3);
    lemma_split_front(f3, r3);
    lemma_field_parts(8, v);
    lemma_field_parts(9, d);
    lemma_field_parts(35, m);
    assert(!field_has_tag(f1, 35));
    assert(!field_has_tag(f2, 35));
    assert(field_has_tag(f3, 35));
    encode_utf8_valid_utf8(msg_type);
    encode_utf8_decode_utf8(msg_type);
    assert(field_hit(f3, 35));
    assert(field_values(f3 + seq![SOH] + r3, 35, true) == seq![msg_type]);
    assert(field_values(r2, 35, true) == seq![msg_type]);
    assert(field_values(frame, 35, true) == seq![msg_type]);
    reveal_with_fuel(field_scan_fits, 3);
    assert(field_scan_fits(f3 + seq![SOH] + r3, 35, true));
    assert(field_scan_fits(r2, 35, true));
}

/// The field at the front of `rest` (up to its SOH, or all of `rest` when no
/// SOH follows) and the bytes after that SOH.
pub open spec fn split_field(rest: Seq<u8>) -> (Seq<u8>, Seq<u8>) {
    match find_byte(rest, SOH) {
        Some(e) => (rest.take(e), rest.skip(e + 1)),
        None => (rest, Seq::empty()),
    }
}

/// The value of a field: what follows its first `=`.
pub open spec fn value_of(f: Seq<u8>) -> Seq<u8> {
    match find_byte(f, 61u8) {
        Some(eq) => f.skip(eq + 1),
        None => Seq::empty(),
    }
}

/// True when the part of the field before its first `=` is all digits (or
/// empty) with the value `key`.
pub open spec fn field_has_tag(f: Seq<u8>, key: u32) -> bool {
    match find_byte(f, 61u8) {
        Some(eq) => all_digits(f.take(eq)) && digits_value(f.take(eq)) == key,
        None => false,
    }
}

/// The field has tag `key` and a value that is well-formed UTF-8.
pub open spec fn field_hit(f: Seq<u8>, key: u32) -> bool {
    field_has_tag(f, key) && valid_utf8(value_of(f))
}

/// The values of the fields with tag `key` in `rest`, in order; only the
/// first one when `first_stop`. Values that are not UTF-8 are passed over.
pub open spec fn field_values(rest: Seq<u8>, key: u32, first_stop: bool) -> Seq<Seq<char>>
    decreases rest.len(),
{
    if rest.len() == 0 {
        seq![]
    } else {
        proof {
            lemma_find_byte_bounds(rest, SOH);
        }
        let f = split_field(rest);
        if field_hit(f.0, key) {
            if first_stop {
                seq![decode_utf8(value_of(f.0))]
            } else {
                seq![decode_utf8(value_of(f.0))] + field_values(f.1, key, first_stop)
            }
        } else {
            field_values(f.1, key, first_stop)
        }
    }
}

/// Law: the lookup that stops at the first hit finds exactly the first value
/// of the full lookup (nothing when the full lookup finds nothing).
pub proof fn lemma_first_value(rest: Seq<u8>, key: u32)
    ensures
        field_values(rest, key, true) == (if field_values(rest, key, false).len() == 0 {
            Seq::<Seq<char>>::empty()
        } else {
            seq![field_values(rest, key, false)[0]]
        }),
    decreases rest.len(),
{
    if rest.len() == 0 {
        assert(field_values(rest, key, false) =~= Seq::<Seq<char>>::empty());
        assert(field_values(rest, key, true) =~= Seq::<Seq<char>>::empty());
    } else {
        lemma_find_byte_bounds(rest, SOH);
        let f = split_field(rest);
        if !field_hit(f.0, key) {
            lemma_first_value(f.1, key);
        }
    }
}

/// The values of the fields with tag `key`, in order.
pub open spec fn tagged_values(fields: Seq<(u32, Seq<char>)>, key: u32) -> Seq<Seq<char>>
    decreases fields.len(),
{
    if fields.len() == 0 {
        seq![]
    } else if fields.last().0 == key {
        tagged_values(fields.drop_last(), key).push(fields.last().1)
    } else {
        tagged_values(fields.drop_last(), key)
    }
}

/// No field value holds SOH.
pub open spec fn values_free_of_soh(fields: Seq<(u32, Seq<char>)>) -> bool {
    forall|i: int| 0 <= i < fields.len() ==> !str_bytes(#[trigger] fields[i].1).contains(SOH)
}

/// A field free of SOH at the front contributes its value when it is a hit,
/// and the lookup goes on after it.
proof fn lemma_values_past_field(f: Seq<u8>, rest: Seq<u8>, key: u32)
    requires
        !f.contains(SOH),
    ensures
        field_values(f + seq![SOH] + rest, key, false) == (if field_hit(f, key) {
            seq![decode_utf8(value_of(f))]
        } else {
            Seq::<Seq<char>>::empty()
        }) + field_values(rest, key, false),
        field_scan_fits(f + seq![SOH] + rest, key, false) == (tag_fits(f) && field_scan_fits(rest, key, false)),
{
    lemma_split_front(f, rest);
    lemma_field_step(f + seq![SOH] + rest, key, false);
    assert(Seq::<Seq<char>>::empty() + field_values(rest, key, false) =~= field_values(rest, key, false));
}

/// A header field `tag=value` with a value free of SOH, at the front, is
/// passed over when `tag` is not `key`.
proof fn lemma_values_past_other(tag: u32, value: Seq<u8>, rest: Seq<u8>, key: u32)
    requires
        !value.contains(SOH),
        tag != key,
    ensures
        field_values(field(tag as nat, value) + seq![SOH] + rest, key, false) == field_values(rest, key, false),
        field_scan_fits(field(tag as nat, value) + seq![SOH] + rest, key, false) == field_scan_fits(
            rest,
            key,
            false,
        ),
{
    lemma_field_no_soh(tag, value);
    lemma_field_parts(tag, value);
    lemma_values_past_field(field(tag as nat, value), rest, key);
    assert(Seq::<Seq<char>>::empty() + field_values(rest, key, false) =~= field_values(rest, key, false));
}

/// Looking up `key` through the body fields gives their values with that tag,
/// then goes on after them.
proof fn lemma_values_of_fields(fields: Seq<(u32, Seq<char>)>, key: u32, rest: Seq<u8>)
    requires
        values_free_of_soh(fields),
    ensures
        field_values(body_fields_text(fields) + rest, key, false) == tagged_values(fields, key) + field_values(
            rest,
            key,
            false,
        ),
        field_scan_fits(body_fields_text(fields) + rest, key, false) == field_scan_fits(rest, key, false),
    decreases fields.len(),
{
    if fields.len() == 0 {
        assert(body_fields_text(fields) + rest =~= rest);
        assert(tagged_values(fields, key) + field_values(rest, key, false) =~= field_values(rest, key, false));
    } else {
        let dl = fields.drop_last();
        let t = fields.last().0;
        let v = fields.last().1;
        let fx = field(t as nat, str_bytes(v));
        assert(values_free_of_soh(dl)) by {
            assert forall|i: int| 0 <= i < dl.len() implies !str_bytes(#[trigger] dl[i].1).contains(SOH) by {
                assert(dl[i] == fields[i]);
            }
        }
        assert(!str_bytes(v).contains(SOH)) by {
            assert(fields[fields.len() - 1].1 == v);
        }
        lemma_field_no_soh(t, str_bytes(v));
        lemma_field_parts(t, str_bytes(v));
        encode_utf8_valid_utf8(v);
        encode_utf8_decode_utf8(v);
        lemma_values_of_fields(dl, key, fx + seq![SOH] + rest);
        assert(body_fields_text(fields) + rest =~= body_fields_text(dl) + (fx + seq![SOH] + rest));
        lemma_values_past_field(fx, rest, key);
        if t == key {
            assert(field_hit(fx, key));
            assert(tagged_values(dl, key) + (seq![v] + field_values(rest, key, false)) =~= tagged_values(
                dl,
                key,
            ).push(v) + field_values(rest, key, false));
        } else {
            assert(!field_hit(fx, key));
            assert(tagged_values(dl, key) + (Seq::<Seq<char>>::empty() + field_values(rest, key, false))
                =~= tagged_values(dl, key) + field_values(rest, key, false));
        }
    }
}

/// Digits hold no SOH.
proof fn lemma_digits_no_soh(d: Seq<u8>)
    requires
        all_digits(d),
    ensures
        !d.contains(SOH),
{
    assert forall|j: int| 0 <= j < d.len() implies d[j] != SOH by {
        assert(is_digit(d[j]));
    }
}

/// Law: looking up a body field in a message this builder wrote gives the
/// values the message was built with under that tag, in order, and every tag
/// read on the way fits, so `get_field_value` accepts the message, when the
/// tag is none of the header and trailer tags (8, 9, 34, 35, 49, 52, 56, 10)
/// and no text of the message holds SOH.
pub proof fn lemma_built_message_values(
    b: FixMessageBuilder,
    fields: Seq<(u32, Seq<char>)>,
    msg_type: Seq<char>,
    seq_num: u32,
    sending_time: Seq<char>,
    key: u32,
)
    requires
        !str_bytes(b.fix_version@).contains(SOH),
        !str_bytes(msg_type).contains(SOH),
        !str_bytes(b.sender_comp_id@).contains(SOH),
        !str_bytes(b.target_comp_id@).contains(SOH),
        !str_bytes(sending_time).contains(SOH),
        values_free_of_soh(fields),
        key != 8 && key != 9 && key != 10 && key != 34 && key != 35 && key != 49 && key != 52 && key
            != 56,
    ensures
        field_values(b.frame_for(fields, msg_type, seq_num, sending_time), key, false) == tagged_values(
            fields,
            key,
        ),
        field_scan_fits(b.frame_for(fields, msg_type, seq_num, sending_time), key, false),
{
    let body = fix_body(msg_type, seq_num, b.sender_comp_id@, sending_time, b.target_comp_id@, fields);
    let head = fix_head(b.fix_version@, body);
    lemma_frame_fields(b, fields, msg_type, seq_num, sending_time);
    lemma_decimal_digits((body.len() - 1) as nat);
    lemma_decimal_digits(seq_num as nat);
    lemma_values_through_frame(
        str_bytes(b.fix_version@),
        decimal((body.len() - 1) as nat),
        str_bytes(msg_type),
        decimal(seq_num as nat),
        str_bytes(b.sender_comp_id@),
        str_bytes(sending_time),
        str_bytes(b.target_comp_id@),
        fields,
        three_digits(byte_sum(head) % 256),
        key,
    );
}

/// Looking up `key` through the fields of a message laid out field by field.
#[verifier::rlimit(60)]
proof fn lemma_values_through_frame(
    v: Seq<u8>,
    d: Seq<u8>,
    m: Seq<u8>,
    sn: Seq<u8>,
    snd: Seq<u8>,
    t: Seq<u8>,
    tgt: Seq<u8>,
    fields: Seq<(u32, Seq<char>)>,
    c: Seq<u8>,
    key: u32,
)
    requires
        !v.contains(SOH),
        all_digits(d),
        !m.contains(SOH),
        all_digits(sn),
        !snd.contains(SOH),
        !t.contains(SOH),
        !tgt.contains(SOH),
        c.len() == 3,
        forall|j: int| 0 <= j < 3 ==> c[j] != SOH,
        values_free_of_soh(fields),
        key != 8 && key != 9 && key != 10 && key != 34 && key != 35 && key != 49 && key != 52 && key
            != 56,
    ensures
        ({
            let frame = field(8, v) + seq![SOH] + field(9, d) + seq![SOH] + field(35, m) + seq![SOH] + field(34, sn)
                + seq![SOH] + field(49, snd) + seq![SOH] + field(52, t) + seq![SOH] + field(56, tgt) + seq![SOH]
                + body_fields_text(fields) + field(10, c) + seq![SOH];
            &&& field_values(frame, key, false) == tagged_values(fields, key)
            &&& field_scan_fits(frame, key, false)
        }),
{
    let cks = field(10, c) + seq![SOH] + Seq::<u8>::empty();
    lemma_digits_no_soh(d);
    lemma_digits_no_soh(sn);
    assert(!c.contains(SOH));
    let r56 = body_fields_text(fields) + cks;
    let r52 = field(56, tgt) + seq![SOH] + r56;
    let r49 = field(52, t) + seq![SOH] + r52;
    let r34 = field(49, snd) + seq![SOH] + r49;
    let r35 = field(34, sn) + seq![SOH] + r34;
    let r9 = field(35, m) + seq![SOH] + r35;
    let r8 = field(9, d) + seq![SOH] + r9;
    assert(field(8, v) + seq![SOH] + field(9, d) + seq![SOH] + field(35, m) + seq![SOH] + field(34, sn)
        + seq![SOH] + field(49, snd) + seq![SOH] + field(52, t) + seq![SOH] + field(56, tgt) + seq![SOH]
        + body_fields_text(fields) + field(10, c) + seq![SOH] =~= field(8, v) + seq![SOH] + r8);
    lemma_field_step(Seq::<u8>::empty(), key, false);
    reveal(field_scan_fits);
    lemma_values_past_other(10, c, Seq::<u8>::empty(), key);
    lemma_values_of_fields(fields, key, cks);
    assert(tagged_values(fields, key) + Seq::<Seq<char>>::empty() =~= tagged_values(fields, key));
    lemma_values_past_other(56, tgt, r56, key);
    lemma_values_past_other(52, t, r52, key);
    lemma_values_past_other(49, snd, r49, key);
    lemma_values_past_other(34, sn, r34, key);
    lemma_values_past_other(35, m, r35, key);
    lemma_values_past_other(9, d, r9, key);
    lemma_values_past_other(8, v, r8, key);
}

/// A message this builder wrote, field by field.
proof fn lemma_frame_fields(
    b: FixMessageBuilder,
    fields: Seq<(u32, Seq<char>)>,
    msg_type: Seq<char>,
    seq_num: u32,
    sending_time: Seq<char>,
)
    ensures
        ({
            let body = fix_body(msg_type, seq_num, b.sender_comp_id@, sending_time, b.target_comp_id@, fields);
            let head = fix_head(b.fix_version@, body);
            b.frame_for(fields, msg_type, seq_num, sending_time) == field(8, str_bytes(b.fix_version@)) + seq![SOH]
                + field(9, decimal((body.len() - 1) as nat)) + seq![SOH] + field(35, str_bytes(msg_type))
                + seq![SOH] + field(34, decimal(seq_num as nat)) + seq![SOH] + field(49, str_bytes(b.sender_comp_id@))
                + seq![SOH] + field(52, str_bytes(sending_time)) + seq![SOH] + field(56, str_bytes(b.target_comp_id@))
                + seq![SOH] + body_fields_text(fields) + field(10, three_digits(byte_sum(head) % 256)) + seq![SOH]
        }),
{
    let body = fix_body(msg_type, seq_num, b.sender_comp_id@, sending_time, b.target_comp_id@, fields);
    let head = fix_head(b.fix_version@, body);
    assert(fix_frame(head) =~= field(8, str_bytes(b.fix_version@)) + seq![SOH] + field(9, decimal((body.len() - 1) as nat))
        + seq![SOH] + field(35, str_bytes(msg_type)) + seq![SOH] + field(34, decimal(seq_num as nat)) + seq![SOH]
        + field(49, str_bytes(b.sender_comp_id@)) + seq![SOH] + field(52, str_bytes(sending_time)) + seq![SOH]
        + field(56, str_bytes(b.target_comp_id@)) + seq![SOH] + body_fields_text(fields) + field(
        10,
        three_digits(byte_sum(head) % 256),
    ) + seq![SOH]);
}

/// A text whose characters are all printable ASCII holds no SOH byte.
proof fn lemma_printable_no_soh(t: Seq<char>)
    requires
        forall|i: int| 0 <= i < t.len() ==> 2 <= #[trigger] t[i] as int <= 127,
    ensures
        !str_bytes(t).contains(SOH),
{
    crate::text::lemma_ascii_text_bytes_from(t);
}

/// Law: the Kraken logon a builder writes carries, each once under its tag,
/// EncryptMethod `98=0`, HeartBtInt `108=60`, ResetSeqNumFlag `141=N`, the
/// API key (553), the password (554) and the nonce (5025, the decimal text
/// of `ms`), and every tag read on the way fits, so `get_field_value` finds
/// each of them. The
/// BeginString, SenderCompID, TargetCompID, SendingTime and API key must be
/// free of SOH.
#[verifier::rlimit(60)]
pub proof fn lemma_kraken_logon_carries_fields(
    b: FixMessageBuilder,
    api_key: Seq<char>,
    secret: Seq<u8>,
    ms: i64,
    time: Seq<char>,
)
    requires
        !str_bytes(b.fix_version@).contains(SOH),
        !str_bytes(b.sender_comp_id@).contains(SOH),
        !str_bytes(b.target_comp_id@).contains(SOH),
        !str_bytes(time).contains(SOH),
        !str_bytes(api_key).contains(SOH),
    ensures
        ({
            let frame = b.kraken_logon_frame(api_key, secret, ms, time);
            let password = kraken_password(
                secret,
                kraken_logon_input(b.sender_comp_id@, b.target_comp_id@, api_key),
                signed_decimal(ms as int),
            );
            &&& field_values(frame, 553, false) == seq![api_key]
            &&& field_values(frame, 554, false) == seq![password]
            &&& field_values(frame, 5025, false) == seq![crate::text::signed_decimal_text(ms as int)]
            &&& field_values(frame, 98, false) == seq!["0"@]
            &&& field_values(frame, 108, false) == seq!["60"@]
            &&& field_values(frame, 141, false) == seq!["N"@]
            &&& field_scan_fits(frame, 553, false)
            &&& field_scan_fits(frame, 554, false)
            &&& field_scan_fits(frame, 5025, false)
        }),
{
    let password = kraken_password(
        secret,
        kraken_logon_input(b.sender_comp_id@, b.target_comp_id@, api_key),
        signed_decimal(ms as int),
    );
    let nonce = kraken_nonce(ms);
    let fields = kraken_logon_fields(api_key, password, nonce);
    reveal_strlit("0");
    reveal_strlit("60");
    reveal_strlit("N");
    reveal_strlit("A");
    lemma_printable_no_soh("0"@);
    lemma_printable_no_soh("60"@);
    lemma_printable_no_soh("N"@);
    lemma_printable_no_soh("A"@);
    crate::crypto::lemma_base64_text_range(hmac_sha512(secret, sha256(
        kraken_logon_input(b.sender_comp_id@, b.target_comp_id@, api_key) + signed_decimal(ms as int),
    )));
    lemma_printable_no_soh(password);
    let m: nat = if ms < 0 { (-ms) as nat } else { ms as nat };
    lemma_decimal_digits(m);
    let d = signed_decimal(ms as int);
    assert forall|i: int| 0 <= i < d.len() implies d[i] < 0x80 && d[i] != SOH by {
        if ms < 0 && i > 0 {
            assert(d[i] == decimal(m)[i - 1]);
            assert(is_digit(decimal(m)[i - 1]));
        } else if ms >= 0 {
            assert(is_digit(decimal(m)[i]));
        }
    }
    lemma_ascii_valid_utf8(d);
    decode_utf8_encode_utf8(d);
    assert(!str_bytes(nonce).contains(SOH));
    assert(values_free_of_soh(fields)) by {
        assert forall|i: int| 0 <= i < fields.len() implies !str_bytes(#[trigger] fields[i].1).contains(SOH) by {
            if i == 3 {
                assert(fields[i].1 == api_key);
            } else if i == 4 {
                assert(fields[i].1 == password);
            } else if i == 5 {
                assert(fields[i].1 == nonce);
            }
        }
    }
    reveal_with_fuel(tagged_values, 7);
    assert(fields.drop_last().drop_last().drop_last().drop_last().drop_last().drop_last() =~= Seq::<(u32, Seq<char>)>::empty());
    assert(b.kraken_logon_frame(api_key, secret, ms, time) == b.frame_for(fields, "A"@, 1, time));
    lemma_built_message_values(b, fields, "A"@, 1, time, 553);
    lemma_built_message_values(b, fields, "A"@, 1, time, 554);
    lemma_built_message_values(b, fields, "A"@, 1, time, 5025);
    lemma_built_message_values(b, fields, "A"@, 1, time, 98);
    lemma_built_message_values(b, fields, "A"@, 1, time, 108);
    lemma_built_message_values(b, fields, "A"@, 1, time, 141);
    assert(tagged_values(fields, 553) =~= seq![api_key]);
    assert(tagged_values(fields, 554) =~= seq![password]);
    assert(tagged_values(fields, 5025) =~= seq![nonce]);
    assert(tagged_values(fields, 98) =~= seq!["0"@]);
    assert(tagged_values(fields, 108) =~= seq!["60"@]);
    assert(tagged_values(fields, 141) =~= seq!["N"@]);
}

/// The number of digits at the start of `s`.
pub open spec fn leading_digit_count(s: Seq<u8>) -> nat
    decreases s.len(),
{
    if s.len() == 0 || !is_digit(s[0]) {
        0
    } else {
        1 + leading_digit_count(s.drop_first())
    }
}

/// The tag of a field is read into a `u32` digit by digit up to the first
/// non-digit: the value of that run of digits must fit.
pub open spec fn tag_fits(f: Seq<u8>) -> bool {
    match find_byte(f, 61u8) {
        Some(eq) => {
            let t = f.take(eq);
            digits_value(t.take(leading_digit_count(t) as int)) <= u32::MAX
        },
        None => true,
    }
}

/// Every tag read while looking for `key` in `rest` fits in a `u32`.
#[verifier::opaque]
pub open spec fn field_scan_fits(rest: Seq<u8>, key: u32, first_stop: bool) -> bool
    decreases rest.len(),
{
    if rest.len() == 0 {
        true
    } else {
        proof {
            lemma_find_byte_bounds(rest, SOH);
        }
        let f = split_field(rest);
        tag_fits(f.0) && ((field_hit(f.0, key) && first_stop) || field_scan_fits(
            f.1,
            key,
            first_stop,
        ))
    }
}

/// The texts of a vector of string slices.
pub open spec fn strs_view<'a>(v: Seq<&'a str>) -> Seq<Seq<char>> {
    v.map_values(|s: &str| s@)
}

proof fn lemma_leading_digits_bound(s: Seq<u8>, k: int)
    requires
        0 <= k <= s.len(),
        all_digits(s.take(k)),
    ensures
        k <= leading_digit_count(s),
    decreases k,
{
    if k > 0 {
        assert(is_digit(s.take(k)[0]));
        assert(s.drop_first().take(k - 1) =~= s.take(k).drop_first());
        lemma_leading_digits_bound(s.drop_first(), k - 1);
    }
}

proof fn lemma_leading_digits_all(s: Seq<u8>)
    ensures
        leading_digit_count(s) <= s.len(),
        all_digits(s.take(leading_digit_count(s) as int)),
    decreases s.len(),
{
    if s.len() > 0 && is_digit(s[0]) {
        lemma_leading_digits_all(s.drop_first());
        let k = leading_digit_count(s.drop_first()) as int;
        assert(s.take(k + 1) =~= seq![s[0]] + s.drop_first().take(k));
    }
}

/// Reads the tag of a field: whether it is all digits, and then its value.
fn parse_tag(tag: &[u8]) -> (r: (bool, u32))
    requires
        digits_value(tag@.take(leading_digit_count(tag@) as int)) <= u32::MAX,
    ensures
        r.0 == all_digits(tag@),
        r.0 ==> r.1 as nat == digits_value(tag@),
{
    let n = tag.len();
    let mut tag_num: u32 = 0;
    let mut i: usize = 0;
    proof {
        lemma_leading_digits_all(tag@);
    }
    while i < n
        invariant
            0 <= i <= n,
            n == tag@.len(),
            all_digits(tag@.take(i as int)),
            tag_num as nat == digits_value(tag@.take(i as int)),
            leading_digit_count(tag@) <= n,
            all_digits(tag@.take(leading_digit_count(tag@) as int)),
            digits_value(tag@.take(leading_digit_count(tag@) as int)) <= u32::MAX,
        decreases n - i,
    {
        let b = tag[i];
        if b < 48 || b > 57 {
            assert(!is_digit(tag@[i as int]));
            return (false, tag_num);
        }
        proof {
            let p = tag@.take(i as int);
            assert(tag@.take(i + 1) == p.push(b));
            assert(tag@.take(i + 1).drop_last() == p);
            assert(all_digits(tag@.take(i + 1)));
            lemma_leading_digits_bound(tag@, i + 1);
            let l = leading_digit_count(tag@) as int;
            assert(tag@.take(l).take(i + 1) == tag@.take(i + 1));
            crate::text::lemma_digits_value_prefix_monotone(tag@.take(l), i + 1);
        }
        tag_num = tag_num * 10 + (b - 48) as u32;
        i = i + 1;
    }
    assert(tag@.take(n as int) == tag@);
    (true, tag_num)
}

/// One step of `field_values` and `field_scan_fits`.
proof fn lemma_field_step(rest: Seq<u8>, key: u32, first_stop: bool)
    ensures
        rest.len() == 0 ==> field_values(rest, key, first_stop) == Seq::<Seq<char>>::empty(),
        rest.len() > 0 ==> ({
            let f = split_field(rest);
            &&& field_values(rest, key, first_stop) == if field_hit(f.0, key) {
                if first_stop {
                    seq![decode_utf8(value_of(f.0))]
                } else {
                    seq![decode_utf8(value_of(f.0))] + field_values(f.1, key, first_stop)
                }
            } else {
                field_values(f.1, key, first_stop)
            }
            &&& field_scan_fits(rest, key, first_stop) == (tag_fits(f.0) && ((field_hit(f.0, key)
                && first_stop) || field_scan_fits(f.1, key, first_stop)))
        }),
{
    reveal(field_values);
    reveal(field_scan_fits);
}

/// Reads the field that starts at `idx`: its value when it has tag `key` and
/// a UTF-8 value, and the position after its SOH (the end of the frame when
/// no SOH follows).
fn next_field<'a>(frame: &'a [u8], idx: usize, key: u32) -> (r: (Option<&'a str>, usize))
    requires
        idx < frame@.len(),
        tag_fits(split_field(frame@.skip(idx as int)).0),
    ensures
        r.0 is Some <==> field_hit(split_field(frame@.skip(idx as int)).0, key),
        r.0 matches Some(v) ==> v@ == decode_utf8(value_of(split_field(frame@.skip(idx as int)).0)),
        idx < r.1 <= frame@.len(),
        frame@.skip(r.1 as int) == split_field(frame@.skip(idx as int)).1,
{
    let len = frame.len();
    let ghost rest = frame@.skip(idx as int);
    let tail = vstd::slice::slice_subrange(frame, idx, len);
    assert(tail@ == rest);
    proof {
        lemma_find_byte_bounds(rest, SOH);
    }
    let (end, next) = match find(SOH, tail) {
        Some(rel) => (idx + rel, idx + rel + 1),
        None => (len, len),
    };
    let fld = vstd::slice::slice_subrange(frame, idx, end);
    let ghost f = split_field(rest);
    assert(fld@ == f.0);
    assert(frame@.skip(next as int) == f.1);
    proof {
        lemma_find_byte_bounds(fld@, 61u8);
    }
    match find(61u8, fld) {
        Some(eq) => {
            let tag = vstd::slice::slice_subrange(frame, idx, idx + eq);
            assert(tag@ == fld@.take(eq as int));
            let (valid, tag_num) = parse_tag(tag);
            if valid && tag_num == key {
                let value = vstd::slice::slice_subrange(frame, idx + eq + 1, end);
                assert(value@ == value_of(fld@));
                match str_from_utf8(value) {
                    Some(v) => {
                        proof {
                            vstd::utf8::encode_utf8_decode_utf8(v@);
                        }
                        (Some(v), next)
                    },
                    None => (None, next),
                }
            } else {
                (None, next)
            }
        },
        None => (None, next),
    }
}

/// The Kraken logon password over bytes (see `FixMessageBuilder::get_password`).
fn password_from_bytes(input: &[u8], api_secret_b64: &str, nonce: &[u8]) -> (r: Result<String, PasswordError>)
    ensures
        base64_standard_decode(str_bytes(api_secret_b64@)) is None ==> r == Err::<String, PasswordError>(
            PasswordError::SecretNotBase64,
        ),
        base64_standard_decode(str_bytes(api_secret_b64@)) matches Some(k) ==> r matches Ok(p) && p@
            == kraken_password(k, input@, nonce@),
        r matches Ok(p) ==> p@.len() == 88 && p@[86] == '=' && p@[87] == '=',
        base64_standard_decode(str_bytes(api_secret_b64@)) matches Some(k) ==> ({
            let tag = hmac_sha512(k, sha256(input@ + nonce@));
            &&& tag.len() == 64
            &&& base64_standard_decode(str_bytes(kraken_password(k, input@, nonce@))) == Some(tag)
        }),
{
    let mut data: Vec<u8> = Vec::new();
    let n1 = input.len();
    let mut i: usize = 0;
    while i < n1
        invariant
            0 <= i <= n1,
            n1 == input@.len(),
            data@ == input@.take(i as int),
        decreases n1 - i,
    {
        data.push(input[i]);
        assert(input@.take(i + 1) == input@.take(i as int).push(input@[i as int]));
        i = i + 1;
    }
    let n2 = nonce.len();
    let mut j: usize = 0;
    assert(input@.take(n1 as int) == input@);
    while j < n2
        invariant
            0 <= j <= n2,
            n2 == nonce@.len(),
            data@ == input@ + nonce@.take(j as int),
        decreases n2 - j,
    {
        data.push(nonce[j]);
        assert(nonce@.take(j + 1) == nonce@.take(j as int).push(nonce@[j as int]));
        j = j + 1;
    }
    assert(nonce@.take(n2 as int) == nonce@);
    let digest = sha256_digest(data.as_slice());
    let secret = match base64_decode(api_secret_b64.as_bytes()) {
        Ok(v) => v,
        Err(_) => {
            return Err(PasswordError::SecretNotBase64);
        },
    };
    let mac = match hmac_sha512_tag(secret.as_slice(), digest.as_slice()) {
        Ok(t) => t,
        Err(_) => {
            return Err(PasswordError::InvalidKeyLength);
        },
    };
    proof {
        crate::crypto::lemma_base64_standard_len(mac@);
        crate::crypto::lemma_base64_two_pads(mac@);
    }
    Ok(base64_encode(mac.as_slice()))
}

proof fn lemma_byte_sum_push(s: Seq<u8>, b: u8)
    ensures
        byte_sum(s.push(b)) == byte_sum(s) + b,
{
    assert(s.push(b).drop_last() == s);
}

/// Appends `tag=`.
fn push_tag(out: &mut Vec<u8>, tag: u32)
    ensures
        final(out)@ == old(out)@ + decimal(tag as nat) + seq![61u8],
{
    push_decimal(out, tag as u64);
    out.push(61u8);
}

/// Builds FIX messages for one session: BeginString, the two CompIDs and
/// the next outgoing MsgSeqNum.
pub struct FixMessageBuilder {
    /// Identifier of the market the session trades on.
    pub market: String,
    /// BeginString, such as `FIX.4.4`.
    pub fix_version: String,
    /// SenderCompID.
    pub sender_comp_id: String,
    /// TargetCompID.
    pub target_comp_id: String,
    /// The MsgSeqNum the next message takes when none is given.
    pub msg_seq_num: u32,
}

impl FixMessageBuilder {
    /// The message this builder writes for the given body fields, MsgType,
    /// MsgSeqNum and SendingTime text.
    pub open spec fn frame_for(
        self,
        fields: Seq<(u32, Seq<char>)>,
        msg_type: Seq<char>,
        seq_num: u32,
        sending_time: Seq<char>,
    ) -> Seq<u8> {
        fix_frame(self.head_for(fields, msg_type, seq_num, sending_time))
    }

    /// The part of that message before its CheckSum field.
    pub open spec fn head_for(
        self,
        fields: Seq<(u32, Seq<char>)>,
        msg_type: Seq<char>,
        seq_num: u32,
        sending_time: Seq<char>,
    ) -> Seq<u8> {
        fix_head(
            self.fix_version@,
            fix_body(
                msg_type,
                seq_num,
                self.sender_comp_id@,
                sending_time,
                self.target_comp_id@,
                fields,
            ),
        )
    }

    /// A builder whose first message takes MsgSeqNum 1.
    pub fn new(market: &str, fix_version: &str, sender_comp_id: &str, target_comp_id: &str) -> (b:
        Self)
        ensures
            b.market@ == market@,
            b.fix_version@ == fix_version@,
            b.sender_comp_id@ == sender_comp_id@,
            b.target_comp_id@ == target_comp_id@,
            b.msg_seq_num == 1,
    {
        FixMessageBuilder {
            market: market.to_owned(),
            fix_version: fix_version.to_owned(),
            sender_comp_id: sender_comp_id.to_owned(),
            target_comp_id: target_comp_id.to_owned(),
            msg_seq_num: 1,
        }
    }

    /// Replaces SenderCompID (nothing changes when it is the same).
    pub fn set_sender_comp_id(&mut self, sender_comp_id: String)
        ensures
            final(self).sender_comp_id@ == sender_comp_id@,
            final(self).market == old(self).market,
            final(self).fix_version == old(self).fix_version,
            final(self).target_comp_id == old(self).target_comp_id,
            final(self).msg_seq_num == old(self).msg_seq_num,
    {
        if sender_comp_id == self.sender_comp_id {
            return ;
        }
        self.sender_comp_id = sender_comp_id;
    }

    /// The next message without an explicit MsgSeqNum takes 1.
    pub fn reset_seq_num(&mut self)
        ensures
            final(self).msg_seq_num == 1,
            final(self).market == old(self).market,
            final(self).fix_version == old(self).fix_version,
            final(self).sender_comp_id == old(self).sender_comp_id,
            final(self).target_comp_id == old(self).target_comp_id,
    {
        self.msg_seq_num = 1;
    }

    /// The MsgSeqNum a message takes: the one given, else the builder's next one.
    pub open spec fn seq_num_used(self, seq_num: Option<u32>) -> u32 {
        match seq_num {
            Some(n) => n,
            None => self.msg_seq_num,
        }
    }

    /// The builder's next MsgSeqNum after a message: it advances (wrapping
    /// around at `u32::MAX`) only when the message took it.
    pub open spec fn next_seq_num(self, seq_num: Option<u32>) -> u32 {
        match seq_num {
            Some(_) => self.msg_seq_num,
            None => if self.msg_seq_num == u32::MAX {
                0
            } else {
                (self.msg_seq_num + 1) as u32
            },
        }
    }

    /// The body: SOH, the header fields from MsgType on, and `fields`.
    fn build_body(&self, fields: &Vec<(u32, String)>, msg_type: &str, seq_num: u32, sending_time: &str) -> (body: Vec<u8>)
        ensures
            body@ == fix_body(
                msg_type@,
                seq_num,
                self.sender_comp_id@,
                sending_time@,
                self.target_comp_id@,
                fields_view(fields@),
            ),
    {
        let mut body: Vec<u8> = Vec::new();
        body.push(SOH);
        push_tag(&mut body, 35);
        push_str(&mut body, msg_type);
        body.push(SOH);
        push_tag(&mut body, 34);
        push_decimal(&mut body, seq_num as u64);
        body.push(SOH);
        push_tag(&mut body, 49);
        push_str(&mut body, self.sender_comp_id.as_str());
        body.push(SOH);
        push_tag(&mut body, 52);
        push_str(&mut body, sending_time);
        body.push(SOH);
        push_tag(&mut body, 56);
        push_str(&mut body, self.target_comp_id.as_str());
        body.push(SOH);
        let ghost header = body@;
        assert(header == fix_body(
            msg_type@,
            seq_num,
            self.sender_comp_id@,
            sending_time@,
            self.target_comp_id@,
            Seq::empty(),
        ));
        let ghost fv = fields_view(fields@);
        let n = fields.len();
        let mut i: usize = 0;
        while i < n
            invariant
                0 <= i <= n,
                n == fields@.len(),
                fv == fields_view(fields@),
                header == fix_body(
                    msg_type@,
                    seq_num,
                    self.sender_comp_id@,
                    sending_time@,
                    self.target_comp_id@,
                    Seq::empty(),
                ),
                body@ == header + body_fields_text(fv.take(i as int)),
            decreases n - i,
        {
            let (tag, val) = &fields[i];
            let ghost pre = body@;
            push_tag(&mut body, *tag);
            push_str(&mut body, val.as_str());
            body.push(SOH);
            proof {
                assert(fv.take(i + 1).drop_last() == fv.take(i as int));
                assert(fv.take(i + 1).last() == fv[i as int]);
                assert(fv[i as int] == (fields@[i as int].0, fields@[i as int].1@));
            }
            i = i + 1;
        }
        assert(fv.take(n as int) == fv);
        assert(fix_body(
            msg_type@,
            seq_num,
            self.sender_comp_id@,
            sending_time@,
            self.target_comp_id@,
            fv,
        ) == header + body_fields_text(fv));
        body
    }

    /// Everything before the CheckSum field.
    fn build_head(&self, fields: &Vec<(u32, String)>, msg_type: &str, seq_num: u32, sending_time: &str) -> (head: Vec<u8>)
        ensures
            head@ == self.head_for(fields_view(fields@), msg_type@, seq_num, sending_time@),
    {
        let body = self.build_body(fields, msg_type, seq_num, sending_time);
        let mut msg: Vec<u8> = Vec::new();
        push_tag(&mut msg, 8);
        push_str(&mut msg, self.fix_version.as_str());
        msg.push(SOH);
        push_tag(&mut msg, 9);
        push_decimal(&mut msg, (body.len() - 1) as u64);
        let ghost pre = msg@;
        let n = body.len();
        let mut i: usize = 0;
        while i < n
            invariant
                0 <= i <= n,
                n == body@.len(),
                msg@ == pre + body@.take(i as int),
            decreases n - i,
        {
            msg.push(body[i]);
            assert(body@.take(i + 1) == body@.take(i as int).push(body@[i as int]));
            i = i + 1;
        }
        assert(body@.take(n as int) == body@);
        msg
    }

    /// Builds a complete message from the body `fields`, filling in
    /// BeginString, BodyLength, the standard header and CheckSum. Without an
    /// explicit `seq_num` the message takes the builder's next MsgSeqNum, which
    /// then advances. `sending_time` is the SendingTime text.
    pub fn build_fix_message(
        &mut self,
        fields: Vec<(u32, String)>,
        msg_type: &str,
        seq_num: Option<u32>,
        sending_time: &str,
    ) -> (msg: Vec<u8>)
        ensures
            msg@ == old(self).frame_for(
                fields_view(fields@),
                msg_type@,
                old(self).seq_num_used(seq_num),
                sending_time@,
            ),
            final(self).msg_seq_num == old(self).next_seq_num(seq_num),
            final(self).market == old(self).market,
            final(self).fix_version == old(self).fix_version,
            final(self).sender_comp_id == old(self).sender_comp_id,
            final(self).target_comp_id == old(self).target_comp_id,
    {
        let used = match seq_num {
            Some(n) => n,
            None => {
                let n = self.msg_seq_num;
                self.msg_seq_num = if n == u32::MAX {
                    0
                } else {
                    n + 1
                };
                n
            },
        };
        let mut msg = self.build_head(&fields, msg_type, used, sending_time);
        let ghost head = msg@;
        let cksm = self.checksum(msg.as_slice());
        push_tag(&mut msg, 10);
        msg.push(((cksm / 100) as u8) + 48);
        msg.push((((cksm / 10) % 10) as u8) + 48);
        msg.push(((cksm % 10) as u8) + 48);
        msg.push(SOH);
        assert(msg@ =~= fix_frame(head));
        msg
    }

    /// Takes the complete message at the front of `buf` out of it, leaving the
    /// bytes that follow. Returns `None` while the message is incomplete (the
    /// buffer is left as it is) and when the buffer does not start with a FIX
    /// header or declares a message too long for `usize` (the buffer is
    /// emptied).
    pub fn extract_fix_message(&self, buf: &mut bytes::BytesMut) -> (r: Option<bytes::BytesMut>)
        ensures
            match r {
                Some(frame) => fix_extract(buffer_bytes(*old(buf))).0 == Some(buffer_bytes(frame)),
                None => fix_extract(buffer_bytes(*old(buf))).0 is None,
            },
            buffer_bytes(*final(buf)) == fix_extract(buffer_bytes(*old(buf))).1,
    {
        let scan = scan_fix_header(buffer_slice(buf));
        match scan {
            FixHeaderScan::Incomplete => None,
            FixHeaderScan::Invalid => {
                buffer_clear(buf);
                None
            },
            FixHeaderScan::Complete { header_len, body_len } => {
                let total = match header_len.checked_add(body_len) {
                    Some(t) => match t.checked_add(7) {
                        Some(u) => u,
                        None => {
                            buffer_clear(buf);
                            return None;
                        },
                    },
                    None => {
                        buffer_clear(buf);
                        return None;
                    },
                };
                if buffer_slice(buf).len() < total {
                    return None;
                }
                Some(buffer_split_to(buf, total))
            },
        }
    }

    /// The values of the fields with tag `key` in `frame`, in order; with
    /// `first_stop`, only the first. Values that are not valid UTF-8 are passed
    /// over. Tags are read into a `u32`, so every tag read must fit.
    pub fn get_field_value<'a>(&self, frame: &'a [u8], key: u32, first_stop: bool) -> (values: Vec<&'a str>)
        requires
            field_scan_fits(frame@, key, first_stop),
        ensures
            strs_view(values@) == field_values(frame@, key, first_stop),
    {
        let mut values: Vec<&'a str> = Vec::new();
        let len = frame.len();
        let mut idx: usize = 0;
        let ghost whole = field_values(frame@, key, first_stop);
        let ghost mut acc: Seq<Seq<char>> = Seq::empty();
        assert(frame@.skip(0) == frame@);
        assert(acc + field_values(frame@, key, first_stop) == whole);
        loop
            invariant_except_break
                field_scan_fits(frame@.skip(idx as int), key, first_stop),
                acc + field_values(frame@.skip(idx as int), key, first_stop) == whole,
            invariant
                idx <= len,
                len == frame@.len(),
                whole == field_values(frame@, key, first_stop),
                strs_view(values@) == acc,
            ensures
                strs_view(values@) == whole,
            decreases len - idx,
        {
            let ghost rest = frame@.skip(idx as int);
            proof {
                lemma_field_step(rest, key, first_stop);
            }
            if idx >= len {
                assert(acc + Seq::<Seq<char>>::empty() == acc);
                break;
            }
            let ghost f = split_field(rest);
            let (hit, next) = next_field(frame, idx, key);
            match hit {
                Some(v) => {
                    values.push(v);
                    proof {
                        assert(strs_view(values@) =~= acc.push(v@));
                        if first_stop {
                            assert(acc + seq![v@] =~= acc.push(v@));
                        } else {
                            assert(acc.push(v@) + field_values(f.1, key, first_stop) =~= acc + (seq![v@]
                                + field_values(f.1, key, first_stop)));
                        }
                        acc = acc.push(v@);
                    }
                    if first_stop {
                        break;
                    }
                },
                None => {},
            }
            idx = next;
        }
        values
    }

    /// The Kraken logon message for an API key, decoded API secret, logon
    /// instant and its SendingTime text.
    pub open spec fn kraken_logon_frame(self, api_key: Seq<char>, secret: Seq<u8>, ms: i64, time: Seq<char>) -> Seq<u8> {
        fix_frame(self.kraken_logon_head(api_key, secret, ms, time))
    }

    /// That message before its CheckSum field.
    pub open spec fn kraken_logon_head(self, api_key: Seq<char>, secret: Seq<u8>, ms: i64, time: Seq<char>) -> Seq<u8> {
        let password = kraken_password(
            secret,
            kraken_logon_input(self.sender_comp_id@, self.target_comp_id@, api_key),
            signed_decimal(ms as int),
        );
        self.head_for(kraken_logon_fields(api_key, password, kraken_nonce(ms)), "A"@, 1, time)
    }

    /// A Kraken logon can be built: the API secret is base64 and the instant
    /// has a SendingTime text.
    pub open spec fn kraken_logon_ready(self, api_key: Seq<char>, api_secret: Seq<char>, ms: i64) -> bool {
        &&& base64_standard_decode(str_bytes(api_secret)) is Some
        &&& chrono_utc_text(ms as int, fix_time_format()) is Some
    }

    /// The Kraken logon password for a logon input and nonce: base64 of
    /// HMAC-SHA512, keyed with the base64-decoded API secret, of the SHA-256
    /// digest of the input followed by the nonce. Fails when the secret is not
    /// base64.
    pub fn get_password(message_input: &str, api_secret_b64: &str, nonce: &str) -> (r: Result<String, PasswordError>)
        ensures
            base64_standard_decode(str_bytes(api_secret_b64@)) is None ==> r == Err::<String, PasswordError>(
                PasswordError::SecretNotBase64,
            ),
            base64_standard_decode(str_bytes(api_secret_b64@)) matches Some(k) ==> r matches Ok(p) && p@
                == kraken_password(k, str_bytes(message_input@), str_bytes(nonce@)),
            r matches Ok(p) ==> p@.len() == 88 && p@[86] == '=' && p@[87] == '=',
            base64_standard_decode(str_bytes(api_secret_b64@)) matches Some(k) ==> ({
                let tag = hmac_sha512(k, sha256(str_bytes(message_input@) + str_bytes(nonce@)));
                &&& tag.len() == 64
                &&& base64_standard_decode(str_bytes(kraken_password(k, str_bytes(message_input@), str_bytes(nonce@))))
                    == Some(tag)
            }),
    {
        password_from_bytes(message_input.as_bytes(), api_secret_b64, nonce.as_bytes())
    }

    /// The body fields and SendingTime text of a Kraken logon; `None` when the
    /// API secret is not base64 or the instant has no SendingTime text.
    fn kraken_logon_parts(&self, api_key: &str, api_secret: &str, now_ms: i64) -> (r: Option<(Vec<(u32, String)>, String)>)
        ensures
            r is Some <==> (base64_standard_decode(str_bytes(api_secret@)) is Some && chrono_utc_text(
                now_ms as int,
                fix_time_format(),
            ) is Some),
            r matches Some(parts) ==> ({
                let secret = base64_standard_decode(str_bytes(api_secret@))->Some_0;
                let password = kraken_password(
                    secret,
                    kraken_logon_input(self.sender_comp_id@, self.target_comp_id@, api_key@),
                    signed_decimal(now_ms as int),
                );
                &&& fields_view(parts.0@) == kraken_logon_fields(api_key@, password, kraken_nonce(now_ms))
                &&& chrono_utc_text(now_ms as int, fix_time_format()) == Some(parts.1@)
            }),
    {
        let mut nonce_bytes: Vec<u8> = Vec::new();
        push_signed_decimal(&mut nonce_bytes, now_ms);
        proof {
            let d = signed_decimal(now_ms as int);
            assert(nonce_bytes@ == d);
            let m = if now_ms < 0 { (-now_ms) as nat } else { now_ms as nat };
            lemma_decimal_digits(m);
            assert forall|i: int| 0 <= i < d.len() implies d[i] < 0x80 by {
                if now_ms < 0 && i > 0 {
                    assert(d[i] == decimal(m)[i - 1]);
                    assert(is_digit(decimal(m)[i - 1]));
                } else if now_ms >= 0 {
                    assert(is_digit(decimal(m)[i]));
                }
            }
            lemma_ascii_valid_utf8(d);
        }
        let mut input: Vec<u8> = Vec::new();
        push_tag(&mut input, 35);
        input.push(65u8);
        input.push(SOH);
        push_tag(&mut input, 34);
        push_decimal(&mut input, 1);
        input.push(SOH);
        push_tag(&mut input, 49);
        push_str(&mut input, self.sender_comp_id.as_str());
        input.push(SOH);
        push_tag(&mut input, 56);
        push_str(&mut input, self.target_comp_id.as_str());
        input.push(SOH);
        push_tag(&mut input, 553);
        push_str(&mut input, api_key);
        input.push(SOH);
        assert(input@ =~= kraken_logon_input(self.sender_comp_id@, self.target_comp_id@, api_key@));
        let password = match password_from_bytes(input.as_slice(), api_secret, nonce_bytes.as_slice()) {
            Ok(p) => p,
            Err(_) => {
                return None;
            },
        };
        let time = match fix_sending_time(now_ms) {
            Some(t) => t,
            None => {
                return None;
            },
        };
        let ghost nb = nonce_bytes@;
        let nonce = match string_from_utf8(nonce_bytes) {
            Some(n) => n,
            None => {
                return None;
            },
        };
        proof {
            vstd::utf8::encode_utf8_decode_utf8(nonce@);
            assert(nonce@ == kraken_nonce(now_ms));
        }
        let fields: Vec<(u32, String)> = vec![
            (98u32, "0".to_owned()),
            (108u32, "60".to_owned()),
            (141u32, "N".to_owned()),
            (553u32, api_key.to_owned()),
            (554u32, password),
            (5025u32, nonce),
        ];
        assert(fields_view(fields@) =~= kraken_logon_fields(
            api_key@,
            kraken_password(
                base64_standard_decode(str_bytes(api_secret@))->Some_0,
                input@,
                nb,
            ),
            kraken_nonce(now_ms),
        ));
        Some((fields, time))
    }

    /// Builds the Kraken logon message (MsgType `A`, MsgSeqNum 1) at the
    /// instant `now_ms`, with the API key, the password derived from the API
    /// secret and the nonce `now_ms`. The builder's next MsgSeqNum becomes 2.
    pub fn build_kraken_logon_message(&mut self, api_key: &str, api_secret: &str, now_ms: i64) -> (msg: Vec<u8>)
        requires
            old(self).kraken_logon_ready(api_key@, api_secret@, now_ms),
        ensures
            msg@ == old(self).kraken_logon_frame(
                api_key@,
                base64_standard_decode(str_bytes(api_secret@))->Some_0,
                now_ms,
                chrono_utc_text(now_ms as int, fix_time_format())->Some_0,
            ),
            final(self).msg_seq_num == 2,
            final(self).market == old(self).market,
            final(self).fix_version == old(self).fix_version,
            final(self).sender_comp_id == old(self).sender_comp_id,
            final(self).target_comp_id == old(self).target_comp_id,
    {
        self.msg_seq_num = 2;
        let (fields, time) = match self.kraken_logon_parts(api_key, api_secret, now_ms) {
            Some(parts) => parts,
            None => {
                assert(false);
                return Vec::new();
            },
        };
        self.build_fix_message(fields, "A", Some(1), time.as_str())
    }

    /// Builds the Kraken logon message when it can be built (see
    /// `kraken_logon_ready`); otherwise returns `None` and leaves the builder
    /// as it was.
    pub fn try_build_kraken_logon_message(&mut self, api_key: &str, api_secret: &str, now_ms: i64) -> (r: Option<Vec<u8>>)
        ensures
            r is Some <==> old(self).kraken_logon_ready(api_key@, api_secret@, now_ms),
            r matches Some(msg) ==> msg@ == old(self).kraken_logon_frame(
                api_key@,
                base64_standard_decode(str_bytes(api_secret@))->Some_0,
                now_ms,
                chrono_utc_text(now_ms as int, fix_time_format())->Some_0,
            ) && final(self).msg_seq_num == 2,
            r is None ==> final(self).msg_seq_num == old(self).msg_seq_num,
            final(self).market == old(self).market,
            final(self).fix_version == old(self).fix_version,
            final(self).sender_comp_id == old(self).sender_comp_id,
            final(self).target_comp_id == old(self).target_comp_id,
    {
        let (fields, time) = match self.kraken_logon_parts(api_key, api_secret, now_ms) {
            Some(parts) => parts,
            None => {
                return None;
            },
        };
        Some(self.build_kraken_logon_message(api_key, api_secret, now_ms))
    }

    /// The sum of the bytes modulo 256, kept modulo 256 as it is added up
    /// (the same value as a wrapping `u32` sum taken modulo 256).
    pub fn checksum(&self, bytes: &[u8]) -> (c: u8)
        ensures
            c == byte_sum(bytes@) % 256,
    {
        let n = bytes.len();
        let mut sum: u32 = 0;
        let mut i: usize = 0;
        while i < n
            invariant
                0 <= i <= n,
                n == bytes@.len(),
                sum < 256,
                sum == byte_sum(bytes@.take(i as int)) % 256,
            decreases n - i,
        {
            proof {
                assert(bytes@.take(i + 1) == bytes@.take(i as int).push(bytes@[i as int]));
                lemma_byte_sum_push(bytes@.take(i as int), bytes@[i as int]);
                let t = byte_sum(bytes@.take(i as int)) as int;
                let b = bytes@[i as int] as int;
                assert((t % 256 + b) % 256 == (t + b) % 256) by {
                    vstd::arithmetic::div_mod::lemma_add_mod_noop(t, b, 256);
                    vstd::arithmetic::div_mod::lemma_small_mod(b as nat, 256);
                }
            }
            sum = (sum + bytes[i] as u32) % 256;
            i = i + 1;
        }
        assert(bytes@.take(n as int) == bytes@);
        sum as u8
    }
}

} // verus!
