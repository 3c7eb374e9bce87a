//! Message authentication, hashing and the text encodings of digests, as the
//! outside crates `hmac`, `sha2`, `hex` and `base64` provide them, plus UTF-8
//! validation from std.
use vstd::prelude::*;
use vstd::string::StringSliceAdditionalSpecFns;
use vstd::utf8::*;

use base64::Engine;
use hmac::Mac;
use sha2::Digest;

use crate::text::str_bytes;

verus! {

#[verifier::external_type_specification]
#[verifier::external_body]
pub struct ExInvalidLength(hmac::digest::InvalidLength);

#[verifier::external_type_specification]
#[verifier::external_body]
pub struct ExDecodeError(base64::DecodeError);

/// HMAC-SHA256 of `msg` under `key`.
pub uninterp spec fn hmac_sha256(key: Seq<u8>, msg: Seq<u8>) -> Seq<u8>;

/// HMAC-SHA512 of `msg` under `key`.
pub uninterp spec fn hmac_sha512(key: Seq<u8>, msg: Seq<u8>) -> Seq<u8>;

/// SHA-256 digest of `data`.
pub uninterp spec fn sha256(data: Seq<u8>) -> Seq<u8>;

/// Decoding of `text` with the standard base64 alphabet and canonical padding;
/// `None` when `text` is not such an encoding.
pub uninterp spec fn base64_standard_decode(text: Seq<u8>) -> Option<Seq<u8>>;

/// Lower-case hexadecimal digit of a value 0..=15.
pub open spec fn hex_digit(v: int) -> char {
    if v < 10 {
        (48 + v) as char
    } else {
        (87 + v) as char
    }
}

/// Lower-case hexadecimal text of `data`, two digits per byte, high nibble first.
pub open spec fn hex_lower(data: Seq<u8>) -> Seq<char>
    decreases data.len(),
{
    if data.len() == 0 {
        seq![]
    } else {
        seq![hex_digit((data[0] as int) / 16), hex_digit((data[0] as int) % 16)] + hex_lower(data.drop_first())
    }
}

/// Character of a 6-bit value in the standard base64 alphabet.
pub open spec fn base64_char(v: int) -> char {
    if v < 26 {
        (65 + v) as char
    } else if v < 52 {
        (71 + v) as char
    } else if v < 62 {
        (v - 4) as char
    } else if v == 62 {
        '+'
    } else {
        '/'
    }
}

/// Standard base64 text of `data`, padded with `=` to a multiple of four characters.
pub open spec fn base64_standard(data: Seq<u8>) -> Seq<char>
    decreases data.len(),
{
    if data.len() == 0 {
        seq![]
    } else if data.len() == 1 {
        seq![base64_char((data[0] as int) / 4), base64_char(((data[0] as int) % 4) * 16), '=', '=']
    } else if data.len() == 2 {
        seq![
            base64_char((data[0] as int) / 4),
            base64_char(((data[0] as int) % 4) * 16 + (data[1] as int) / 16),
            base64_char(((data[1] as int) % 16) * 4),
            '=',
        ]
    } else {
        seq![
            base64_char((data[0] as int) / 4),
            base64_char(((data[0] as int) % 4) * 16 + (data[1] as int) / 16),
            base64_char(((data[1] as int) % 16) * 4 + (data[2] as int) / 64),
            base64_char((data[2] as int) % 64),
        ] + base64_standard(data.skip(3))
    }
}

/// The hexadecimal text of `data` has two characters per byte.
pub proof fn lemma_hex_lower_len(data: Seq<u8>)
    ensures
        hex_lower(data).len() == 2 * data.len(),
    decreases data.len(),
{
    if data.len() > 0 {
        lemma_hex_lower_len(data.drop_first());
    }
}

/// The base64 text of `data` has four characters for each started group of
/// three bytes.
pub proof fn lemma_base64_standard_len(data: Seq<u8>)
    ensures
        base64_standard(data).len() == 4 * ((data.len() + 2) / 3),
    decreases data.len(),
{
    if data.len() >= 3 {
        lemma_base64_standard_len(data.skip(3));
    }
}

/// A base64 character is printable ASCII, between `+` and `z`.
pub proof fn lemma_base64_char_range(v: int)
    requires
        v >= 0,
    ensures
        43 <= base64_char(v) as int <= 122,
{
}

/// Every character of a base64 text is printable ASCII, between `+` and `z`.
pub proof fn lemma_base64_text_range(data: Seq<u8>)
    ensures
        forall|i: int| 0 <= i < base64_standard(data).len() ==> 43 <= #[trigger] base64_standard(data)[i] as int <= 122,
    decreases data.len(),
{
    let t = base64_standard(data);
    if data.len() == 0 {
    } else if data.len() == 1 {
        lemma_base64_char_range((data[0] as int) / 4);
        lemma_base64_char_range(((data[0] as int) % 4) * 16);
    } else if data.len() == 2 {
        lemma_base64_char_range((data[0] as int) / 4);
        lemma_base64_char_range(((data[0] as int) % 4) * 16 + (data[1] as int) / 16);
        lemma_base64_char_range(((data[1] as int) % 16) * 4);
    } else {
        lemma_base64_char_range((data[0] as int) / 4);
        lemma_base64_char_range(((data[0] as int) % 4) * 16 + (data[1] as int) / 16);
        lemma_base64_char_range(((data[1] as int) % 16) * 4 + (data[2] as int) / 64);
        lemma_base64_char_range((data[2] as int) % 64);
        lemma_base64_text_range(data.skip(3));
        let head = seq![
            base64_char((data[0] as int) / 4),
            base64_char(((data[0] as int) % 4) * 16 + (data[1] as int) / 16),
            base64_char(((data[1] as int) % 16) * 4 + (data[2] as int) / 64),
            base64_char((data[2] as int) % 64),
        ];
        assert(t == head + base64_standard(data.skip(3)));
        assert forall|i: int| 0 <= i < t.len() implies 43 <= #[trigger] t[i] as int <= 122 by {
            if i >= 4 {
                assert(t[i] == base64_standard(data.skip(3))[i - 4]);
            }
        }
    }
}

/// The base64 text of a byte count one past a multiple of three ends with
/// two padding characters.
pub proof fn lemma_base64_two_pads(data: Seq<u8>)
    requires
        data.len() % 3 == 1,
    ensures
        base64_standard(data).len() >= 4,
        base64_standard(data)[base64_standard(data).len() - 1] == '=',
        base64_standard(data)[base64_standard(data).len() - 2] == '=',
    decreases data.len(),
{
    lemma_base64_standard_len(data);
    if data.len() > 3 {
        lemma_base64_two_pads(data.skip(3));
        let head = seq![
            base64_char((data[0] as int) / 4),
            base64_char(((data[0] as int) % 4) * 16 + (data[1] as int) / 16),
            base64_char(((data[1] as int) % 16) * 4 + (data[2] as int) / 64),
            base64_char((data[2] as int) % 64),
        ];
        assert(base64_standard(data) == head + base64_standard(data.skip(3)));
    }
}

/// HMAC-SHA256 through `hmac::Hmac<sha2::Sha256>` (`new_from_slice`, `update`,
/// `finalize`). The key may have any length: `new_from_slice` of this MAC
/// never returns an error. The contract claims the 32-byte tag is
/// `hmac_sha256(key, msg)`.
#[verifier::external_body]
pub(crate) fn hmac_sha256_tag(key: &[u8], msg: &[u8]) -> (r: Result<Vec<u8>, hmac::digest::InvalidLength>)
    ensures
        r is Ok,
        r->Ok_0@ == hmac_sha256(key@, msg@),
        r->Ok_0@.len() == 32,
{
    match hmac::Hmac::<sha2::Sha256>::new_from_slice(key) {
        Ok(mut mac) => {
            mac.update(msg);
            Ok(mac.finalize().into_bytes().to_vec())
        },
        Err(e) => Err(e),
    }
}

/// HMAC-SHA512 through `hmac::Hmac<sha2::Sha512>`; as for the SHA-256 one, any
/// key length is accepted. The contract claims the 64-byte tag is
/// `hmac_sha512(key, msg)`.
#[verifier::external_body]
pub(crate) fn hmac_sha512_tag(key: &[u8], msg: &[u8]) -> (r: Result<Vec<u8>, hmac::digest::InvalidLength>)
    ensures
        r is Ok,
        r->Ok_0@ == hmac_sha512(key@, msg@),
        r->Ok_0@.len() == 64,
{
    match hmac::Hmac::<sha2::Sha512>::new_from_slice(key) {
        Ok(mut mac) => {
            mac.update(msg);
            Ok(mac.finalize().into_bytes().to_vec())
        },
        Err(e) => Err(e),
    }
}

/// SHA-256 through `sha2::Sha256` (`new`, `update`, `finalize`): the 32-byte
/// digest is `sha256(data)`.
#[verifier::external_body]
pub(crate) fn sha256_digest(data: &[u8]) -> (d: Vec<u8>)
    ensures
        d@ == sha256(data@),
        d@.len() == 32,
{
    let mut h = sha2::Sha256::new();
    h.update(data);
    h.finalize().to_vec()
}

/// `hex::encode`: lower-case hexadecimal, two digits per byte, high nibble
/// first (the `HEX_CHARS_LOWER` table of the crate).
#[verifier::external_body]
pub(crate) fn hex_encode(data: &[u8]) -> (s: String)
    ensures
        s@ == hex_lower(data@),
{
    hex::encode(data)
}

/// `base64::engine::general_purpose::STANDARD.encode`: the standard alphabet
/// with `=` padding; as the crate documents, `STANDARD.decode` of that text
/// gives the bytes back. The crate panics when the encoded length overflows
/// `usize`, which the bound on the input rules out.
#[verifier::external_body]
pub(crate) fn base64_encode(data: &[u8]) -> (s: String)
    requires
        data@.len() <= usize::MAX / 2,
    ensures
        s@ == base64_standard(data@),
        base64_standard_decode(str_bytes(s@)) == Some(data@),
{
    base64::engine::general_purpose::STANDARD.encode(data)
}

/// `base64::engine::general_purpose::STANDARD.decode`: `Ok` exactly when the
/// text decodes, with the decoded bytes; the decoding itself is named.
#[verifier::external_body]
pub(crate) fn base64_decode(text: &[u8]) -> (r: Result<Vec<u8>, base64::DecodeError>)
    ensures
        r is Ok <==> base64_standard_decode(text@) is Some,
        r matches Ok(v) ==> base64_standard_decode(text@) == Some(v@),
{
    base64::engine::general_purpose::STANDARD.decode(text)
}

/// `std::str::from_utf8`: `Some` exactly when the bytes are well-formed UTF-8,
/// and then the text whose encoding they are.
#[verifier::external_body]
pub(crate) fn str_from_utf8<'a>(v: &'a [u8]) -> (r: Option<&'a str>)
    ensures
        r is Some <==> valid_utf8(v@),
        r matches Some(s) ==> s.spec_bytes() == v@,
{
    std::str::from_utf8(v).ok()
}

} // verus!
