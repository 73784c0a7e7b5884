//! Shareable permalinks. The schema text, the data text and the data format
//! are framed into bytes (a version byte, a flags byte, the schema's UTF-8
//! length as a little-endian `u32`, the schema's UTF-8 bytes, the data's UTF-8
//! bytes) and written as URL-safe base64 without padding.

use vstd::prelude::*;
use vstd::utf8::{decode_utf8, encode_utf8, valid_utf8};
use base64::Engine;
use crate::buffer::{append_bytes, le32, le_bytes, le_low, lemma_le_low_len};
use crate::text::{push_decimal, string_of};

verus! {

#[verifier::external_type_specification]
#[verifier::external_body]
pub struct ExBase64DecodeError(base64::DecodeError);

#[verifier::external_type_specification]
#[verifier::external_body]
pub struct ExFromUtf8Error(std::string::FromUtf8Error);

/// The URL-safe, unpadded base64 text of a byte sequence.
pub uninterp spec fn base64_url(bytes: Seq<u8>) -> Seq<char>;

/// `URL_SAFE_NO_PAD.encode` of the base64 crate: the result is named by
/// `base64_url`. The crate computes the output size with a checked
/// multiplication that cannot overflow for a slice (at most `isize::MAX` bytes).
#[verifier::external_body]
fn base64_url_encode(bytes: &[u8]) -> (r: String)
    ensures
        r@ == base64_url(bytes@),
{
    base64::engine::general_purpose::URL_SAFE_NO_PAD.encode(bytes)
}

/// The bytes that URL-safe, unpadded base64 decoding gives for a text, or
/// `None` when the decoder refuses the text.
pub uninterp spec fn base64_url_decoded(text: Seq<char>) -> Option<Seq<u8>>;

/// `URL_SAFE_NO_PAD.decode` of the base64 crate: the result is named by
/// `base64_url_decoded`. Also claimed: decoding the text that encoding
/// produced gives back the encoded bytes.
#[verifier::external_body]
fn base64_url_decode(text: &str) -> (r: Result<Vec<u8>, base64::DecodeError>)
    ensures
        match r {
            Ok(v) => base64_url_decoded(text@) == Some(v@),
            Err(_) => base64_url_decoded(text@) is None,
        },
        forall|b: Seq<u8>| #[trigger] base64_url(b) == text@ ==> (r is Ok && r->Ok_0@ == b),
{
    base64::engine::general_purpose::URL_SAFE_NO_PAD.decode(text)
}

/// `String::from_utf8`: succeeds exactly on valid UTF-8, and the string's
/// UTF-8 form is then the input.
#[verifier::external_body]
fn string_from_utf8(bytes: Vec<u8>) -> (r: Result<String, std::string::FromUtf8Error>)
    ensures
        r is Ok <==> valid_utf8(bytes@),
        r is Ok ==> encode_utf8(r->Ok_0@) == bytes@,
{
    String::from_utf8(bytes)
}

/// Format version written as the first byte of a permalink.
pub const PERMALINK_VERSION: u8 = 1;

/// What a permalink carries.
pub struct PermalinkData {
    pub schema_text: String,
    pub data_text: String,
    /// The data text is hex (binary mode) rather than JSON.
    pub is_hex_format: bool,
}

impl View for PermalinkData {
    type V = (Seq<char>, Seq<char>, bool);

    open spec fn view(&self) -> (Seq<char>, Seq<char>, bool) {
        (self.schema_text@, self.data_text@, self.is_hex_format)
    }
}

/// Why a permalink could not be made or read.
#[derive(Debug, Clone, Copy, PartialEq, Eq, Structural)]
pub enum PermalinkError {
    /// The schema's UTF-8 form is longer than a `u32` can count.
    TooLarge,
    /// The text is not URL-safe unpadded base64.
    InvalidEncoding,
    /// The bytes end before the frame does.
    Truncated,
    UnsupportedVersion(u8),
    InvalidFlags(u8),
    /// The schema or data bytes are not UTF-8.
    InvalidText,
}

/// Message of a permalink error.
pub open spec fn permalink_error_text(e: PermalinkError) -> Seq<char> {
    match e {
        PermalinkError::TooLarge => "schema text is too large for a permalink"@,
        PermalinkError::InvalidEncoding => "invalid base64 encoding"@,
        PermalinkError::Truncated => "permalink data is truncated"@,
        PermalinkError::UnsupportedVersion(v) => "unsupported permalink version "@ + crate::text::decimal(v as nat),
        PermalinkError::InvalidFlags(f) => "invalid permalink flags "@ + crate::text::decimal(f as nat),
        PermalinkError::InvalidText => "permalink text is not valid UTF-8"@,
    }
}

impl PermalinkError {
    /// The error's message.
    pub fn describe(&self) -> (s: String)
        ensures
            s@ == permalink_error_text(*self),
    {
        match self {
            PermalinkError::TooLarge => string_of("schema text is too large for a permalink"),
            PermalinkError::InvalidEncoding => string_of("invalid base64 encoding"),
            PermalinkError::Truncated => string_of("permalink data is truncated"),
            PermalinkError::UnsupportedVersion(v) => {
                let mut s = string_of("unsupported permalink version ");
                push_decimal(&mut s, *v as u64);
                s
            },
            PermalinkError::InvalidFlags(f) => {
                let mut s = string_of("invalid permalink flags ");
                push_decimal(&mut s, *f as u64);
                s
            },
            PermalinkError::InvalidText => string_of("permalink text is not valid UTF-8"),
        }
    }
}

/// The flags byte: bit 0 set for hex data.
pub open spec fn flags_byte(hex: bool) -> u8 {
    if hex { 1u8 } else { 0u8 }
}

/// The schema text can be framed: its UTF-8 length fits a `u32`.
pub open spec fn fits(schema: Seq<char>) -> bool {
    encode_utf8(schema).len() <= u32::MAX
}

/// The framed bytes of a permalink.
pub open spec fn payload(schema: Seq<char>, data: Seq<char>, hex: bool) -> Seq<u8> {
    let sb = encode_utf8(schema);
    seq![PERMALINK_VERSION, flags_byte(hex)] + le32(sb.len() as u32) + sb + encode_utf8(data)
}

/// Little-endian `u32` read from `b[i..i + 4]`.
pub open spec fn read_le32(b: Seq<u8>, i: int) -> nat {
    (b[i] + 256 * b[i + 1] + 65536 * b[i + 2] + 16777216 * b[i + 3]) as nat
}

/// What a permalink's bytes decode to: schema text, data text, hex flag.
pub open spec fn parse_payload(b: Seq<u8>) -> Result<(Seq<char>, Seq<char>, bool), PermalinkError> {
    if b.len() == 0 {
        Err(PermalinkError::Truncated)
    } else if b[0] != PERMALINK_VERSION {
        Err(PermalinkError::UnsupportedVersion(b[0]))
    } else if b.len() < 6 {
        Err(PermalinkError::Truncated)
    } else if b[1] > 1 {
        Err(PermalinkError::InvalidFlags(b[1]))
    } else {
        let n: int = read_le32(b, 2) as int;
        if 6 + n > b.len() {
            Err(PermalinkError::Truncated)
        } else {
            let sb = b.subrange(6, 6 + n);
            let db = b.subrange(6 + n, b.len() as int);
            if !valid_utf8(sb) || !valid_utf8(db) {
                Err(PermalinkError::InvalidText)
            } else {
                Ok((decode_utf8(sb), decode_utf8(db), b[1] == 1))
            }
        }
    }
}

/// The decoded view of a result.
pub open spec fn result_view(r: Result<PermalinkData, PermalinkError>) -> Result<(Seq<char>, Seq<char>, bool), PermalinkError> {
    match r {
        Ok(d) => Ok(d@),
        Err(e) => Err(e),
    }
}

/// Encodes permalink data as URL-safe base64 text.
pub fn encode(data: &PermalinkData) -> (r: Result<String, PermalinkError>)
    ensures
        fits(data.schema_text@) ==> r is Ok && r->Ok_0@ == base64_url(payload(data.schema_text@, data.data_text@, data.is_hex_format)),
        !fits(data.schema_text@) ==> r == Err::<String, PermalinkError>(PermalinkError::TooLarge),
{
    let sb = data.schema_text.as_str().as_bytes();
    let db = data.data_text.as_str().as_bytes();
    let n = sb.len();
    if n as u64 > 0xFFFF_FFFFu64 {
        return Err(PermalinkError::TooLarge);
    }
    let mut bytes: Vec<u8> = Vec::new();
    bytes.push(PERMALINK_VERSION);
    bytes.push(if data.is_hex_format { 1u8 } else { 0u8 });
    let len_bytes = le_bytes(n as u64, 4);
    append_bytes(&mut bytes, len_bytes.as_slice());
    append_bytes(&mut bytes, sb);
    append_bytes(&mut bytes, db);
    assert(bytes@ =~= payload(data.schema_text@, data.data_text@, data.is_hex_format));
    Ok(base64_url_encode(bytes.as_slice()))
}

/// The little-endian bytes of a `u32` read back give the value.
pub proof fn lemma_read_le32(v: u32, b: Seq<u8>, i: int)
    requires
        0 <= i,
        i + 4 <= b.len(),
        b.subrange(i, i + 4) == le32(v),
    ensures
        read_le32(b, i) == v,
{
    let u = v as nat;
    assert(le_low(u, 4)[0] == (u % 256) as u8);
    assert(le_low(u, 4) == seq![(u % 256) as u8] + le_low(u / 256, 3));
    assert(le_low(u / 256, 3) == seq![((u / 256) % 256) as u8] + le_low(u / 256 / 256, 2));
    assert(le_low(u / 256 / 256, 2) == seq![((u / 256 / 256) % 256) as u8] + le_low(u / 256 / 256 / 256, 1));
    assert(le_low(u / 256 / 256 / 256, 1) == seq![((u / 256 / 256 / 256) % 256) as u8] + le_low(u / 256 / 256 / 256 / 256, 0));
    assert(b[i] == le32(v)[0]);
    assert(b[i + 1] == le32(v)[1]);
    assert(b[i + 2] == le32(v)[2]);
    assert(b[i + 3] == le32(v)[3]);
    assert(b[i] == v % 256);
    assert(b[i + 1] == (v / 256) % 256);
    assert(b[i + 2] == (v / 256 / 256) % 256);
    assert(b[i + 3] == (v / 256 / 256 / 256) % 256);
    assert((v % 256) + 256 * ((v / 256) % 256) + 65536 * ((v / 256 / 256) % 256) + 16777216 * ((v / 256 / 256 / 256) % 256) == v) by (bit_vector);
}

/// Decoding the bytes framed from a state gives that state back.
pub proof fn lemma_payload_roundtrip(schema: Seq<char>, data: Seq<char>, hex: bool)
    requires
        fits(schema),
    ensures
        parse_payload(payload(schema, data, hex)) == Ok::<(Seq<char>, Seq<char>, bool), PermalinkError>((schema, data, hex)),
{
    let sb = encode_utf8(schema);
    let db = encode_utf8(data);
    let b = payload(schema, data, hex);
    let n = sb.len() as u32;
    lemma_le_low_len(n as nat, 4);
    assert(b.subrange(2, 6) =~= le32(n));
    lemma_read_le32(n, b, 2);
    assert(b.subrange(6, 6 + sb.len() as int) =~= sb);
    assert(b.subrange(6 + sb.len() as int, b.len() as int) =~= db);
    vstd::utf8::encode_utf8_valid_utf8(schema);
    vstd::utf8::encode_utf8_valid_utf8(data);
    vstd::utf8::encode_utf8_decode_utf8(schema);
    vstd::utf8::encode_utf8_decode_utf8(data);
}

/// Copies `b[lo..hi]` into a new vector.
fn copy_range(b: &[u8], lo: usize, hi: usize) -> (r: Vec<u8>)
    requires
        lo <= hi <= b@.len(),
    ensures
        r@ == b@.subrange(lo as int, hi as int),
{
    let mut r: Vec<u8> = Vec::new();
    let mut k: usize = lo;
    while k < hi
        invariant
            lo <= k <= hi,
            hi <= b@.len(),
            r@ == b@.subrange(lo as int, k as int),
        decreases hi - k,
    {
        r.push(b[k]);
        k = k + 1;
        assert(r@ =~= b@.subrange(lo as int, k as int));
    }
    r
}

/// Reads the framed bytes of a permalink.
pub fn decode_payload(b: &[u8]) -> (r: Result<PermalinkData, PermalinkError>)
    ensures
        result_view(r) == parse_payload(b@),
{
    let len = b.len();
    if len == 0 {
        return Err(PermalinkError::Truncated);
    }
    if b[0] != PERMALINK_VERSION {
        return Err(PermalinkError::UnsupportedVersion(b[0]));
    }
    if len < 6 {
        return Err(PermalinkError::Truncated);
    }
    if b[1] > 1 {
        return Err(PermalinkError::InvalidFlags(b[1]));
    }
    let n: u64 = b[2] as u64 + 256 * (b[3] as u64) + 65536 * (b[4] as u64) + 16777216 * (b[5] as u64);
    assert(n == read_le32(b@, 2));
    if n > (len - 6) as u64 {
        return Err(PermalinkError::Truncated);
    }
    let end = 6 + n as usize;
    let sb = copy_range(b, 6, end);
    let db = copy_range(b, end, len);
    let schema_text = match string_from_utf8(sb) {
        Ok(s) => s,
        Err(_) => return Err(PermalinkError::InvalidText),
    };
    let data_text = match string_from_utf8(db) {
        Ok(s) => s,
        Err(_) => return Err(PermalinkError::InvalidText),
    };
    proof {
        vstd::utf8::decode_utf8_encode_utf8(b@.subrange(6, end as int));
        vstd::utf8::decode_utf8_encode_utf8(b@.subrange(end as int, len as int));
        vstd::utf8::encode_utf8_decode_utf8(schema_text@);
        vstd::utf8::encode_utf8_decode_utf8(data_text@);
    }
    Ok(PermalinkData { schema_text, data_text, is_hex_format: b[1] == 1 })
}

/// What a permalink text decodes to.
pub open spec fn decode_text(text: Seq<char>) -> Result<(Seq<char>, Seq<char>, bool), PermalinkError> {
    match base64_url_decoded(text) {
        Some(b) => parse_payload(b),
        None => Err(PermalinkError::InvalidEncoding),
    }
}

/// Decodes permalink text. On the text that `encode` made from some bytes,
/// the result is what those bytes decode to.
pub fn decode(text: &str) -> (r: Result<PermalinkData, PermalinkError>)
    ensures
        result_view(r) == decode_text(text@),
        forall|b: Seq<u8>| #[trigger] base64_url(b) == text@ ==> result_view(r) == parse_payload(b),
        forall|b: Seq<u8>| #[trigger] base64_url(b) == text@ ==> decode_text(text@) == parse_payload(b),
{
    match base64_url_decode(text) {
        Ok(bytes) => {
            let r = decode_payload(bytes.as_slice());
            assert(result_view(r) == parse_payload(bytes@));
            r
        },
        Err(_) => Err(PermalinkError::InvalidEncoding),
    }
}

/// A permalink made by `encode` decodes to the data it was made from.
pub proof fn lemma_permalink_roundtrip(d: PermalinkData, text: Seq<char>)
    requires
        fits(d.schema_text@),
        text == base64_url(payload(d.schema_text@, d.data_text@, d.is_hex_format)),
    ensures
        parse_payload(payload(d.schema_text@, d.data_text@, d.is_hex_format)) == Ok::<(Seq<char>, Seq<char>, bool), PermalinkError>(d@),
{
    lemma_payload_roundtrip(d.schema_text@, d.data_text@, d.is_hex_format);
}

} // verus!
