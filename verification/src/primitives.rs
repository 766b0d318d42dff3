//! Encodings, digests, compression and randomness from other crates.
use vstd::prelude::*;

use base64::engine::general_purpose::URL_SAFE_NO_PAD;
use base64::Engine;
use rand::{Rng, TryRngCore};
use sha2::Digest;
use std::io::{Read, Write};
use subtle::ConstantTimeEq;

verus! {

// ---------------------------------------------------------------------------
// URL-safe Base64 without padding
// ---------------------------------------------------------------------------

/// The character that stands for six bits.
pub open spec fn base64_char(value: int) -> char {
    if value < 26 {
        (value + 0x41) as char
    } else if value < 52 {
        (value - 26 + 0x61) as char
    } else if value < 62 {
        (value - 52 + 0x30) as char
    } else if value == 62 {
        '-'
    } else {
        '_'
    }
}

/// The byte at `index`, or zero behind the end.
pub open spec fn byte_or_zero(bytes: Seq<u8>, index: int) -> int {
    if index < bytes.len() {
        bytes[index] as int
    } else {
        0
    }
}

/// The group of six bits at `index`, counted from the first bit of the first
/// byte.
pub open spec fn six_bits(bytes: Seq<u8>, index: int) -> int {
    let first = 3 * (index / 4);
    if index % 4 == 0 {
        byte_or_zero(bytes, first) / 4
    } else if index % 4 == 1 {
        byte_or_zero(bytes, first) % 4 * 16 + byte_or_zero(bytes, first + 1) / 16
    } else if index % 4 == 2 {
        byte_or_zero(bytes, first + 1) % 16 * 4 + byte_or_zero(bytes, first + 2) / 64
    } else {
        byte_or_zero(bytes, first + 2) % 64
    }
}

/// Bytes in URL-safe Base64 without padding.
pub open spec fn base64_url(bytes: Seq<u8>) -> Seq<char> {
    Seq::new(
        ((8 * bytes.len() + 5) / 6) as nat,
        |index: int| base64_char(six_bits(bytes, index)),
    )
}

/// Wraps `Engine::encode` of `base64::engine::general_purpose::URL_SAFE_NO_PAD`:
/// every group of six bits becomes the character of the URL-safe alphabet, the
/// last group filled up with zeros, and no padding follows.
#[verifier::external_body]
pub(crate) fn base64_encode(bytes: &[u8]) -> (text: String)
    ensures
        text@ == base64_url(bytes@),
{
    URL_SAFE_NO_PAD.encode(bytes)
}

/// What is shown for a text that is no encoding.
pub uninterp spec fn base64_fault(text: Seq<char>) -> Seq<char>;

/// Wraps `Engine::decode` of `base64::engine::general_purpose::URL_SAFE_NO_PAD`:
/// a text is accepted exactly when it is the encoding of some bytes, for the
/// engine refuses padding, foreign characters and stray trailing bits. Otherwise
/// the error is shown, which is a function of the text alone.
#[verifier::external_body]
pub(crate) fn base64_decode(text: &str) -> (bytes: Result<Vec<u8>, String>)
    ensures
        match bytes {
            Ok(value) => base64_url(value@) == text@,
            Err(fault) => fault@ == base64_fault(text@) && forall|value: Seq<u8>|
                base64_url(value) != text@,
        },
{
    URL_SAFE_NO_PAD.decode(text).map_err(|error| error.to_string())
}

/// What a text decodes to, if it is the encoding of some bytes.
pub open spec fn base64_bytes(text: Seq<char>) -> Option<Seq<u8>> {
    if exists|value: Seq<u8>| base64_url(value) == text {
        Some(choose|value: Seq<u8>| base64_url(value) == text)
    } else {
        None
    }
}

proof fn lemma_base64_char(left: int, right: int)
    requires
        0 <= left < 64,
        0 <= right < 64,
        base64_char(left) == base64_char(right),
    ensures
        left == right,
{
}

proof fn lemma_six_bits_range(bytes: Seq<u8>, index: int)
    requires
        0 <= index,
    ensures
        0 <= six_bits(bytes, index) < 64,
{
}

/// Whether a character belongs to the URL-safe Base64 alphabet.
pub open spec fn is_base64_char(character: char) -> bool {
    'a' <= character <= 'z' || 'A' <= character <= 'Z' || '0' <= character <= '9' || character
        == '-' || character == '_'
}

/// An encoding holds only letters, digits, `-` and `_`.
pub proof fn lemma_base64_alphabet(bytes: Seq<u8>)
    ensures
        forall|i: int|
            0 <= i < base64_url(bytes).len() ==> is_base64_char(#[trigger] base64_url(bytes)[i]),
{
    assert forall|i: int| 0 <= i < base64_url(bytes).len() implies is_base64_char(
        #[trigger] base64_url(bytes)[i],
    ) by {
        lemma_six_bits_range(bytes, i);
    }
}

/// Different bytes have different encodings.
pub proof fn lemma_base64_injective(left: Seq<u8>, right: Seq<u8>)
    requires
        base64_url(left) == base64_url(right),
    ensures
        left == right,
{
    assert(base64_url(left).len() == (8 * left.len() + 5) / 6);
    assert(base64_url(right).len() == (8 * right.len() + 5) / 6);
    assert(left.len() == right.len());
    assert forall|i: int| 0 <= i < left.len() implies left[i] == right[i] by {
        let group = 4 * (i / 3);
        assert(group / 4 == i / 3 && group % 4 == 0);
        assert((group + 1) / 4 == i / 3 && (group + 1) % 4 == 1);
        assert((group + 2) / 4 == i / 3 && (group + 2) % 4 == 2);
        assert((group + 3) / 4 == i / 3 && (group + 3) % 4 == 3);
        lemma_same_six_bits(left, right, group + i % 3);
        lemma_same_six_bits(left, right, group + i % 3 + 1);
    }
    assert(left =~= right);
}

proof fn lemma_same_six_bits(left: Seq<u8>, right: Seq<u8>, index: int)
    requires
        base64_url(left) == base64_url(right),
        0 <= index < base64_url(left).len(),
    ensures
        six_bits(left, index) == six_bits(right, index),
{
    assert(index < base64_url(right).len());
    assert(base64_url(left)[index] == base64_char(six_bits(left, index)));
    assert(base64_url(right)[index] == base64_char(six_bits(right, index)));
    lemma_six_bits_range(left, index);
    lemma_six_bits_range(right, index);
    lemma_base64_char(six_bits(left, index), six_bits(right, index));
}

/// Bytes are read back from their encoding.
pub proof fn law_base64_round_trip(bytes: Seq<u8>)
    ensures
        base64_bytes(base64_url(bytes)) == Some(bytes),
{
    let text = base64_url(bytes);
    assert(base64_url(bytes) == text);
    let chosen = choose|value: Seq<u8>| base64_url(value) == text;
    lemma_base64_injective(chosen, bytes);
}

/// A text that is accepted is the encoding of what it decodes to.
pub proof fn law_base64_canonical(text: Seq<char>)
    requires
        base64_bytes(text) is Some,
    ensures
        base64_url(base64_bytes(text)->0) == text,
{
}

/// Encodes bytes as URL-safe Base64 without padding.
pub fn b64(bytes: &[u8]) -> (text: String)
    ensures
        text@ == base64_url(bytes@),
{
    base64_encode(bytes)
}

/// Decodes URL-safe Base64 without padding.
pub fn b64decode(text: &str) -> (bytes: Option<Vec<u8>>)
    ensures
        match base64_bytes(text@) {
            Some(value) => bytes matches Some(result) && result@ == value,
            None => bytes is None,
        },
{
    match decode_base64(text) {
        Ok(bytes) => Some(bytes),
        Err(_) => None,
    }
}

/// Decodes URL-safe Base64 without padding, or says why it cannot be decoded.
pub fn decode_base64(text: &str) -> (result: Result<Vec<u8>, String>)
    ensures
        match base64_bytes(text@) {
            Some(value) => result matches Ok(bytes) && bytes@ == value,
            None => result matches Err(fault) && fault@ == base64_fault(text@),
        },
{
    let result = base64_decode(text);
    proof {
        if result is Ok {
            law_base64_round_trip(result->Ok_0@);
        }
    }
    result
}

// ---------------------------------------------------------------------------
// SHA-256
// ---------------------------------------------------------------------------

/// The SHA-256 digest of some bytes.
pub uninterp spec fn sha256_digest(bytes: Seq<u8>) -> Seq<u8>;

/// Wraps `Digest::digest` of `sha2::Sha256`: the digest of the bytes, which is
/// 32 bytes long.
#[verifier::external_body]
pub(crate) fn sha256(bytes: &[u8]) -> (digest: Vec<u8>)
    ensures
        digest@ == sha256_digest(bytes@),
        digest@.len() == 32,
{
    sha2::Sha256::digest(bytes).to_vec()
}

/// The SHA-256 digest of some bytes in hexadecimal notation.
pub fn hash_bytes(bytes: &[u8]) -> (text: String)
    ensures
        text@ == crate::text::hex(sha256_digest(bytes@)),
{
    crate::text::hex_text(sha256(bytes).as_slice())
}

/// The SHA-256 digest of a text in hexadecimal notation.
pub fn hash(value: &str) -> (text: String)
    ensures
        text@ == crate::text::hex(sha256_digest(vstd::utf8::encode_utf8(value@))),
{
    hash_bytes(value.as_bytes())
}

// ---------------------------------------------------------------------------
// Zlib
// ---------------------------------------------------------------------------

/// The zlib stream of some bytes at the default level, if writing it succeeds.
pub uninterp spec fn zlib_stream(bytes: Seq<u8>) -> Option<Seq<u8>>;

/// At most `limit` bytes read from a zlib stream, if reading succeeds.
pub uninterp spec fn zlib_read(stream: Seq<u8>, limit: nat) -> Option<Seq<u8>>;

/// Wraps `flate2::write::ZlibEncoder` at `Compression::default()`: all bytes are
/// written and the stream is finished, which cannot fail in memory. Reading the stream
/// back, up to a limit that is not below the number of bytes, gives the same bytes.
#[verifier::external_body]
pub(crate) fn zlib_compress(bytes: &[u8]) -> (stream: Option<Vec<u8>>)
    ensures
        match zlib_stream(bytes@) {
            Some(value) => {
                &&& stream matches Some(result)
                &&& result@ == value
                &&& forall|limit: nat|
                    bytes@.len() <= limit ==> #[trigger] zlib_read(result@, limit) == Some(bytes@)
            },
            None => stream is None,
        },
        stream is Some,
{
    let mut encoder = flate2::write::ZlibEncoder::new(Vec::new(), flate2::Compression::default());
    encoder.write_all(bytes).ok()?;
    encoder.finish().ok()
}

/// Wraps `Read::read_to_end` on the first `limit` bytes that a
/// `flate2::read::ZlibDecoder` gives. No more than `limit` bytes come out.
#[verifier::external_body]
pub(crate) fn zlib_decompress(stream: &[u8], limit: u64) -> (bytes: Option<Vec<u8>>)
    ensures
        match zlib_read(stream@, limit as nat) {
            Some(value) => bytes matches Some(result) && result@ == value && result@.len() <= limit,
            None => bytes is None,
        },
{
    let mut bytes = Vec::new();
    let decoder = flate2::read::ZlibDecoder::new(stream);
    decoder.take(limit).read_to_end(&mut bytes).ok()?;
    Some(bytes)
}

// ---------------------------------------------------------------------------
// Comparison in constant time, and randomness
// ---------------------------------------------------------------------------

/// Wraps `subtle::ConstantTimeEq::ct_eq` on byte slices: true exactly when the
/// slices hold the same bytes. That the time taken does not depend on the
/// contents is not part of the contract.
#[verifier::external_body]
pub(crate) fn constant_time_eq(left: &[u8], right: &[u8]) -> (same: bool)
    ensures
        same == (left@ == right@),
{
    left.ct_eq(right).into()
}

/// Wraps `Rng::random` of `rand::rngs::OsRng` for sixteen bytes. Nothing is
/// promised of the bytes.
#[verifier::external_body]
pub(crate) fn random_16() -> (bytes: [u8; 16])
{
    rand::rngs::OsRng.unwrap_err().random()
}

/// Wraps `rand::fill` for thirty-two bytes. Nothing is promised of the bytes.
#[verifier::external_body]
pub(crate) fn random_32() -> (bytes: [u8; 32])
{
    let mut bytes = [0u8; 32];
    rand::fill(&mut bytes);
    bytes
}

} // verus!
