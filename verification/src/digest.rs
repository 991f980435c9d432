//! The calls into hashing, signing, encoding and Unicode crates, and into the
//! clock. Each trusted function here makes one outside call; its contract is
//! what the outside crate documents, stated over a name for the result where
//! the result takes more than a few lines to describe. The clock's RFC 3339
//! text is put together by verified code from two of them.
use vstd::prelude::*;
use vstd::utf8::{decode_utf8, valid_utf8};
use crate::ledger::spec_base64;
use base64::Engine;
use ed25519_dalek::{Signer, Verifier};
use sha2::Digest;
use unicode_normalization::UnicodeNormalization;

verus! {

/// The BLAKE3 digest (32 bytes) of `data`.
pub uninterp spec fn spec_blake3(data: Seq<u8>) -> Seq<u8>;

/// The SHA-256 digest (32 bytes) of `data`.
pub uninterp spec fn spec_sha256(data: Seq<u8>) -> Seq<u8>;

/// The Ed25519 signature (64 bytes) of `msg` under the signing key made from `seed`.
pub uninterp spec fn spec_ed25519_sign(seed: Seq<u8>, msg: Seq<u8>) -> Seq<u8>;

/// The Ed25519 public key (32 bytes) of the signing key made from `seed`.
pub uninterp spec fn spec_ed25519_public(seed: Seq<u8>) -> Seq<u8>;

/// Whether `sig` is a valid Ed25519 signature of `msg` under the public key `public`.
pub uninterp spec fn spec_ed25519_verify(public: Seq<u8>, msg: Seq<u8>, sig: Seq<u8>) -> bool;

/// Standard base64 text with the URL-safe digits: `-` for `+`, `_` for `/`,
/// and the padding `=` dropped.
pub open spec fn url_safe_unpadded(t: Seq<char>) -> Seq<char>
    decreases t.len(),
{
    if t.len() == 0 {
        Seq::empty()
    } else {
        let rest = url_safe_unpadded(t.drop_last());
        let c = t.last();
        if c == '=' {
            rest
        } else if c == '+' {
            rest.push('-')
        } else if c == '/' {
            rest.push('_')
        } else {
            rest.push(c)
        }
    }
}

/// Base64url text without padding of `data` (RFC 4648, section 5): the
/// standard base64 text with the URL-safe alphabet and no padding.
pub open spec fn spec_base64url_encode(data: Seq<u8>) -> Seq<char> {
    url_safe_unpadded(spec_base64(data))
}

/// The bytes that base64url text without padding stands for, if it is well formed.
pub uninterp spec fn spec_base64url_decode(text: Seq<char>) -> Option<Seq<u8>>;

/// The bytes that standard base64 text (with padding) stands for, if it is well formed.
pub uninterp spec fn spec_base64_decode(text: Seq<char>) -> Option<Seq<u8>>;

/// Bit `j` of `data`, most significant bit of each byte first; 0 past the end.
pub open spec fn bit_at(data: Seq<u8>, j: int) -> int {
    if 0 <= j < 8 * data.len() {
        ((data[j / 8] >> ((7 - j % 8) as u8)) & 1u8) as int
    } else {
        0
    }
}

/// The value of the `k`-th group of five bits of `data`.
pub open spec fn b32_value(data: Seq<u8>, k: int) -> int {
    16 * bit_at(data, 5 * k) + 8 * bit_at(data, 5 * k + 1) + 4 * bit_at(data, 5 * k + 2) + 2
        * bit_at(data, 5 * k + 3) + bit_at(data, 5 * k + 4)
}

/// The RFC 4648 base32 digit of `n` (`A`–`Z`, then `2`–`7`).
pub open spec fn b32_digit(n: int) -> char {
    if n < 26 {
        (65 + n) as char
    } else {
        (50 + n - 26) as char
    }
}

/// RFC 4648 base32 text without padding of `data`: one digit per five bits,
/// the last group filled with zero bits.
pub open spec fn spec_base32_nopad(data: Seq<u8>) -> Seq<char> {
    Seq::new(((8 * data.len() + 4) / 5) as nat, |k: int| b32_digit(b32_value(data, k)))
}

/// Unicode Normalization Form C of `s`.
pub uninterp spec fn spec_nfc(s: Seq<char>) -> Seq<char>;

/// `str::to_lowercase`: the text with each character mapped to its Unicode lowercase.
pub uninterp spec fn spec_to_lowercase(s: Seq<char>) -> Seq<char>;

/// `str::to_uppercase`: the text with each character mapped to its Unicode uppercase.
pub uninterp spec fn spec_to_uppercase(s: Seq<char>) -> Seq<char>;

/// `String::from_utf8_lossy`: the text of `data`, with U+FFFD for each invalid sequence.
pub uninterp spec fn spec_utf8_lossy(data: Seq<u8>) -> Seq<char>;

/// `chrono::DateTime::<Utc>::from_timestamp(secs, nanos)` formatted by
/// `to_rfc3339`, or `None` where chrono has no such instant.
pub uninterp spec fn spec_rfc3339(secs: int, nanos: int) -> Option<Seq<char>>;

/// `format!("{:?}", items)` for a list of strings: `["a", "b"]`, each string in
/// its `Debug` form.
pub uninterp spec fn spec_debug_strings(items: Seq<Seq<char>>) -> Seq<char>;

/// `blake3::hash`. The claim: the digest is a function of the input, 32 bytes long.
#[verifier::external_body]
pub(crate) fn blake3_hash(data: &[u8]) -> (r: Vec<u8>)
    ensures
        r@ == spec_blake3(data@),
        r@.len() == 32,
{
    blake3::hash(data).as_bytes().to_vec()
}

/// `sha2::Sha256` over `data`. The claim: the digest is a function of the input, 32 bytes long.
#[verifier::external_body]
pub(crate) fn sha256_hash(data: &[u8]) -> (r: [u8; 32])
    ensures
        r@ == spec_sha256(data@),
{
    sha2::Sha256::digest(data).into()
}

/// `ed25519_dalek::SigningKey::from_bytes(seed).sign(msg)`, as bytes. Ed25519
/// signing is deterministic, so the claim is that the signature is a function
/// of the seed and the message, 64 bytes long, and that it verifies under the
/// key's own public key (the correctness of Ed25519 that the crate implements).
#[verifier::external_body]
pub(crate) fn ed25519_sign(seed: &[u8; 32], msg: &[u8]) -> (r: Vec<u8>)
    ensures
        r@ == spec_ed25519_sign(seed@, msg@),
        r@.len() == 64,
        spec_ed25519_verify(spec_ed25519_public(seed@), msg@, r@),
{
    ed25519_dalek::SigningKey::from_bytes(seed).sign(msg).to_bytes().to_vec()
}

/// `ed25519_dalek::SigningKey::from_bytes(seed).verifying_key().to_bytes()`.
/// The claim: the public key is the function of the seed that the signing
/// claim above speaks of.
#[verifier::external_body]
pub(crate) fn ed25519_public(seed: &[u8; 32]) -> (r: [u8; 32])
    ensures
        r@ == spec_ed25519_public(seed@),
{
    ed25519_dalek::SigningKey::from_bytes(seed).verifying_key().to_bytes()
}

/// `VerifyingKey::from_bytes(public)` then `Signature::from_slice(sig)` then
/// `Verifier::verify(msg)`; a malformed key or signature counts as a failed check.
/// The claim: the outcome is a function of the three inputs.
#[verifier::external_body]
pub(crate) fn ed25519_verify(public: &[u8; 32], msg: &[u8], sig: &[u8]) -> (r: bool)
    ensures
        r == spec_ed25519_verify(public@, msg@, sig@),
{
    match (
        ed25519_dalek::VerifyingKey::from_bytes(public),
        ed25519_dalek::Signature::from_slice(sig),
    ) {
        (Ok(key), Ok(signature)) => key.verify(msg, &signature).is_ok(),
        _ => false,
    }
}

/// `base64::engine::general_purpose::URL_SAFE_NO_PAD.encode`. The claim: the
/// text is the RFC 4648 base64url text of the bytes without padding, not
/// empty when the bytes are not, and the same engine decodes it back to the
/// bytes.
#[verifier::external_body]
pub(crate) fn base64url_encode(data: &[u8]) -> (r: String)
    ensures
        r@ == spec_base64url_encode(data@),
        data@.len() > 0 ==> r@.len() > 0,
        spec_base64url_decode(r@) == Some(data@),
{
    base64::engine::general_purpose::URL_SAFE_NO_PAD.encode(data)
}

/// `base64::engine::general_purpose::URL_SAFE_NO_PAD.decode`, with the error
/// dropped. The claim: the outcome is a function of the text.
#[verifier::external_body]
pub(crate) fn base64url_decode(text: &str) -> (r: Option<Vec<u8>>)
    ensures
        match spec_base64url_decode(text@) {
            Some(b) => r matches Some(v) && v@ == b,
            None => r is None,
        },
{
    base64::engine::general_purpose::URL_SAFE_NO_PAD.decode(text).ok()
}

/// `base64::engine::general_purpose::STANDARD.decode`, with the error dropped.
/// The claim: the outcome is a function of the text.
#[verifier::external_body]
pub(crate) fn base64_decode(text: &str) -> (r: Option<Vec<u8>>)
    ensures
        match spec_base64_decode(text@) {
            Some(b) => r matches Some(v) && v@ == b,
            None => r is None,
        },
{
    base64::engine::general_purpose::STANDARD.decode(text).ok()
}

/// `unicode_normalization::UnicodeNormalization::nfc`, collected into a `String`.
/// The claim: the normal form is a function of the text; it is in NFC, so
/// normalizing it again gives it back (the crate's `is_nfc` decides NFC by
/// comparing a text with its normal form); and U+FEFF, which is in none of
/// the crate's decomposition or composition tables, is not produced where the
/// text had none.
#[verifier::external_body]
pub(crate) fn nfc(s: &str) -> (r: String)
    ensures
        r@ == spec_nfc(s@),
        spec_nfc(r@) == r@,
        (forall|i: int| 0 <= i < s@.len() ==> s@[i] != '\u{feff}') ==> (forall|i: int|
            0 <= i < r@.len() ==> r@[i] != '\u{feff}'),
{
    s.nfc().collect::<String>()
}

/// `str::to_lowercase`. The claim: the lowercase text is a function of the
/// text (std maps each character by the Unicode tables, with no locale).
#[verifier::external_body]
pub(crate) fn to_lowercase(s: &str) -> (r: String)
    ensures
        r@ == spec_to_lowercase(s@),
{
    s.to_lowercase()
}

/// `str::to_uppercase`. The claim: the uppercase text is a function of the
/// text (std maps each character by the Unicode tables, with no locale).
#[verifier::external_body]
pub(crate) fn to_uppercase(s: &str) -> (r: String)
    ensures
        r@ == spec_to_uppercase(s@),
{
    s.to_uppercase()
}

/// `String::from_utf8_lossy(data).to_string()`. The claim: the text is a
/// function of the bytes, and valid UTF-8 comes back as the text it encodes
/// (std documents that valid input is returned unchanged).
#[verifier::external_body]
pub(crate) fn utf8_lossy(data: &[u8]) -> (r: String)
    ensures
        r@ == spec_utf8_lossy(data@),
        valid_utf8(data@) ==> r@ == decode_utf8(data@),
{
    String::from_utf8_lossy(data).to_string()
}

/// The time since the Unix epoch from `std::time::SystemTime::now()`, as whole
/// seconds and the nanoseconds past them; zero if the clock reads before the
/// epoch. The claim is only what `Duration::subsec_nanos` documents: the
/// nanoseconds are under one billion. The value itself is the time.
#[verifier::external_body]
pub(crate) fn unix_now() -> (r: (u64, u32))
    ensures
        r.1 < 1_000_000_000,
{
    let d = std::time::SystemTime::now().duration_since(std::time::UNIX_EPOCH).unwrap_or_default();
    (d.as_secs(), d.subsec_nanos())
}

/// `chrono::DateTime::<chrono::Utc>::from_timestamp(secs, nanos)` then
/// `to_rfc3339()`: `None` where chrono finds the instant out of its range.
/// Neither panics: `from_timestamp` returns an `Option`, and the `expect` in
/// `to_rfc3339` guards a write into a `String` of fields that are all below
/// 100 (a year outside 0..=9999 is written with its sign). The claim: the
/// outcome is a function of the two numbers.
#[verifier::external_body]
pub(crate) fn rfc3339_utc(secs: i64, nanos: u32) -> (r: Option<String>)
    ensures
        match spec_rfc3339(secs as int, nanos as int) {
            Some(t) => r matches Some(s) && s@ == t,
            None => r is None,
        },
{
    match chrono::DateTime::<chrono::Utc>::from_timestamp(secs, nanos) {
        Some(t) => Some(t.to_rfc3339()),
        None => None,
    }
}

/// The RFC 3339 text of the UTC instant `secs` seconds and `nanos` nanoseconds
/// after the epoch, or that of the epoch itself where chrono cannot represent
/// the instant (or the seconds do not fit its signed range).
pub open spec fn rfc3339_or_epoch_text(secs: u64, nanos: u32) -> Seq<char> {
    if secs <= i64::MAX {
        match spec_rfc3339(secs as int, nanos as int) {
            Some(t) => t,
            None => "1970-01-01T00:00:00+00:00"@,
        }
    } else {
        "1970-01-01T00:00:00+00:00"@
    }
}

/// The text that `rfc3339_or_epoch_text` describes.
pub fn rfc3339_or_epoch(secs: u64, nanos: u32) -> (r: String)
    ensures
        r@ == rfc3339_or_epoch_text(secs, nanos),
{
    let epoch = "1970-01-01T00:00:00+00:00".to_owned();
    if secs <= 9_223_372_036_854_775_807u64 {
        match rfc3339_utc(secs as i64, nanos) {
            Some(t) => t,
            None => epoch,
        }
    } else {
        epoch
    }
}

/// The current UTC time as RFC 3339 text (the epoch's, if the clock reads
/// before it). What holds whatever the clock reads: the text is that of some
/// instant at or after the epoch, as `rfc3339_or_epoch` gives it.
pub fn utc_now_rfc3339() -> (r: String)
    ensures
        exists|secs: u64, nanos: u32|
            nanos < 1_000_000_000 && r@ == #[trigger] rfc3339_or_epoch_text(secs, nanos),
{
    let (secs, nanos) = unix_now();
    rfc3339_or_epoch(secs, nanos)
}

/// `format!("{:?}", items)` (std's `Debug` for `Vec<String>`). The claim: the
/// text is a function of the strings.
#[verifier::external_body]
pub(crate) fn debug_strings(items: &Vec<String>) -> (r: String)
    ensures
        r@ == spec_debug_strings(items@.map_values(|s: String| s@)),
{
    format!("{:?}", items)
}


/// `data_encoding::BASE32_NOPAD.encode`. The claim: the text is the RFC 4648
/// base32 text of the bytes without padding, written with the symbols `A`–`Z`
/// and `2`–`7` of the encoding.
#[verifier::external_body]
pub(crate) fn base32_nopad_encode(data: &[u8]) -> (r: String)
    ensures
        r@ == spec_base32_nopad(data@),
        forall|i: int| 0 <= i < r@.len() ==> ('A' <= #[trigger] r@[i] <= 'Z' || '2' <= r@[i] <= '7'),
{
    data_encoding::BASE32_NOPAD.encode(data)
}

} // verus!
