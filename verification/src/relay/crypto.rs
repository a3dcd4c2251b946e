//! Digests, signatures, encodings and randomness taken from outside crates.
//!
//! What these functions compute is not proved here; each states what its
//! callers rely on.
use vstd::prelude::*;

use crate::text;

use base64::Engine;
use ed25519_dalek::Verifier;
use rand::RngCore;
use sha2::Digest;
use subtle::ConstantTimeEq;

verus! {

/// The SHA-256 digest of a byte string.
pub uninterp spec fn sha256(data: Seq<u8>) -> Seq<u8>;

/// The URL-safe base64 text of a byte string, without padding.
pub uninterp spec fn base64_url(data: Seq<u8>) -> Seq<char>;

/// `sha2::Sha256::digest`: a function of the bytes alone, 32 bytes long.
#[verifier::external_body]
pub(crate) fn sha256_of(data: &[u8]) -> (r: Vec<u8>)
    ensures
        r@ == sha256(data@),
        r@.len() == 32,
{
    sha2::Sha256::digest(data).to_vec()
}

/// `base64::engine::general_purpose::URL_SAFE_NO_PAD.encode`: a function of the
/// bytes alone.
#[verifier::external_body]
pub(crate) fn base64_url_of(data: &[u8; 32]) -> (r: String)
    ensures
        r@ == base64_url(data@),
{
    base64::engine::general_purpose::URL_SAFE_NO_PAD.encode(data)
}

/// `rand::rngs::OsRng.fill_bytes`: 32 bytes from the operating system's random
/// source. Nothing is said of their values. It panics where the operating
/// system has no randomness to give.
#[verifier::external_body]
pub(crate) fn random_secret() -> (r: [u8; 32]) {
    let mut bytes = [0u8; 32];
    rand::rngs::OsRng.fill_bytes(&mut bytes);
    bytes
}

/// `subtle`'s `ConstantTimeEq::ct_eq` on byte slices: true iff the lengths and
/// all bytes agree.
#[verifier::external_body]
pub(crate) fn ct_eq(a: &[u8], b: &[u8]) -> (r: bool)
    ensures
        r == (a@ == b@),
{
    a.ct_eq(b).into()
}

/// What the standard base64 alphabet with padding decodes a text to; `None` for
/// a text that is no such encoding.
pub uninterp spec fn base64_bytes(text: Seq<char>) -> Option<Seq<u8>>;

/// Whether an Ed25519 signature over a message is valid under a public key;
/// false for a key that encodes no point.
pub uninterp spec fn ed25519_valid(key: Seq<u8>, message: Seq<u8>, signature: Seq<u8>) -> bool;

/// The JSON string literal of a text.
pub uninterp spec fn json_quote(text: Seq<char>) -> Seq<char>;

/// The integer that a JSON text denotes; `None` for anything else, and for an
/// integer beyond 64 signed bits.
pub uninterp spec fn json_integer(text: Seq<char>) -> Option<i64>;

/// The `Debug` form of a string.
pub uninterp spec fn debug_string(text: Seq<char>) -> Seq<char>;

/// The bytes of an optional byte string.
pub open spec fn bytes_opt(o: Option<Vec<u8>>) -> Option<Seq<u8>> {
    match o {
        Some(v) => Some(v@),
        None => None,
    }
}

/// `base64::engine::general_purpose::STANDARD.decode`: a function of the text
/// alone.
#[verifier::external_body]
pub(crate) fn base64_decode(text: &str) -> (r: Option<Vec<u8>>)
    ensures
        bytes_opt(r) == base64_bytes(text@),
{
    base64::engine::general_purpose::STANDARD.decode(text).ok()
}

/// `ed25519_dalek::VerifyingKey::from_bytes` and `Verifier::verify` on the
/// signature of these 64 bytes: a function of key, message and signature alone.
/// A key that cannot be decompressed verifies nothing.
#[verifier::external_body]
pub(crate) fn ed25519_check(key: &[u8], message: &[u8], signature: &[u8]) -> (r: bool)
    requires
        key@.len() == 32,
        signature@.len() == 64,
    ensures
        r == ed25519_valid(key@, message@, signature@),
{
    let key: [u8; 32] = key.try_into().unwrap();
    let signature: [u8; 64] = signature.try_into().unwrap();
    match ed25519_dalek::VerifyingKey::from_bytes(&key) {
        Ok(vk) => vk.verify(message, &ed25519_dalek::Signature::from_bytes(&signature)).is_ok(),
        Err(_) => false,
    }
}

/// `serde_json::Value::to_string` of a string value: a function of the text
/// alone.
#[verifier::external_body]
pub(crate) fn quote_json(text: &str) -> (r: String)
    ensures
        r@ == json_quote(text@),
{
    serde_json::Value::String(text.to_owned()).to_string()
}

/// `serde_json::from_str` to a value and `Value::as_i64`: a function of the text
/// alone, which gives an integer in its decimal form back.
#[verifier::external_body]
pub(crate) fn integer_of_json(text: &str) -> (r: Option<i64>)
    ensures
        r == json_integer(text@),
        forall|n: i64| text@ == #[trigger] text::decimal_int(n as int) ==> r == Some(n),
{
    serde_json::from_str::<serde_json::Value>(text).ok().and_then(|v| v.as_i64())
}

/// The `Debug` implementation of `str`: a function of the text alone.
#[verifier::external_body]
pub(crate) fn debug_of(text: &str) -> (r: String)
    ensures
        r@ == debug_string(text@),
{
    format!("{text:?}")
}

} // verus!
