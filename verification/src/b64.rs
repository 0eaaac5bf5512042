//! Base64 text, as produced and consumed by the `base64` crate.
//!
//! Two engines are used: the unpadded URL-safe engine for everything that
//! lands in a file (encoded logical keys, nonce and ciphertext fields), and
//! the padded standard engine for the secret kept in the OS credential store.
//! Each engine's output is named by an uninterpreted function; the decode
//! wrappers state that decoding is the exact inverse of encoding, which is
//! what the engines' canonical-decoding configuration guarantees.

use vstd::prelude::*;

verus! {

/// The URL-safe base64 alphabet: `A`-`Z`, `a`-`z`, `0`-`9`, `-` and `_`.
pub open spec fn is_b64url_byte(b: u8) -> bool {
    ||| (65 <= b && b <= 90)
    ||| (97 <= b && b <= 122)
    ||| (48 <= b && b <= 57)
    ||| b == 45
    ||| b == 95
}

/// The unpadded URL-safe base64 text of a byte string, as ASCII bytes.
pub uninterp spec fn b64url_of(bytes: Seq<u8>) -> Seq<u8>;

/// The padded standard base64 text of a byte string, as characters.
pub uninterp spec fn b64std_of(bytes: Seq<u8>) -> Seq<char>;

/// Relies on base64's `URL_SAFE_NO_PAD` engine: `encode` emits the unpadded
/// URL-safe text of its input, drawn from the URL-safe alphabet. Slices never
/// exceed `isize::MAX` bytes, so the engine's buffer-size computation cannot
/// overflow.
#[verifier::external_body]
pub(crate) fn b64url_encode(input: &[u8]) -> (r: Vec<u8>)
    ensures
        r@ == b64url_of(input@),
        forall|i: int| 0 <= i < r@.len() ==> is_b64url_byte(#[trigger] r@[i]),
{
    base64::Engine::encode(&base64::engine::general_purpose::URL_SAFE_NO_PAD, input).into_bytes()
}

/// A decode outcome `r` undoes the URL-safe encoding of `text`: whenever the
/// text is the encoding of some byte string, that byte string comes back.
pub open spec fn inverts_b64url(text: Seq<u8>, r: Option<Vec<u8>>) -> bool {
    forall|b: Seq<u8>| text == #[trigger] b64url_of(b) ==> (r matches Some(v) && v@ == b)
}

/// Relies on the same engine's `decode`: with `NO_PAD` and trailing bits
/// rejected it accepts exactly the canonical unpadded encodings, and inverts
/// `encode`.
#[verifier::external_body]
pub(crate) fn b64url_decode(text: &[u8]) -> (r: Option<Vec<u8>>)
    ensures
        r matches Some(v) ==> text@ == b64url_of(v@),
        inverts_b64url(text@, r),
{
    base64::Engine::decode(&base64::engine::general_purpose::URL_SAFE_NO_PAD, text).ok()
}

/// Relies on base64's `STANDARD` engine: `encode` emits the padded standard
/// text of its input.
#[verifier::external_body]
pub(crate) fn b64std_encode(input: &[u8]) -> (r: String)
    ensures
        r@ == b64std_of(input@),
{
    base64::Engine::encode(&base64::engine::general_purpose::STANDARD, input)
}

/// A decode outcome `r` undoes the standard encoding of `text`: whenever the
/// text is the encoding of some byte string, that byte string comes back.
pub open spec fn inverts_b64std(text: Seq<char>, r: Option<Vec<u8>>) -> bool {
    forall|b: Seq<u8>| text == #[trigger] b64std_of(b) ==> (r matches Some(v) && v@ == b)
}

/// Relies on the `STANDARD` engine's `decode`: with canonical padding
/// required and trailing bits rejected it accepts exactly the canonical
/// padded encodings, and inverts `encode`.
#[verifier::external_body]
pub(crate) fn b64std_decode(text: &str) -> (r: Option<Vec<u8>>)
    ensures
        r matches Some(v) ==> text@ == b64std_of(v@),
        inverts_b64std(text@, r),
{
    base64::Engine::decode(&base64::engine::general_purpose::STANDARD, text).ok()
}

} // verus!
