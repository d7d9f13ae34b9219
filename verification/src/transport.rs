//! Trusted boundary to the text-transport encodings.
//!
//! The byte-to-text transport (base64, in two alphabets) is done by the
//! `base64` crate, and byte-to-string conversion by `String::from_utf8`.
//! Each call stands behind a small wrapper whose contract Verus believes;
//! everything else in this crate is verified against these contracts.

use vstd::prelude::*;
use vstd::utf8::{decode_utf8, valid_utf8};
use base64::Engine;

verus! {

/// What `base64`'s `URL_SAFE_NO_PAD` engine decodes a text to: `Some` of the
/// bytes exactly on well-formed unpadded URL-safe base64, `None` otherwise.
/// The result depends on the characters alone.
pub uninterp spec fn b64url_decoding(s: Seq<char>) -> Option<Seq<u8>>;

/// What `base64`'s `URL_SAFE_NO_PAD` engine encodes a byte sequence to.
/// The result depends on the bytes alone.
pub uninterp spec fn b64url_encoding(b: Seq<u8>) -> Seq<char>;

/// A character of the unpadded URL-safe base64 alphabet.
pub open spec fn is_b64url_char(c: char) -> bool {
    ('A' <= c && c <= 'Z') || ('a' <= c && c <= 'z') || ('0' <= c && c <= '9') || c == '-' || c
        == '_'
}

/// What `base64`'s `STANDARD` engine (standard alphabet, canonical padding
/// required) decodes a text to.  The result depends on the characters alone.
pub uninterp spec fn b64std_decoding(s: Seq<char>) -> Option<Seq<u8>>;

/// Relies on `base64::engine::general_purpose::URL_SAFE_NO_PAD.encode`:
/// unpadded URL-safe text of `(4 * n + 2) / 3` characters, which the same
/// engine's `decode` inverts.  The length bound keeps the output buffer size
/// below `usize::MAX`, where `encode` would panic.
#[verifier::external_body]
pub(crate) fn b64url_encode(b: &[u8]) -> (text: String)
    requires
        4 * (b@.len() / 3) + 4 <= usize::MAX,
    ensures
        text@ == b64url_encoding(b@),
        b64url_decoding(text@) == Some(b@),
        text@.len() == (4 * b@.len() + 2) / 3,
        forall|k: int| 0 <= k < text@.len() ==> is_b64url_char(#[trigger] text@[k]),
{
    base64::engine::general_purpose::URL_SAFE_NO_PAD.encode(b)
}

/// Relies on `base64::engine::general_purpose::URL_SAFE_NO_PAD.decode`:
/// fails exactly on text that is not unpadded URL-safe base64; at least two
/// symbols, hence at least one byte, come out of any non-empty valid text.
#[verifier::external_body]
pub(crate) fn b64url_decode(text: &str) -> (r: Option<Vec<u8>>)
    ensures
        match r {
            Some(b) => b64url_decoding(text@) == Some(b@) && (b@.len() == 0 <==> text@.len() == 0),
            None => b64url_decoding(text@) is None,
        },
{
    base64::engine::general_purpose::URL_SAFE_NO_PAD.decode(text).ok()
}

/// Relies on `base64::engine::general_purpose::STANDARD.decode`: fails
/// exactly on text that is not standard-alphabet base64 with canonical
/// padding.
#[verifier::external_body]
pub(crate) fn b64std_decode(text: &str) -> (r: Option<Vec<u8>>)
    ensures
        match r {
            Some(b) => b64std_decoding(text@) == Some(b@),
            None => b64std_decoding(text@) is None,
        },
{
    base64::engine::general_purpose::STANDARD.decode(text).ok()
}

/// Relies on `String::from_utf8`: succeeds exactly on valid UTF-8 and
/// returns the string those bytes spell.
#[verifier::external_body]
pub(crate) fn string_from_utf8(bytes: Vec<u8>) -> (r: Option<String>)
    ensures
        match r {
            Some(s) => valid_utf8(bytes@) && s@ == decode_utf8(bytes@),
            None => !valid_utf8(bytes@),
        },
{
    String::from_utf8(bytes).ok()
}

} // verus!
