//! Byte and text encodings that the protocols and subscriptions use:
//! base64 through the `base64` crate, percent-decoding through
//! `urlencoding`, and UTF-8 through std.
use vstd::prelude::*;
use vstd::utf8::{decode_utf8, valid_utf8};

use base64::Engine;

verus! {

/// The standard base64 encoding, with padding, of some bytes.
pub uninterp spec fn base64_standard(b: Seq<u8>) -> Seq<char>;

/// What standard base64 with padding decodes a text to, if it decodes.
pub uninterp spec fn base64_standard_decoded(s: Seq<char>) -> Option<Seq<u8>>;

/// What URL-safe base64 with padding decodes a text to, if it decodes.
pub uninterp spec fn base64_url_safe_decoded(s: Seq<char>) -> Option<Seq<u8>>;

/// What URL-safe base64 without padding decodes a text to, if it decodes.
pub uninterp spec fn base64_url_safe_no_pad_decoded(s: Seq<char>) -> Option<Seq<u8>>;

/// What percent-decoding gives for a text, if the result is UTF-8.
pub uninterp spec fn percent_decoded(s: Seq<char>) -> Option<Seq<char>>;

/// The text that lossy UTF-8 decoding gives for some bytes.
pub uninterp spec fn utf8_lossy(b: Seq<u8>) -> Seq<char>;

/// `base64::engine::general_purpose::STANDARD.encode`. Claimed: the result
/// is `base64_standard` of the bytes.
#[verifier::external_body]
pub(crate) fn base64_encode(b: &[u8]) -> (r: String)
    ensures
        r@ == base64_standard(b@),
{
    base64::engine::general_purpose::STANDARD.encode(b)
}

/// `base64::engine::general_purpose::STANDARD.decode`. Claimed: the result
/// is `base64_standard_decoded` of the text, `None` where the crate
/// returns an error.
#[verifier::external_body]
pub(crate) fn base64_decode_standard(s: &str) -> (r: Option<Vec<u8>>)
    ensures
        match r {
            Some(v) => base64_standard_decoded(s@) == Some(v@),
            None => base64_standard_decoded(s@) is None,
        },
{
    base64::engine::general_purpose::STANDARD.decode(s).ok()
}

/// `base64::engine::general_purpose::URL_SAFE.decode`, as above.
#[verifier::external_body]
pub(crate) fn base64_decode_url_safe(s: &str) -> (r: Option<Vec<u8>>)
    ensures
        match r {
            Some(v) => base64_url_safe_decoded(s@) == Some(v@),
            None => base64_url_safe_decoded(s@) is None,
        },
{
    base64::engine::general_purpose::URL_SAFE.decode(s).ok()
}

/// `base64::engine::general_purpose::URL_SAFE_NO_PAD.decode`, as above.
#[verifier::external_body]
pub(crate) fn base64_decode_url_safe_no_pad(s: &str) -> (r: Option<Vec<u8>>)
    ensures
        match r {
            Some(v) => base64_url_safe_no_pad_decoded(s@) == Some(v@),
            None => base64_url_safe_no_pad_decoded(s@) is None,
        },
{
    base64::engine::general_purpose::URL_SAFE_NO_PAD.decode(s).ok()
}

/// `urlencoding::decode`. Claimed: the result is `percent_decoded` of the
/// text, `None` where the crate returns an error.
#[verifier::external_body]
pub(crate) fn percent_decode(s: &str) -> (r: Option<String>)
    ensures
        match r {
            Some(v) => percent_decoded(s@) == Some(v@),
            None => percent_decoded(s@) is None,
        },
{
    match urlencoding::decode(s) {
        Ok(v) => Some(v.into_owned()),
        Err(_) => None,
    }
}

/// `String::from_utf8` on a copy of the bytes. Claimed, as std documents
/// it: a string exactly when the bytes are valid UTF-8, holding the
/// characters they encode.
#[verifier::external_body]
pub(crate) fn utf8_decode(b: &[u8]) -> (r: Option<String>)
    ensures
        r is Some <==> valid_utf8(b@),
        r matches Some(s) ==> s@ == decode_utf8(b@),
{
    String::from_utf8(b.to_vec()).ok()
}

/// `String::from_utf8_lossy`. Claimed: the result is `utf8_lossy` of the
/// bytes, and, as std documents, the decoded text where the bytes are valid
/// UTF-8.
#[verifier::external_body]
pub(crate) fn utf8_decode_lossy(b: &[u8]) -> (r: String)
    ensures
        r@ == utf8_lossy(b@),
        valid_utf8(b@) ==> r@ == decode_utf8(b@),
{
    String::from_utf8_lossy(b).into_owned()
}

} // verus!
