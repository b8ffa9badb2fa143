//! Calls into code that Verus does not read: `std`'s UTF-8 decoding, `unicode-width` and `sha2`.
use vstd::prelude::*;

use sha2::Digest;
use unicode_width::UnicodeWidthStr;
use vstd::utf8::{decode_utf8, valid_utf8};

verus! {

/// `String::from_utf8`: the text that `bytes` encode when they are valid UTF-8, nothing otherwise.
/// Believed, not proved: that std decodes exactly the byte strings that `valid_utf8` accepts, the
/// way `decode_utf8` reads them.
#[verifier::external_body]
pub(crate) fn utf8_string(bytes: Vec<u8>) -> (r: Option<String>)
    ensures
        match r {
            Some(s) => valid_utf8(bytes@) && s@ == decode_utf8(bytes@),
            None => !valid_utf8(bytes@),
        },
{
    String::from_utf8(bytes).ok()
}

/// The display width that `unicode-width` computes for a text (Unicode Annex #11 and the
/// crate's ligature rules; pages of tables).
pub uninterp spec fn text_width(s: Seq<char>) -> usize;

/// `UnicodeWidthStr::width`. Believed, not proved: that the result depends on the text alone;
/// nothing is claimed of its value.
#[verifier::external_body]
pub(crate) fn width(s: &str) -> (r: usize)
    ensures
        r == text_width(s@),
{
    UnicodeWidthStr::width(s)
}

/// The SHA-256 digest of a byte string.
pub uninterp spec fn sha256(data: Seq<u8>) -> Seq<u8>;

/// `sha2::Sha256::digest`. Believed, not proved: that the result depends on the bytes alone and
/// that it is 32 bytes long (the digest's output size).
#[verifier::external_body]
pub(crate) fn sha256_digest(data: &[u8]) -> (r: Vec<u8>)
    ensures
        r@ == sha256(data@),
        r@.len() == 32,
{
    sha2::Sha256::digest(data).to_vec()
}

} // verus!
