use vstd::prelude::*;
use vstd::utf8::{decode_utf8, valid_utf8};

verus! {

/// The character that stands in for ill-formed UTF-8.
pub const REPLACEMENT_CHARACTER: char = '\u{FFFD}';

/// The text that lossy UTF-8 decoding gives for `bytes`: every maximal
/// ill-formed subsequence becomes U+FFFD. It depends on the bytes alone.
pub uninterp spec fn lossy_utf8(bytes: Seq<u8>) -> Seq<char>;

/// Decodes `bytes` as UTF-8, replacing ill-formed input with U+FFFD.
///
/// Calls `String::from_utf8_lossy` and takes the result as an owned `String`.
/// Trusted: the result is the named lossy decoding of the bytes, and, as the
/// documentation of `from_utf8_lossy` says, valid UTF-8 is decoded unchanged
/// while ill-formed input gets the replacement character U+FFFD in its text.
#[verifier::external_body]
pub(crate) fn decode_lossy(bytes: &[u8]) -> (text: String)
    ensures
        text@ == lossy_utf8(bytes@),
        valid_utf8(bytes@) ==> text@ == decode_utf8(bytes@),
        !valid_utf8(bytes@) ==> text@.contains(REPLACEMENT_CHARACTER),
{
    String::from_utf8_lossy(bytes).into_owned()
}

/// Appends one character to a string.
///
/// Calls `String::push`. Trusted: the string afterwards is the old one with
/// `c` at its end, as the documentation of `String::push` says.
#[verifier::external_body]
pub(crate) fn push_char(text: &mut String, c: char)
    ensures
        final(text)@ == old(text)@.push(c),
{
    text.push(c)
}

} // verus!
