//! Text operations that rest on the Unicode tables of the standard library.
use vstd::prelude::*;
use vstd::utf8::{decode_utf8, valid_utf8};

verus! {

/// What `str::to_lowercase` makes of a text.
pub uninterp spec fn lowercased(text: Seq<char>) -> Seq<char>;

/// Calls `str::to_lowercase`. The contract claims that the outcome depends on
/// the text alone, and names it [`lowercased`].
#[verifier::external_body]
pub(crate) fn lowercase(text: &str) -> (r: String)
    ensures
        r@ == lowercased(text@),
{
    text.to_lowercase()
}

/// How `{:?}` shows a text: between double quotes, with what is not printable
/// escaped.
pub uninterp spec fn quoted(text: Seq<char>) -> Seq<char>;

/// Formats a text with the standard library's `Debug` of `str`. The contract
/// claims that the outcome depends on the text alone, and names it [`quoted`].
#[verifier::external_body]
pub(crate) fn quote(text: &str) -> (r: String)
    ensures
        r@ == quoted(text@),
{
    format!("{text:?}")
}

/// What `String::from_utf8_lossy` makes of some bytes.
pub uninterp spec fn lossy_text(bytes: Seq<u8>) -> Seq<char>;

/// Calls `String::from_utf8_lossy`. The contract claims that the outcome depends
/// on the bytes alone, names it [`lossy_text`], and says that bytes which are
/// UTF-8 give the text that they encode.
#[verifier::external_body]
pub(crate) fn from_utf8_lossy(bytes: &[u8]) -> (r: String)
    ensures
        r@ == lossy_text(bytes@),
        valid_utf8(bytes@) ==> r@ == decode_utf8(bytes@),
{
    String::from_utf8_lossy(bytes).into_owned()
}

} // verus!
