//! Quoting of values in messages.

use vstd::prelude::*;

verus! {

/// The text that the `Debug` format of a string slice gives for the characters `s`.
pub uninterp spec fn debug_text(s: Seq<char>) -> Seq<char>;

/// Formats `s` with `{:?}`: in double quotes, with escapes.
///
/// Calls the `Debug` implementation of `str` through `format!`. Trusted: the text depends on the
/// characters of `s` alone. Which characters are escaped, and how, is left unsaid: it follows the
/// Unicode tables of the standard library.
#[verifier::external_body]
pub(crate) fn debug_quoted(s: &str) -> (quoted: String)
    ensures
        quoted@ == debug_text(s@),
{
    format!("{:?}", s)
}

} // verus!
