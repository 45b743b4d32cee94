//! Display widths of text in terminal columns, as the `unicode-width` crate measures them.

use vstd::prelude::*;

verus! {

/// The columns a string takes (`UnicodeWidthStr::width`).
pub uninterp spec fn str_width(s: Seq<char>) -> nat;

/// The columns a character takes, or nothing for a control character
/// (`UnicodeWidthChar::width`).
pub uninterp spec fn char_width(c: char) -> Option<usize>;

/// Calls `unicode_width::UnicodeWidthStr::width`. The contract only names the result
/// (`str_width`); no width of any character is claimed.
#[verifier::external_body]
pub(crate) fn display_width(s: &str) -> (w: usize)
    ensures
        w == str_width(s@),
{
    unicode_width::UnicodeWidthStr::width(s)
}

/// Calls `unicode_width::UnicodeWidthChar::width`. The contract only names the result
/// (`char_width`).
#[verifier::external_body]
pub(crate) fn char_display_width(c: char) -> (w: Option<usize>)
    ensures
        w == char_width(c),
{
    unicode_width::UnicodeWidthChar::width(c)
}

} // verus!
