//! How wide text is on a terminal, measured in cells.

use vstd::prelude::*;

verus! {

/// The displayed width of a character in columns; none for a control character.
pub uninterp spec fn char_cells(c: char) -> Option<usize>;

/// `unicode_width::UnicodeWidthChar::width`. Which characters are wide is the crate's table.
/// It is claimed that printable ASCII is one column wide, that control characters have no
/// width, and that no character is wider than three columns.
#[verifier::external_body]
pub(crate) fn char_width(c: char) -> (r: Option<usize>)
    ensures
        r == char_cells(c),
        ' ' <= c <= '~' ==> r == Some(1usize),
        (c < ' ' || '\u{7f}' <= c < '\u{a0}') <==> r is None,
        r matches Some(n) ==> n <= 3,
{
    unicode_width::UnicodeWidthChar::width(c)
}

/// The displayed width of a text in columns.
pub uninterp spec fn text_cells(s: Seq<char>) -> usize;

/// `unicode_width::UnicodeWidthStr::width`. A text is not always as wide as its characters
/// together: some join. It is claimed that a text of printable ASCII is as wide as it is
/// long.
#[verifier::external_body]
pub(crate) fn text_width(s: &str) -> (r: usize)
    ensures
        r == text_cells(s@),
        (forall|i: int| 0 <= i < s@.len() ==> ' ' <= #[trigger] s@[i] <= '~') ==> r == s@.len(),
{
    unicode_width::UnicodeWidthStr::width(s)
}

} // verus!
