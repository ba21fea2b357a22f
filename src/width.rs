//! Display width of text, in terminal columns.

use vstd::prelude::*;
use unicode_width::UnicodeWidthStr;

verus! {

/// Column width that the Unicode width table assigns to a character at or
/// above U+00A0 (ambiguous characters count as one column).
pub uninterp spec fn table_cols(c: char) -> nat;

/// Columns taken by one character: printable ASCII takes one, control
/// characters take none, everything from U+00A0 up goes by the width table.
pub open spec fn char_cols(c: char) -> nat {
    if 0x20 <= c as u32 && (c as u32) < 0x7f {
        1
    } else if (c as u32) < 0xa0 {
        0
    } else {
        table_cols(c)
    }
}

/// Columns taken by a whole string: the sum over its characters.
pub open spec fn str_cols(s: Seq<char>) -> nat
    decreases s.len(),
{
    if s.len() == 0 {
        0
    } else {
        str_cols(s.drop_last()) + char_cols(s.last())
    }
}

/// Relies on `UnicodeWidthStr::width` of unicode-width: the sum of the
/// characters' widths, with control characters counted as zero, and no
/// character wider than two columns.
#[verifier::external_body]
pub(crate) fn display_width(s: &str) -> (r: usize)
    ensures
        r == str_cols(s@),
        r <= 2 * s@.len(),
        s@.len() == 1 && s@[0] as u32 >= 0xa0 ==> r == table_cols(s@[0]),
{
    s.width()
}

} // verus!
