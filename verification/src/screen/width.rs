//! Display width of characters.

use unicode_width::UnicodeWidthChar;
use vstd::prelude::*;

verus! {

/// What `unicode_width::UnicodeWidthChar::width` gives for a character: the
/// number of columns that it takes on display, or nothing for a control character.
pub uninterp spec fn char_columns(c: char) -> Option<usize>;

/// The columns that a character takes: one for a printable ASCII character, none for
/// a control character, and for others what the outside function says.
pub open spec fn columns(c: char) -> int {
    if 0x20 <= c as u32 <= 0x7e {
        1
    } else if (c as u32) < 0x20 || c as u32 <= 0x9f {
        0
    } else {
        match char_columns(c) {
            Some(w) => w as int,
            None => 0,
        }
    }
}

/// Display width of a character, by `unicode_width::UnicodeWidthChar::width`. It
/// depends on the character alone. Printable ASCII characters take one column,
/// control characters have no width, and no character takes more columns than
/// fit in eight bits.
#[verifier::external_body]
fn outside_width(c: char) -> (res: Option<usize>)
    ensures
        res == char_columns(c),
        0x20 <= c as u32 <= 0x7e ==> res == Some(1usize),
        (c as u32) < 0x20 || 0x7f <= c as u32 <= 0x9f ==> res == None::<usize>,
        res matches Some(w) ==> w <= u8::MAX,
{
    UnicodeWidthChar::width(c)
}

/// Number of columns that a character takes on display.
pub fn char_width(c: char) -> (res: u16)
    ensures
        res == columns(c),
        res <= u8::MAX,
        0x20 <= c as u32 <= 0x7e ==> res == 1,
        (c as u32) < 0x20 || 0x7f <= c as u32 <= 0x9f ==> res == 0,
{
    match outside_width(c) {
        Some(w) => w as u16,
        None => 0,
    }
}

} // verus!
