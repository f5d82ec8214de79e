//! The display width of characters, as the `unicode-width` crate measures it.

use vstd::prelude::*;

verus! {

/// The width in columns that `unicode-width` gives a character, `None` for control characters.
pub uninterp spec fn unicode_width_of(c: char) -> Option<usize>;

/// The display width of `c` (`UnicodeWidthChar::width`): `None` for control characters, one column
/// for printable ASCII, and at most three columns for any other character.
#[verifier::external_body]
pub(crate) fn char_width(c: char) -> (r: Option<usize>)
    ensures
        r == unicode_width_of(c),
        (c as u32) < 0x20 ==> r is None,
        0x20 <= (c as u32) < 0x7f ==> r == Some(1usize),
        0x7f <= (c as u32) < 0xa0 ==> r is None,
        (c as u32) >= 0xa0 ==> r is Some && r.unwrap() <= 3,
{
    unicode_width::UnicodeWidthChar::width(c)
}

} // verus!
