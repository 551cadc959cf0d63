//! The character ramps that brightness levels are drawn with.

use vstd::prelude::*;
use crate::text::str_chars;

verus! {

/// Number of character ramps on offer.
pub const NUM_CHARSETS: usize = 4;

/// The ramp with the given index, darkest glyph first.
pub open spec fn charset_view(index: int) -> Seq<char> {
    if index == 0 {
        "@%#*+=-:. "@
    } else if index == 1 {
        "@#S%?*+;:,."@
    } else if index == 2 {
        "$@B%8&WM#*oahkbdpqwmZO0QLCJUYXzcvunxrjft/\\|()1{}[]?-_+~<>i!lI;:,\"^`. "@
    } else {
        "█▓▒░ "@
    }
}

/// Ramp text for `index`.
pub fn charset(index: usize) -> (s: &'static str)
    requires
        index < NUM_CHARSETS,
    ensures
        s@ == charset_view(index as int),
{
    if index == 0 {
        "@%#*+=-:. "
    } else if index == 1 {
        "@#S%?*+;:,."
    } else if index == 2 {
        "$@B%8&WM#*oahkbdpqwmZO0QLCJUYXzcvunxrjft/\\|()1{}[]?-_+~<>i!lI;:,\"^`. "
    } else {
        "█▓▒░ "
    }
}

/// The display name of ramp `index`.
pub open spec fn charset_name_view(index: int) -> Seq<char> {
    if index == 0 {
        "10-step"@
    } else if index == 1 {
        "Compact"@
    } else if index == 2 {
        "Bourke 70"@
    } else {
        "Unicode Blocks"@
    }
}

/// Display name of ramp `index`.
pub fn charset_name(index: usize) -> (s: &'static str)
    requires
        index < NUM_CHARSETS,
    ensures
        s@ == charset_name_view(index as int),
{
    if index == 0 {
        "10-step"
    } else if index == 1 {
        "Compact"
    } else if index == 2 {
        "Bourke 70"
    } else {
        "Unicode Blocks"
    }
}

/// The characters of ramp `index`, as a vector.
pub fn charset_chars(index: usize) -> (v: Vec<char>)
    requires
        index < NUM_CHARSETS,
    ensures
        v@ == charset_view(index as int),
{
    str_chars(charset(index))
}

/// Every ramp has at least two glyphs.
pub proof fn law_ramps_have_two_glyphs_or_more(index: int)
    requires
        0 <= index < NUM_CHARSETS,
    ensures
        charset_view(index).len() >= 2,
{
    reveal_strlit("@%#*+=-:. ");
    reveal_strlit("@#S%?*+;:,.");
    reveal_strlit("$@B%8&WM#*oahkbdpqwmZO0QLCJUYXzcvunxrjft/\\|()1{}[]?-_+~<>i!lI;:,\"^`. ");
    reveal_strlit("█▓▒░ ");
}

} // verus!
