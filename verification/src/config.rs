//! Conversion settings that the verified engine reads.

use vstd::prelude::*;

verus! {

/// The discrete settings of a conversion: output width in characters,
/// colour output, dithering, edge glyphs, inverted ramp and ramp choice.
#[derive(Clone, Copy, Debug, PartialEq, Eq, Structural)]
pub struct AsciiConfig {
    pub width_chars: usize,
    pub color: bool,
    pub dither: bool,
    pub edges: bool,
    pub invert: bool,
    pub charset_index: usize,
}

impl AsciiConfig {
    /// The default settings: 160 characters wide, everything off, first ramp.
    pub open spec fn default_spec() -> AsciiConfig {
        AsciiConfig {
            width_chars: 160,
            color: false,
            dither: false,
            edges: false,
            invert: false,
            charset_index: 0,
        }
    }
}

impl Default for AsciiConfig {
    fn default() -> (c: Self)
        ensures
            c == AsciiConfig::default_spec(),
    {
        AsciiConfig {
            width_chars: 160,
            color: false,
            dither: false,
            edges: false,
            invert: false,
            charset_index: 0,
        }
    }
}

} // verus!
