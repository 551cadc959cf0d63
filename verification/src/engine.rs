//! Cells of the ASCII picture and the rules that choose each cell's glyph.

use vstd::prelude::*;
use crate::charsets::{charset_chars, charset_view, law_ramps_have_two_glyphs_or_more, NUM_CHARSETS};

verus! {

/// One character of output, with the colour of the pixel it stands for.
#[derive(Clone, Copy, Debug, PartialEq, Eq, Structural)]
pub struct AsciiCell {
    pub ch: char,
    pub r: u8,
    pub g: u8,
    pub b: u8,
}

/// A converted picture: `out_h` rows of `out_w` cells, and the size of the
/// image it was made from.
#[derive(Clone, Debug)]
pub struct AsciiResult {
    pub cells: Vec<Vec<AsciiCell>>,
    pub img_w: u32,
    pub img_h: u32,
    pub out_w: usize,
    pub out_h: usize,
}

impl AsciiResult {
    /// The grid has `out_h` rows of `out_w` cells each.
    pub open spec fn wf(&self) -> bool {
        &&& self.cells@.len() == self.out_h
        &&& forall|y: int| 0 <= y < self.out_h ==> #[trigger] self.cells@[y]@.len() == self.out_w
    }
}

/// The number of output rows for a picture of `img_w` by `img_h` pixels
/// whose scaled height rounds to `scaled_rows`: none for a picture without
/// pixels, else at least one row.
pub fn output_height(img_w: u32, img_h: u32, scaled_rows: usize) -> (rows: Option<usize>)
    ensures
        rows == (if img_w == 0 || img_h == 0 {
            None
        } else if scaled_rows == 0 {
            Some(1usize)
        } else {
            Some(scaled_rows)
        }),
{
    if img_w == 0 || img_h == 0 {
        None
    } else if scaled_rows == 0 {
        Some(1)
    } else {
        Some(scaled_rows)
    }
}

/// Number of edge directions and their glyphs.
pub const NUM_EDGE_DIRS: usize = 4;

/// Glyph for an edge direction: 0 horizontal, 1 rising, 2 vertical, 3 falling.
pub open spec fn edge_glyph(dir: int) -> char {
    if dir == 0 {
        '-'
    } else if dir == 1 {
        '/'
    } else if dir == 2 {
        '|'
    } else {
        '\\'
    }
}

/// Glyph for an edge direction.
pub fn edge_char(dir: usize) -> (c: char)
    requires
        dir < NUM_EDGE_DIRS,
    ensures
        c == edge_glyph(dir as int),
{
    if dir == 0 {
        '-'
    } else if dir == 1 {
        '/'
    } else if dir == 2 {
        '|'
    } else {
        '\\'
    }
}

/// A brightness level clamped to the ramp: at most `num_levels - 1`.
pub open spec fn clamp_level(raw: int, num_levels: int) -> int {
    if raw < num_levels - 1 {
        raw
    } else {
        num_levels - 1
    }
}

/// A raw brightness level clamped to a ramp of `num_levels` glyphs.
pub fn clamp_to_ramp(raw_level: usize, num_levels: usize) -> (level: usize)
    requires
        num_levels >= 1,
    ensures
        level == clamp_level(raw_level as int, num_levels as int),
        level < num_levels,
        raw_level < num_levels ==> level == raw_level,
        raw_level >= num_levels ==> level == num_levels - 1,
{
    if raw_level < num_levels - 1 {
        raw_level
    } else {
        num_levels - 1
    }
}

/// The ramp glyph for a brightness level, read from the dark end of the
/// ramp, or from the light end when `invert` is set.
pub open spec fn ramp_glyph(chars: Seq<char>, raw_level: int, invert: bool) -> char {
    let level = clamp_level(raw_level, chars.len() as int);
    if invert {
        chars[chars.len() - 1 - level]
    } else {
        chars[level]
    }
}

/// The ramp glyph for a raw brightness level.
pub fn ramp_char(chars: &[char], raw_level: usize, invert: bool) -> (c: char)
    requires
        chars@.len() >= 1,
    ensures
        c == ramp_glyph(chars@, raw_level as int, invert),
        raw_level < chars@.len() && !invert ==> c == chars@[raw_level as int],
        raw_level < chars@.len() && invert ==> c == chars@[chars@.len() - 1 - raw_level],
        raw_level >= chars@.len() && !invert ==> c == chars@[chars@.len() - 1],
        raw_level >= chars@.len() && invert ==> c == chars@[0],
{
    let num_levels = chars.len();
    let level = clamp_to_ramp(raw_level, num_levels);
    if invert {
        chars[num_levels - 1 - level]
    } else {
        chars[level]
    }
}

/// The edge direction recorded at pixel `idx`, if edges were detected.
pub open spec fn edge_at(edge_map: Option<Vec<Option<usize>>>, idx: int) -> Option<usize> {
    match edge_map {
        Some(e) => e@[idx],
        None => None,
    }
}

/// The cell for one pixel: an edge glyph where an edge was found, else the
/// ramp glyph for its level; the colour is the pixel's.
pub open spec fn cell_for(
    rgb: (u8, u8, u8),
    raw_level: usize,
    edge: Option<usize>,
    chars: Seq<char>,
    invert: bool,
) -> AsciiCell {
    let ch = match edge {
        Some(dir) => edge_glyph(dir as int),
        None => ramp_glyph(chars, raw_level as int, invert),
    };
    AsciiCell { ch, r: rgb.0, g: rgb.1, b: rgb.2 }
}

/// Every direction in the edge map names one of the edge glyphs.
pub open spec fn edge_map_valid(edge_map: Option<Vec<Option<usize>>>, n: int) -> bool {
    match edge_map {
        Some(e) => {
            &&& e@.len() >= n
            &&& forall|i: int| 0 <= i < n ==> (#[trigger] e@[i] matches Some(d) ==> d < NUM_EDGE_DIRS)
        },
        None => true,
    }
}

/// Builds row `y` of the picture from the pixel colours, the raw brightness
/// level of each pixel and the optional edge map.
pub fn build_row(
    y: usize,
    out_w: usize,
    rgb: &[(u8, u8, u8)],
    levels: &[usize],
    edge_map: &Option<Vec<Option<usize>>>,
    chars: &[char],
    invert: bool,
) -> (out: Vec<AsciiCell>)
    requires
        (y + 1) * out_w <= rgb@.len(),
        (y + 1) * out_w <= levels@.len(),
        edge_map_valid(*edge_map, (y + 1) * out_w),
        chars@.len() >= 1,
    ensures
        out@.len() == out_w,
        forall|x: int|
            0 <= x < out_w ==> #[trigger] out@[x] == cell_for(
                rgb@[y * out_w + x],
                levels@[y * out_w + x],
                edge_at(*edge_map, y * out_w + x),
                chars@,
                invert,
            ),
{
    let n_rgb = rgb.len();
    let mut row: Vec<AsciiCell> = Vec::new();
    let mut x: usize = 0;
    proof {
        assert((y + 1) * out_w == y * out_w + out_w) by (nonlinear_arith);
        assert(0 <= y * out_w) by (nonlinear_arith);
    }
    while x < out_w
        invariant
            x <= out_w,
            chars@.len() >= 1,
            (y + 1) * out_w == y * out_w + out_w,
            0 <= y * out_w,
            n_rgb == rgb@.len(),
            (y + 1) * out_w <= rgb@.len(),
            (y + 1) * out_w <= levels@.len(),
            edge_map_valid(*edge_map, (y + 1) * out_w),
            row@.len() == x,
            forall|i: int|
                0 <= i < x ==> #[trigger] row@[i] == cell_for(
                    rgb@[y * out_w + i],
                    levels@[y * out_w + i],
                    edge_at(*edge_map, y * out_w + i),
                    chars@,
                    invert,
                ),
        decreases out_w - x,
    {
        let idx = y * out_w + x;
        let (r, g, b) = rgb[idx];
        let edge: Option<usize> = match edge_map {
            Some(edges) => edges[idx],
            None => None,
        };
        let ch = match edge {
            Some(dir) => edge_char(dir),
            None => ramp_char(chars, levels[idx], invert),
        };
        row.push(AsciiCell { ch, r, g, b });
        x = x + 1;
    }
    row
}

/// The cell that the picture holds at column `x` of row `y`.
pub open spec fn picture_cell(
    out_w: usize,
    rgb: Seq<(u8, u8, u8)>,
    levels: Seq<usize>,
    edge_map: Option<Vec<Option<usize>>>,
    charset_index: usize,
    invert: bool,
    y: int,
    x: int,
) -> AsciiCell {
    cell_for(
        rgb[y * out_w + x],
        levels[y * out_w + x],
        edge_at(edge_map, y * out_w + x),
        charset_view(charset_index as int),
        invert,
    )
}

/// Assembles the picture: `out_h` rows of `out_w` cells, the pixels taken in
/// raster order, each drawn with ramp `charset_index`.
pub fn assemble_result(
    img_w: u32,
    img_h: u32,
    out_w: usize,
    out_h: usize,
    rgb: &[(u8, u8, u8)],
    levels: &[usize],
    edge_map: &Option<Vec<Option<usize>>>,
    charset_index: usize,
    invert: bool,
) -> (res: AsciiResult)
    requires
        out_h * out_w <= rgb@.len(),
        out_h * out_w <= levels@.len(),
        edge_map_valid(*edge_map, out_h * out_w),
        charset_index < NUM_CHARSETS,
    ensures
        res.wf(),
        res.img_w == img_w,
        res.img_h == img_h,
        res.out_w == out_w,
        res.out_h == out_h,
        forall|y: int, x: int|
            0 <= y < out_h && 0 <= x < out_w ==> #[trigger] res.cells@[y]@[x] == picture_cell(
                out_w,
                rgb@,
                levels@,
                *edge_map,
                charset_index,
                invert,
                y,
                x,
            ),
{
    let chars = charset_chars(charset_index);
    proof {
        law_ramps_have_two_glyphs_or_more(charset_index as int);
    }
    let mut cells: Vec<Vec<AsciiCell>> = Vec::new();
    let mut y: usize = 0;
    while y < out_h
        invariant
            y <= out_h,
            chars@ == charset_view(charset_index as int),
            chars@.len() >= 2,
            out_h * out_w <= rgb@.len(),
            out_h * out_w <= levels@.len(),
            edge_map_valid(*edge_map, out_h * out_w),
            cells@.len() == y,
            forall|j: int| 0 <= j < y ==> #[trigger] cells@[j]@.len() == out_w,
            forall|j: int, x: int|
                0 <= j < y && 0 <= x < out_w ==> #[trigger] cells@[j]@[x] == picture_cell(
                    out_w,
                    rgb@,
                    levels@,
                    *edge_map,
                    charset_index,
                    invert,
                    j,
                    x,
                ),
        decreases out_h - y,
    {
        proof {
            assert((y + 1) * out_w <= out_h * out_w) by (nonlinear_arith)
                requires
                    y < out_h,
            ;
            assert(edge_map_valid(*edge_map, (y + 1) * out_w)) by {
                if let Some(e) = *edge_map {
                    assert forall|i: int| 0 <= i < (y + 1) * out_w implies (#[trigger] e@[i] matches Some(
                        d,
                    ) ==> d < NUM_EDGE_DIRS) by {}
                }
            }
        }
        let row = build_row(y, out_w, rgb, levels, edge_map, chars.as_slice(), invert);
        cells.push(row);
        y = y + 1;
    }
    AsciiResult { cells, img_w, img_h, out_w, out_h }
}

} // verus!
