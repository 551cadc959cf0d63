//! Properties that hold across the library's functions.

use vstd::prelude::*;
use crate::charsets::{charset_view, law_ramps_have_two_glyphs_or_more, NUM_CHARSETS};
use crate::config::AsciiConfig;
use crate::engine::{
    clamp_level, picture_cell, ramp_glyph, AsciiCell, AsciiResult,
};
use crate::export::{
    cell_markup, cells_markup, hex_byte, hex_digit, html_head, html_page, html_tail, result_rows, row_glyphs,
    rows_markup, rows_text,
};
use crate::frame::{ascii_lower, known_format_extension, pixel_among, pixel_of, RgbFrame};
use crate::session::image_extension;
use crate::session::AsciiApp;
use crate::kernels::{direction_class, placed_edges};
use crate::probe::{
    digits_value, is_digit, lines_scan, probe_lines, probe_step, strip_cr, text_lines, u32_of,
    unsigned_digits,
};
use crate::text::split_once;

verus! {

// ---------------------------------------------------------------------------
// Export
// ---------------------------------------------------------------------------

proof fn lemma_rows_markup_monochrome(rows: Seq<Seq<AsciiCell>>)
    requires
        rows.len() > 0,
    ensures
        rows_markup(rows, false) == rows_text(rows) + seq!['\n'],
    decreases rows.len(),
{
    if rows.len() == 1 {
        assert(rows.drop_last().len() == 0);
        assert(rows.last() == rows[0]);
        assert(rows_markup(rows.drop_last(), false) =~= Seq::<char>::empty());
        assert(rows_markup(rows, false) =~= row_glyphs(rows[0]) + seq!['\n']);
    } else {
        lemma_rows_markup_monochrome(rows.drop_last());
        assert(rows_markup(rows, false) =~= rows_text(rows.drop_last()) + seq!['\n'] + row_glyphs(
            rows.last(),
        ) + seq!['\n']);
    }
}

/// Without colours, the HTML page holds exactly the plain-text export: the
/// page head, the text with a line break after its last row, the page tail.
pub proof fn law_monochrome_page_holds_text(result: &AsciiResult, config: &AsciiConfig)
    requires
        !config.color,
    ensures
        html_page(result, config) == html_head(config.invert) + (if result_rows(result).len() == 0 {
            Seq::<char>::empty()
        } else {
            rows_text(result_rows(result)) + seq!['\n']
        }) + html_tail(),
{
    let rows = result_rows(result);
    if rows.len() == 0 {
        assert(rows_markup(rows, false) =~= Seq::<char>::empty());
    } else {
        lemma_rows_markup_monochrome(rows);
    }
}

/// The value of a lower-case hexadecimal digit, -1 for any other character.
pub open spec fn hex_value(c: char) -> int {
    if '0' as u32 <= c as u32 <= '9' as u32 {
        c as u32 - '0' as u32
    } else if 'a' as u32 <= c as u32 <= 'f' as u32 {
        c as u32 - 'a' as u32 + 10
    } else {
        -1
    }
}

proof fn lemma_hex_digit_value(n: int)
    requires
        0 <= n < 16,
    ensures
        hex_value(hex_digit(n)) == n,
{
}

/// The colour written into a page is the cell's colour: each byte becomes
/// two lower-case hexadecimal digits that read back as that byte.
pub proof fn law_hex_byte_reads_back(b: u8)
    ensures
        hex_byte(b).len() == 2,
        16 * hex_value(hex_byte(b)[0]) + hex_value(hex_byte(b)[1]) == b,
{
    lemma_hex_digit_value(b as int / 16);
    lemma_hex_digit_value(b as int % 16);
}

// ---------------------------------------------------------------------------
// Cells
// ---------------------------------------------------------------------------

/// Inverting reads the ramp from its other end: the inverted glyph for a
/// level is the plain glyph of the reversed ramp; levels past the end of the
/// ramp all get its last glyph.
pub proof fn law_invert_reverses_ramp(chars: Seq<char>, level: int)
    requires
        chars.len() >= 1,
        level >= 0,
    ensures
        ramp_glyph(chars, level, true) == ramp_glyph(chars.reverse(), level, false),
        level >= chars.len() - 1 ==> ramp_glyph(chars, level, false) == chars.last(),
{
    assert(chars.reverse().len() == chars.len());
}

proof fn lemma_cell_index(y: int, x: int, w: int, h: int)
    requires
        0 <= y < h,
        0 <= x < w,
    ensures
        0 <= y * w + x < h * w,
{
    assert(0 <= y * w) by (nonlinear_arith)
        requires
            0 <= y,
            0 <= w,
    ;
    assert((y + 1) * w <= h * w) by (nonlinear_arith)
        requires
            y + 1 <= h,
            0 <= w,
    ;
    assert((y + 1) * w == y * w + w) by (nonlinear_arith);
}

/// Every cell of a picture shows a colour of the source image, when the
/// pixel colours were read from a nearest-neighbour resize of it: the resize
/// only copies source pixels, and each cell keeps its pixel's colour.
pub proof fn law_cell_colours_come_from_source(
    source: Seq<u8>,
    source_count: int,
    resized: Seq<u8>,
    out_w: usize,
    out_h: usize,
    rgb: Seq<(u8, u8, u8)>,
    levels: Seq<usize>,
    edge_map: Option<Vec<Option<usize>>>,
    charset_index: usize,
    invert: bool,
)
    requires
        out_h * out_w <= rgb.len(),
        forall|i: int|
            0 <= i < out_h * out_w ==> #[trigger] pixel_among(pixel_of(resized, i), source, source_count),
        forall|i: int| 0 <= i < out_h * out_w ==> #[trigger] rgb[i] == pixel_of(resized, i),
    ensures
        forall|y: int, x: int|
            0 <= y < out_h && 0 <= x < out_w ==> {
                let c = #[trigger] picture_cell(out_w, rgb, levels, edge_map, charset_index, invert, y, x);
                pixel_among((c.r, c.g, c.b), source, source_count)
            },
{
    assert forall|y: int, x: int| 0 <= y < out_h && 0 <= x < out_w implies {
        let c = #[trigger] picture_cell(out_w, rgb, levels, edge_map, charset_index, invert, y, x);
        pixel_among((c.r, c.g, c.b), source, source_count)
    } by {
        lemma_cell_index(y, x, out_w as int, out_h as int);
        let i = y * out_w + x;
        assert(rgb[i] == pixel_of(resized, i));
        assert(pixel_among(pixel_of(resized, i), source, source_count));
    }
}

// ---------------------------------------------------------------------------
// Numbers and lines
// ---------------------------------------------------------------------------

/// A natural number written in decimal, most significant digit first.
pub open spec fn decimal_text(n: nat) -> Seq<char>
    decreases n,
{
    if n < 10 {
        seq![hex_digit(n as int)]
    } else {
        decimal_text(n / 10).push(hex_digit(n as int % 10))
    }
}

proof fn lemma_decimal_digit(d: int)
    requires
        0 <= d < 10,
    ensures
        is_digit(hex_digit(d)),
        hex_digit(d) as u32 - '0' as u32 == d,
{
}

proof fn lemma_decimal_text(n: nat)
    ensures
        decimal_text(n).len() > 0,
        forall|i: int| 0 <= i < decimal_text(n).len() ==> is_digit(#[trigger] decimal_text(n)[i]),
        digits_value(decimal_text(n)) == n,
    decreases n,
{
    if n < 10 {
        lemma_decimal_digit(n as int);
        let s = decimal_text(n);
        assert(s.drop_last() =~= Seq::<char>::empty());
        assert(s.last() == hex_digit(n as int));
        assert(digits_value(s.drop_last()) == 0);
    } else {
        lemma_decimal_text(n / 10);
        lemma_decimal_digit(n as int % 10);
        let s = decimal_text(n);
        assert(s.drop_last() =~= decimal_text(n / 10));
        assert(s.last() == hex_digit(n as int % 10));
        assert(digits_value(s) == digits_value(decimal_text(n / 10)) * 10 + (hex_digit(n as int % 10) as u32 - '0' as u32));
        assert((n / 10) * 10 + n % 10 == n);
        assert forall|i: int| 0 <= i < s.len() implies is_digit(#[trigger] s[i]) by {
            if i < s.len() - 1 {
                assert(s[i] == decimal_text(n / 10)[i]);
            }
        }
    }
}

/// Every `u32` written in decimal reads back as itself.
pub proof fn law_decimal_reads_back(n: u32)
    ensures
        u32_of(decimal_text(n as nat)) == Some(n),
{
    lemma_decimal_text(n as nat);
    let s = decimal_text(n as nat);
    assert(s[0] != '+') by {
        assert(is_digit(s[0]));
    }
    assert(unsigned_digits(s) == s);
}

/// A final line feed is optional: it adds no line, unless it ends a line
/// that ends in a carriage return, which it then takes off.
pub proof fn law_final_line_feed_adds_no_line(t: Seq<char>)
    requires
        t.len() > 0,
        t.last() != '\n',
        t.last() != '\r',
    ensures
        text_lines(t.push('\n')) == text_lines(t),
{
    let u = t.push('\n');
    assert(u.drop_last() =~= t);
    let (done, cur) = lines_scan(t);
    assert(t.drop_last().len() < t.len());
    let (d0, c0) = lines_scan(t.drop_last());
    assert(cur == c0.push(t.last()));
    assert(cur.len() > 0);
    assert(strip_cr(cur) == cur);
}

proof fn lemma_refusal_sticks(lines: Seq<Seq<char>>, k: int)
    requires
        0 <= k <= lines.len(),
        probe_lines(lines.subrange(0, k)) is None,
    ensures
        probe_lines(lines) is None,
    decreases lines.len() - k,
{
    if k < lines.len() {
        let next = lines.subrange(0, k + 1);
        assert(next.drop_last() =~= lines.subrange(0, k));
        lemma_refusal_sticks(lines, k + 1);
    } else {
        assert(lines.subrange(0, k) =~= lines);
    }
}

/// One `width` or `height` line whose value is not an unsigned 32-bit
/// number refuses the whole report, wherever it stands.
pub proof fn law_bad_size_line_refuses_report(lines: Seq<Seq<char>>, i: int)
    requires
        0 <= i < lines.len(),
        split_once(lines[i], '=') matches Some((key, val)) && (key == "width"@ || key == "height"@)
            && u32_of(val) is None,
    ensures
        probe_lines(lines) is None,
{
    let upto = lines.subrange(0, i + 1);
    assert(upto.drop_last() =~= lines.subrange(0, i));
    assert(upto.last() == lines[i]);
    assert(probe_step(probe_lines(lines.subrange(0, i)), lines[i]) is None);
    lemma_refusal_sticks(lines, i + 1);
}

// ---------------------------------------------------------------------------
// Reading an export back
// ---------------------------------------------------------------------------

/// A character that ends or splits a line.
pub open spec fn is_line_break_char(c: char) -> bool {
    c == '\n' || c == '\r'
}

/// The glyphs of the cells of a row, one per cell.
proof fn lemma_row_glyphs(row: Seq<AsciiCell>)
    ensures
        row_glyphs(row).len() == row.len(),
        forall|i: int| 0 <= i < row.len() ==> #[trigger] row_glyphs(row)[i] == row[i].ch,
    decreases row.len(),
{
    if row.len() > 0 {
        lemma_row_glyphs(row.drop_last());
        let g = row_glyphs(row);
        assert(g =~= row_glyphs(row.drop_last()) + seq![row.last().ch]);
        assert forall|i: int| 0 <= i < row.len() implies #[trigger] row_glyphs(row)[i] == row[i].ch by {
            if i < row.len() - 1 {
                assert(row.drop_last()[i] == row[i]);
            }
        }
    }
}

proof fn lemma_scan_plain(p: Seq<char>, s: Seq<char>)
    requires
        forall|i: int| 0 <= i < s.len() ==> #[trigger] s[i] != '\n',
    ensures
        lines_scan(p + s) == (lines_scan(p).0, lines_scan(p).1 + s),
    decreases s.len(),
{
    if s.len() == 0 {
        assert(p + s =~= p);
        assert(lines_scan(p).1 + s =~= lines_scan(p).1);
    } else {
        let s0 = s.drop_last();
        lemma_scan_plain(p, s0);
        assert((p + s).drop_last() =~= p + s0);
        assert((p + s).last() == s.last());
        assert(lines_scan(p).1 + s0 + seq![s.last()] =~= lines_scan(p).1 + s);
        assert((lines_scan(p).1 + s0).push(s.last()) =~= lines_scan(p).1 + s);
    }
}

proof fn lemma_scan_rows(rows: Seq<Seq<AsciiCell>>)
    requires
        rows.len() > 0,
        forall|k: int| 0 <= k < rows.len() ==> (#[trigger] rows[k]).len() > 0,
        forall|k: int, i: int|
            0 <= k < rows.len() && 0 <= i < rows[k].len() ==> !is_line_break_char(
                (#[trigger] rows[k][i]).ch,
            ),
    ensures
        lines_scan(rows_text(rows)) == (
            rows.drop_last().map_values(|r: Seq<AsciiCell>| row_glyphs(r)),
            row_glyphs(rows.last()),
        ),
    decreases rows.len(),
{
    let last = rows.last();
    lemma_row_glyphs(last);
    assert forall|i: int| 0 <= i < row_glyphs(last).len() implies #[trigger] row_glyphs(last)[i] != '\n' by {
        assert(rows[rows.len() - 1][i] == last[i]);
    }
    if rows.len() == 1 {
        lemma_scan_plain(Seq::empty(), row_glyphs(last));
        assert(Seq::<char>::empty() + row_glyphs(last) =~= row_glyphs(last));
        assert(rows[0] == last);
        assert(rows.drop_last().map_values(|r: Seq<AsciiCell>| row_glyphs(r)) =~= Seq::<Seq<char>>::empty());
    } else {
        let front = rows.drop_last();
        assert forall|k: int| 0 <= k < front.len() implies (#[trigger] front[k]).len() > 0 by {
            assert(front[k] == rows[k]);
        }
        assert forall|k: int, i: int|
            0 <= k < front.len() && 0 <= i < front[k].len() implies !is_line_break_char(
                (#[trigger] front[k][i]).ch,
            ) by {
            assert(front[k] == rows[k]);
        }
        lemma_scan_rows(front);
        let t = rows_text(front);
        let prev = front.last();
        lemma_row_glyphs(prev);
        assert(prev == rows[rows.len() - 2]);
        assert(row_glyphs(prev).len() > 0);
        assert(row_glyphs(prev).last() == prev[prev.len() - 1].ch);
        let with_break = t + seq!['\n'];
        assert(with_break.drop_last() =~= t);
        assert(strip_cr(row_glyphs(prev)) == row_glyphs(prev));
        assert(lines_scan(with_break) == (
            front.drop_last().map_values(|r: Seq<AsciiCell>| row_glyphs(r)).push(row_glyphs(prev)),
            Seq::<char>::empty(),
        ));
        assert(front.drop_last().map_values(|r: Seq<AsciiCell>| row_glyphs(r)).push(row_glyphs(prev))
            =~= front.map_values(|r: Seq<AsciiCell>| row_glyphs(r)));
        lemma_scan_plain(with_break, row_glyphs(last));
        assert(rows_text(rows) =~= with_break + row_glyphs(last));
        assert(Seq::<char>::empty() + row_glyphs(last) =~= row_glyphs(last));
    }
}

/// Reading the plain-text export back line by line gives each row's glyphs,
/// in order, when every row has at least one cell and no glyph is a line
/// feed or carriage return.
pub proof fn law_text_export_reads_back_by_lines(rows: Seq<Seq<AsciiCell>>)
    requires
        forall|k: int| 0 <= k < rows.len() ==> (#[trigger] rows[k]).len() > 0,
        forall|k: int, i: int|
            0 <= k < rows.len() && 0 <= i < rows[k].len() ==> !is_line_break_char(
                (#[trigger] rows[k][i]).ch,
            ),
    ensures
        text_lines(rows_text(rows)) == rows.map_values(|r: Seq<AsciiCell>| row_glyphs(r)),
{
    if rows.len() == 0 {
        assert(rows_text(rows) =~= Seq::<char>::empty());
        assert(lines_scan(Seq::<char>::empty()) == (Seq::<Seq<char>>::empty(), Seq::<char>::empty()));
        assert(rows.map_values(|r: Seq<AsciiCell>| row_glyphs(r)) =~= Seq::<Seq<char>>::empty());
    } else {
        lemma_scan_rows(rows);
        lemma_row_glyphs(rows.last());
        assert(rows.last() == rows[rows.len() - 1]);
        assert(row_glyphs(rows.last()).len() > 0);
        assert(rows.drop_last().map_values(|r: Seq<AsciiCell>| row_glyphs(r)).push(row_glyphs(rows.last()))
            =~= rows.map_values(|r: Seq<AsciiCell>| row_glyphs(r)));
    }
}

/// No ramp glyph is a line feed or a carriage return.
pub proof fn law_ramp_glyphs_are_not_line_breaks(index: int, i: int)
    requires
        0 <= index < NUM_CHARSETS,
        0 <= i < charset_view(index).len(),
    ensures
        !is_line_break_char(charset_view(index)[i]),
{
    reveal_strlit("@%#*+=-:. ");
    reveal_strlit("@#S%?*+;:,.");
    reveal_strlit("$@B%8&WM#*oahkbdpqwmZO0QLCJUYXzcvunxrjft/\\|()1{}[]?-_+~<>i!lI;:,\"^`. ");
    reveal_strlit("█▓▒░ ");
}

/// Every cell of a picture is drawn with a glyph that is neither a line feed
/// nor a carriage return.
pub proof fn law_picture_glyphs_are_not_line_breaks(
    out_w: usize,
    rgb: Seq<(u8, u8, u8)>,
    levels: Seq<usize>,
    edge_map: Option<Vec<Option<usize>>>,
    charset_index: usize,
    invert: bool,
    y: int,
    x: int,
)
    requires
        charset_index < NUM_CHARSETS,
    ensures
        !is_line_break_char(
            picture_cell(out_w, rgb, levels, edge_map, charset_index, invert, y, x).ch,
        ),
{
    let chars = charset_view(charset_index as int);
    law_ramps_have_two_glyphs_or_more(charset_index as int);
    let level = clamp_level(levels[y * out_w + x] as int, chars.len() as int);
    if invert {
        law_ramp_glyphs_are_not_line_breaks(charset_index as int, chars.len() - 1 - level);
    } else {
        law_ramp_glyphs_are_not_line_breaks(charset_index as int, level);
    }
}

/// A converted picture with at least one column, saved as text and read
/// back line by line, gives its rows' glyphs in order.
pub proof fn law_saved_picture_reads_back(
    result: &AsciiResult,
    rgb: Seq<(u8, u8, u8)>,
    levels: Seq<usize>,
    edge_map: Option<Vec<Option<usize>>>,
    charset_index: usize,
    invert: bool,
)
    requires
        result.wf(),
        result.out_w > 0,
        charset_index < NUM_CHARSETS,
        forall|y: int, x: int|
            0 <= y < result.out_h && 0 <= x < result.out_w ==> #[trigger] result.cells@[y]@[x]
                == picture_cell(result.out_w, rgb, levels, edge_map, charset_index, invert, y, x),
    ensures
        text_lines(rows_text(result_rows(result))) == result_rows(result).map_values(
            |r: Seq<AsciiCell>| row_glyphs(r),
        ),
{
    let rows = result_rows(result);
    assert forall|k: int| 0 <= k < rows.len() implies (#[trigger] rows[k]).len() > 0 by {
        assert(rows[k] == result.cells@[k]@);
    }
    assert forall|k: int, i: int|
        0 <= k < rows.len() && 0 <= i < rows[k].len() implies !is_line_break_char(
            (#[trigger] rows[k][i]).ch,
        ) by {
        assert(rows[k] == result.cells@[k]@);
        assert(rows[k][i] == result.cells@[k]@[i]);
        law_picture_glyphs_are_not_line_breaks(
            result.out_w,
            rgb,
            levels,
            edge_map,
            charset_index,
            invert,
            k,
            i,
        );
    }
    law_text_export_reads_back_by_lines(rows);
}


// ---------------------------------------------------------------------------
// Session
// ---------------------------------------------------------------------------

/// Recording the same conversion twice leaves the session as recording it
/// once; without a picture the old result stays and only the out-of-date
/// flag is cleared; picture and settings never change.
pub proof fn law_recompute_settles(app: AsciiApp, converted: Option<AsciiResult>)
    ensures
        app.after_recompute(converted).after_recompute(converted) == app.after_recompute(converted),
        app.image is None ==> (app.after_recompute(converted) == (AsciiApp {
            image: app.image,
            result: app.result,
            config: app.config,
            dirty: false,
        })),
        !app.after_recompute(converted).dirty,
        app.after_recompute(converted).image == app.image,
        app.after_recompute(converted).config == app.config,
{
}

/// A refused file leaves the session unchanged; an accepted picture is the
/// session's picture, with the conversion out of date and the rest kept.
pub proof fn law_decoding_outcomes(app: AsciiApp, frame: RgbFrame, msg: String)
    ensures
        app.after_decoding(Err::<RgbFrame, String>(msg)) == app,
        app.after_decoding(Ok(frame)).image == Some(frame),
        app.after_decoding(Ok(frame)).dirty,
        app.after_decoding(Ok(frame)).result == app.result,
        app.after_decoding(Ok(frame)).config == app.config,
{
}

/// Every extension that is opened as a picture names a format the `image`
/// crate knows, so such a file always reaches the decoder.
pub proof fn law_listed_extensions_reach_decoder(e: Seq<char>)
    requires
        image_extension(e),
    ensures
        known_format_extension(ascii_lower(e)),
{
    reveal_strlit("png");
    reveal_strlit("jpg");
    reveal_strlit("jpeg");
    reveal_strlit("gif");
    reveal_strlit("bmp");
    reveal_strlit("webp");
    reveal_strlit("tiff");
    reveal_strlit("tif");
    assert(ascii_lower(e) =~= e);
}

// ---------------------------------------------------------------------------
// Glyph choice
// ---------------------------------------------------------------------------

/// Clamping only lowers levels past the end of the ramp: a level inside the
/// ramp is kept as it is, any level past it becomes the last level.
pub proof fn law_clamp_only_lowers_past_end(r: int, n: int)
    requires
        n >= 1,
        r >= 0,
    ensures
        r < n ==> clamp_level(r, n) == r,
        r >= n ==> clamp_level(r, n) == n - 1,
        0 <= clamp_level(r, n) < n,
{
}

/// A level inside the ramp picks the glyph at that position, counted from
/// the dark end, or from the light end when inverted.
pub proof fn law_level_picks_its_glyph(chars: Seq<char>, r: int)
    requires
        0 <= r < chars.len(),
    ensures
        ramp_glyph(chars, r, false) == chars[r],
        ramp_glyph(chars, r, true) == chars[chars.len() - 1 - r],
{
}

/// Gradient classes: a dominant vertical component gives 0 (horizontal
/// edge); otherwise a dominant horizontal component gives 2 (vertical edge)
/// whatever the signs; only when neither dominates do the signs choose,
/// 3 for equal signs and 1 for opposite ones.
pub proof fn law_direction_classes(vertical_dominant: bool, horizontal_dominant: bool, same_sign: bool)
    ensures
        vertical_dominant ==> direction_class(vertical_dominant, horizontal_dominant, same_sign) == 0,
        !vertical_dominant && horizontal_dominant ==> direction_class(
            vertical_dominant,
            horizontal_dominant,
            same_sign,
        ) == 2,
        !vertical_dominant && !horizontal_dominant && same_sign ==> direction_class(
            vertical_dominant,
            horizontal_dominant,
            same_sign,
        ) == 3,
        !vertical_dominant && !horizontal_dominant && !same_sign ==> direction_class(
            vertical_dominant,
            horizontal_dominant,
            same_sign,
        ) == 1,
        direction_class(vertical_dominant, horizontal_dominant, true) != direction_class(
            vertical_dominant,
            horizontal_dominant,
            false,
        ) ==> !vertical_dominant && !horizontal_dominant,
{
}

proof fn lemma_placed_len(found: Seq<(usize, usize, usize)>, w: int, n: nat)
    requires
        forall|j: int| 0 <= j < found.len() ==> 0 <= #[trigger] found[j].1 * w + found[j].0 < n,
    ensures
        placed_edges(found, w, n).len() == n,
    decreases found.len(),
{
    if found.len() > 0 {
        let front = found.drop_last();
        assert forall|j: int| 0 <= j < front.len() implies 0 <= #[trigger] front[j].1 * w + front[j].0 < n by {
            assert(front[j] == found[j]);
        }
        lemma_placed_len(front, w, n);
        assert(0 <= found[found.len() - 1].1 * w + found[found.len() - 1].0 < n);
    }
}

/// Every found edge is drawn: when no two found edges share a pixel, the
/// map holds each edge's direction at its pixel.
pub proof fn law_every_found_edge_is_placed(found: Seq<(usize, usize, usize)>, w: int, n: nat, k: int)
    requires
        0 <= k < found.len(),
        forall|j: int| 0 <= j < found.len() ==> 0 <= #[trigger] found[j].1 * w + found[j].0 < n,
        forall|j: int, l: int|
            0 <= j < l < found.len() ==> #[trigger] found[j].1 * w + found[j].0 != #[trigger] found[l].1
                * w + found[l].0,
    ensures
        placed_edges(found, w, n)[found[k].1 * w + found[k].0] == Some(found[k].2),
    decreases found.len(),
{
    let last = found.len() - 1;
    let front = found.drop_last();
    assert forall|j: int| 0 <= j < front.len() implies 0 <= #[trigger] front[j].1 * w + front[j].0 < n by {
        assert(front[j] == found[j]);
    }
    lemma_placed_len(front, w, n);
    if k < last {
        assert forall|j: int| 0 <= j < front.len() implies 0 <= #[trigger] front[j].1 * w + front[j].0 < n by {
            assert(front[j] == found[j]);
        }
        assert forall|j: int, l: int|
            0 <= j < l < front.len() implies #[trigger] front[j].1 * w + front[j].0 != #[trigger] front[l].1
                * w + front[l].0 by {
            assert(front[j] == found[j]);
            assert(front[l] == found[l]);
        }
        law_every_found_edge_is_placed(front, w, n, k);
        assert(front[k] == found[k]);
        assert(found[k].1 * w + found[k].0 != found[last].1 * w + found[last].0);
    } else {
        assert(0 <= found[last].1 * w + found[last].0 < n);
    }
}

// ---------------------------------------------------------------------------
// Pages and sessions
// ---------------------------------------------------------------------------

/// The page's rows carry colour exactly when colour is set, whatever the
/// page colours: colour spans with `color`, bare glyphs without, and two
/// pages that differ only in `invert` differ only in their heads.
pub proof fn law_page_colour_follows_colour_setting(
    result: &AsciiResult,
    config: &AsciiConfig,
    other: &AsciiConfig,
)
    requires
        other.color == config.color,
    ensures
        config.color ==> html_page(result, config) == html_head(config.invert) + rows_markup(
            result_rows(result),
            true,
        ) + html_tail(),
        !config.color ==> html_page(result, config) == html_head(config.invert) + rows_markup(
            result_rows(result),
            false,
        ) + html_tail(),
        html_page(result, config).subrange(
            html_head(config.invert).len() as int,
            html_page(result, config).len() as int,
        ) == html_page(result, other).subrange(
            html_head(other.invert).len() as int,
            html_page(result, other).len() as int,
        ),
{
    let body = rows_markup(result_rows(result), config.color) + html_tail();
    assert(html_page(result, config) =~= html_head(config.invert) + body);
    assert(html_page(result, other) =~= html_head(other.invert) + body);
    assert(html_page(result, config).subrange(
        html_head(config.invert).len() as int,
        html_page(result, config).len() as int,
    ) =~= body);
    assert(html_page(result, other).subrange(
        html_head(other.invert).len() as int,
        html_page(result, other).len() as int,
    ) =~= body);
}

/// A colour cell's markup is a span whose colour is the cell's colour in
/// lower-case hexadecimal and whose text is the glyph.
pub proof fn law_colour_cell_is_span(cell: AsciiCell)
    ensures
        cell_markup(cell, true) == "<span style=\"color:#"@ + hex_byte(cell.r) + hex_byte(cell.g)
            + hex_byte(cell.b) + "\">"@ + seq![cell.ch] + "</span>"@,
        cell_markup(cell, false) == seq![cell.ch],
{
}

/// With a picture loaded, recording a conversion makes it the session's
/// result, whatever result was there before; the session is then up to
/// date.
pub proof fn law_recompute_records_conversion(app: AsciiApp, converted: Option<AsciiResult>)
    ensures
        app.image is Some ==> app.after_recompute(converted).result == converted,
        app.image is None ==> app.after_recompute(converted).result == app.result,
        !app.after_recompute(converted).dirty,
{
}
} // verus!
