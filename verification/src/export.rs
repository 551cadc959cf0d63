//! Saving a picture: plain text, and an HTML page with optional colours.

use vstd::prelude::*;
use vstd::string::*;
use crate::engine::{AsciiCell, AsciiResult};
use crate::config::AsciiConfig;
use crate::text::push_char;

verus! {

/// Lower-case hexadecimal digit for `n` (0 to 15).
pub open spec fn hex_digit(n: int) -> char {
    if n == 0 { '0' } else if n == 1 { '1' } else if n == 2 { '2' } else if n == 3 { '3' }
    else if n == 4 { '4' } else if n == 5 { '5' } else if n == 6 { '6' } else if n == 7 { '7' }
    else if n == 8 { '8' } else if n == 9 { '9' } else if n == 10 { 'a' } else if n == 11 { 'b' }
    else if n == 12 { 'c' } else if n == 13 { 'd' } else if n == 14 { 'e' } else { 'f' }
}

/// A byte as two lower-case hexadecimal digits.
pub open spec fn hex_byte(b: u8) -> Seq<char> {
    seq![hex_digit(b as int / 16), hex_digit(b as int % 16)]
}

fn hex_digit_char(n: u8) -> (c: char)
    requires
        n < 16,
    ensures
        c == hex_digit(n as int),
{
    if n == 0 { '0' } else if n == 1 { '1' } else if n == 2 { '2' } else if n == 3 { '3' }
    else if n == 4 { '4' } else if n == 5 { '5' } else if n == 6 { '6' } else if n == 7 { '7' }
    else if n == 8 { '8' } else if n == 9 { '9' } else if n == 10 { 'a' } else if n == 11 { 'b' }
    else if n == 12 { 'c' } else if n == 13 { 'd' } else if n == 14 { 'e' } else { 'f' }
}

fn push_hex_byte(s: &mut String, b: u8)
    ensures
        final(s)@ == old(s)@ + hex_byte(b),
{
    push_char(s, hex_digit_char(b / 16));
    push_char(s, hex_digit_char(b % 16));
}

/// The markup of one cell: a coloured span, or the bare glyph.
pub open spec fn cell_markup(cell: AsciiCell, color: bool) -> Seq<char> {
    if color {
        "<span style=\"color:#"@ + hex_byte(cell.r) + hex_byte(cell.g) + hex_byte(cell.b) + "\">"@
            + seq![cell.ch] + "</span>"@
    } else {
        seq![cell.ch]
    }
}

/// The markup of a run of cells, one after another.
pub open spec fn cells_markup(cells: Seq<AsciiCell>, color: bool) -> Seq<char>
    decreases cells.len(),
{
    if cells.len() == 0 {
        Seq::empty()
    } else {
        cells_markup(cells.drop_last(), color) + cell_markup(cells.last(), color)
    }
}

/// The glyphs of a row, left to right.
pub open spec fn row_glyphs(cells: Seq<AsciiCell>) -> Seq<char> {
    cells_markup(cells, false)
}

/// Every row's markup followed by a line break.
pub open spec fn rows_markup(rows: Seq<Seq<AsciiCell>>, color: bool) -> Seq<char>
    decreases rows.len(),
{
    if rows.len() == 0 {
        Seq::empty()
    } else {
        rows_markup(rows.drop_last(), color) + cells_markup(rows.last(), color) + seq!['\n']
    }
}

/// The rows' glyphs joined by line breaks, with no break after the last.
pub open spec fn rows_text(rows: Seq<Seq<AsciiCell>>) -> Seq<char>
    decreases rows.len(),
{
    if rows.len() == 0 {
        Seq::empty()
    } else if rows.len() == 1 {
        row_glyphs(rows[0])
    } else {
        rows_text(rows.drop_last()) + seq!['\n'] + row_glyphs(rows.last())
    }
}

/// The rows of a picture, as sequences of cells.
pub open spec fn result_rows(result: &AsciiResult) -> Seq<Seq<AsciiCell>> {
    result.cells@.map_values(|r: Vec<AsciiCell>| r@)
}

/// Page background: white when inverted, else black.
pub open spec fn page_background(invert: bool) -> Seq<char> {
    if invert { "#fff"@ } else { "#000"@ }
}

/// Page text colour: black when inverted, else white.
pub open spec fn page_foreground(invert: bool) -> Seq<char> {
    if invert { "#000"@ } else { "#fff"@ }
}

/// The page head, up to and including the line break after `<body>`.
pub open spec fn html_head(invert: bool) -> Seq<char> {
    "<!DOCTYPE html><html><head><meta charset=\"utf-8\"><style>\nbody { background:"@
        + page_background(invert) + "; color:"@ + page_foreground(invert)
        + "; font-family:'Courier New',Courier,monospace;\nwhite-space:pre; line-height:1.05; font-size:10px; }</style></head><body>\n"@
}

/// The page tail.
pub open spec fn html_tail() -> Seq<char> {
    "</body></html>"@
}

/// The whole page for a picture.
pub open spec fn html_page(result: &AsciiResult, config: &AsciiConfig) -> Seq<char> {
    html_head(config.invert) + rows_markup(result_rows(result), config.color) + html_tail()
}

fn append_cells(s: &mut String, row: &Vec<AsciiCell>, color: bool)
    ensures
        final(s)@ == old(s)@ + cells_markup(row@, color),
{
    let n = row.len();
    let mut i: usize = 0;
    while i < n
        invariant
            n == row@.len(),
            i <= n,
            s@ == old(s)@ + cells_markup(row@.subrange(0, i as int), color),
        decreases n - i,
    {
        let cell = row[i];
        let ghost before = s@;
        if color {
            s.append("<span style=\"color:#");
            push_hex_byte(s, cell.r);
            push_hex_byte(s, cell.g);
            push_hex_byte(s, cell.b);
            s.append("\">");
            push_char(s, cell.ch);
            s.append("</span>");
        } else {
            push_char(s, cell.ch);
        }
        proof {
            let pre = row@.subrange(0, i as int);
            let post = row@.subrange(0, i + 1);
            assert(post.drop_last() =~= pre);
            assert(post.last() == cell);
            assert(s@ =~= before + cell_markup(cell, color));
        }
        i = i + 1;
    }
    proof {
        assert(row@.subrange(0, n as int) =~= row@);
    }
}

/// The picture as an HTML page: dark or light page colours after
/// `config.invert`, each row on its own line, each cell a coloured span when
/// `config.color` is set, else its bare glyph.
pub fn build_html(result: &AsciiResult, config: &AsciiConfig) -> (html: String)
    ensures
        html@ == html_page(result, config),
        html@ == html_head(config.invert) + rows_markup(result_rows(result), config.color)
            + html_tail(),
{
    let bg = if config.invert { "#fff" } else { "#000" };
    let fg = if config.invert { "#000" } else { "#fff" };
    let mut html = String::new();
    html.append("<!DOCTYPE html><html><head><meta charset=\"utf-8\"><style>\nbody { background:");
    html.append(bg);
    html.append("; color:");
    html.append(fg);
    html.append("; font-family:'Courier New',Courier,monospace;\nwhite-space:pre; line-height:1.05; font-size:10px; }</style></head><body>\n");
    let ghost head = html@;
    assert(head =~= html_head(config.invert));
    let rows = &result.cells;
    let n = rows.len();
    let mut i: usize = 0;
    while i < n
        invariant
            n == rows@.len(),
            rows == &result.cells,
            i <= n,
            html@ == head + rows_markup(result_rows(result).subrange(0, i as int), config.color),
        decreases n - i,
    {
        append_cells(&mut html, &rows[i], config.color);
        push_char(&mut html, '\n');
        proof {
            let all = result_rows(result);
            let pre = all.subrange(0, i as int);
            let post = all.subrange(0, i + 1);
            assert(post.drop_last() =~= pre);
            assert(post.last() == rows@[i as int]@);
            assert(html@ =~= head + rows_markup(post, config.color));
        }
        i = i + 1;
    }
    proof {
        assert(result_rows(result).subrange(0, n as int) =~= result_rows(result));
    }
    html.append("</body></html>");
    html
}

/// The picture as plain text: the glyphs of each row, rows separated by
/// line breaks.
pub fn result_text(result: &AsciiResult) -> (text: String)
    ensures
        text@ == rows_text(result_rows(result)),
{
    let rows = &result.cells;
    let n = rows.len();
    let mut text = String::new();
    let mut i: usize = 0;
    while i < n
        invariant
            n == rows@.len(),
            rows == &result.cells,
            i <= n,
            text@ == rows_text(result_rows(result).subrange(0, i as int)),
        decreases n - i,
    {
        if i > 0 {
            push_char(&mut text, '\n');
        }
        append_cells(&mut text, &rows[i], false);
        proof {
            let all = result_rows(result);
            let pre = all.subrange(0, i as int);
            let post = all.subrange(0, i + 1);
            assert(post.drop_last() =~= pre);
            assert(post.last() == rows@[i as int]@);
            if i == 0 {
                assert(post[0] == rows@[0]@);
            }
            assert(text@ =~= rows_text(post));
        }
        i = i + 1;
    }
    proof {
        assert(result_rows(result).subrange(0, n as int) =~= result_rows(result));
    }
    text
}

} // verus!
