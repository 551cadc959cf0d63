use ascii_art::config::AsciiConfig;
use ascii_art::engine::{AsciiCell, AsciiResult};
use ascii_art::export::{build_html, result_text};

fn sample() -> AsciiResult {
    AsciiResult {
        cells: vec![
            vec![AsciiCell { ch: '@', r: 255, g: 0, b: 16 }, AsciiCell { ch: '.', r: 1, g: 2, b: 171 }],
            vec![AsciiCell { ch: '<', r: 0, g: 0, b: 0 }, AsciiCell { ch: ' ', r: 10, g: 11, b: 12 }],
        ],
        img_w: 4,
        img_h: 4,
        out_w: 2,
        out_h: 2,
    }
}

const HEAD_DARK: &str = "<!DOCTYPE html><html><head><meta charset=\"utf-8\"><style>\nbody { background:#000; color:#fff; font-family:'Courier New',Courier,monospace;\nwhite-space:pre; line-height:1.05; font-size:10px; }</style></head><body>\n";
const HEAD_LIGHT: &str = "<!DOCTYPE html><html><head><meta charset=\"utf-8\"><style>\nbody { background:#fff; color:#000; font-family:'Courier New',Courier,monospace;\nwhite-space:pre; line-height:1.05; font-size:10px; }</style></head><body>\n";

#[test]
fn text_export_joins_rows_with_line_breaks() {
    assert_eq!(result_text(&sample()), "@.\n< ");
}

#[test]
fn text_export_of_empty_picture_is_empty() {
    let r = AsciiResult { cells: vec![], img_w: 1, img_h: 1, out_w: 0, out_h: 0 };
    assert_eq!(result_text(&r), "");
}

#[test]
fn monochrome_page_wraps_text() {
    let config = AsciiConfig::default();
    let html = build_html(&sample(), &config);
    assert_eq!(html, format!("{}{}\n</body></html>", HEAD_DARK, result_text(&sample())));
}

#[test]
fn inverted_page_swaps_colours() {
    let mut config = AsciiConfig::default();
    config.invert = true;
    let html = build_html(&sample(), &config);
    assert!(html.starts_with(HEAD_LIGHT));
}

#[test]
fn colour_page_writes_one_span_per_cell() {
    let mut config = AsciiConfig::default();
    config.color = true;
    let html = build_html(&sample(), &config);
    let expected = format!(
        "{}{}{}\n{}{}\n</body></html>",
        HEAD_DARK,
        "<span style=\"color:#ff0010\">@</span>",
        "<span style=\"color:#0102ab\">.</span>",
        "<span style=\"color:#000000\"><</span>",
        "<span style=\"color:#0a0b0c\"> </span>"
    );
    assert_eq!(html, expected);
}

#[test]
fn empty_page_has_head_and_tail_only() {
    let r = AsciiResult { cells: vec![], img_w: 1, img_h: 1, out_w: 0, out_h: 0 };
    assert_eq!(build_html(&r, &AsciiConfig::default()), format!("{}</body></html>", HEAD_DARK));
}

#[test]
fn saved_text_reads_back_line_by_line() {
    let rgb = vec![(0, 0, 0); 6];
    let levels = vec![0, 3, 9, 1, 2, 4];
    let edges = Some(vec![None, None, Some(1), None, Some(3), None]);
    let res = ascii_art::engine::assemble_result(3, 2, 3, 2, &rgb, &levels, &edges, 2, true);
    let text = result_text(&res);
    let lines: Vec<String> = text.lines().map(|l| l.to_string()).collect();
    let rows: Vec<String> = res.cells.iter().map(|r| r.iter().map(|c| c.ch).collect()).collect();
    assert_eq!(lines, rows);
    assert_eq!(lines.len(), 2);
}

#[test]
fn no_ramp_glyph_breaks_a_line() {
    for i in 0..ascii_art::charsets::NUM_CHARSETS {
        assert!(ascii_art::charsets::charset_chars(i).iter().all(|&c| c != '\n' && c != '\r'));
    }
}
