use ascii_art::charsets::{charset, charset_chars, charset_name, NUM_CHARSETS};
use ascii_art::config::AsciiConfig;
use ascii_art::engine::{assemble_result, build_row, clamp_to_ramp, edge_char, output_height, ramp_char, AsciiCell};
use ascii_art::kernels::{diffusion_targets, edge_direction, edge_window, place_edges};

#[test]
fn ramps_hold_the_documented_glyphs() {
    assert_eq!(charset(0), "@%#*+=-:. ");
    assert_eq!(charset(1), "@#S%?*+;:,.");
    assert_eq!(charset_chars(2).len(), 69);
    assert_eq!(charset_chars(3), vec!['█', '▓', '▒', '░', ' ']);
    for i in 0..NUM_CHARSETS {
        assert!(charset_chars(i).len() >= 2);
    }
}

#[test]
fn edge_glyphs_follow_direction() {
    assert_eq!(edge_char(0), '-');
    assert_eq!(edge_char(1), '/');
    assert_eq!(edge_char(2), '|');
    assert_eq!(edge_char(3), '\\');
}

#[test]
fn ramp_levels_clamp_and_invert() {
    let chars = ['a', 'b', 'c'];
    assert_eq!(ramp_char(&chars, 0, false), 'a');
    assert_eq!(ramp_char(&chars, 1, false), 'b');
    assert_eq!(ramp_char(&chars, 2, false), 'c');
    assert_eq!(ramp_char(&chars, 9, false), 'c');
    assert_eq!(ramp_char(&chars, 0, true), 'c');
    assert_eq!(ramp_char(&chars, 9, true), 'a');
}

#[test]
fn inverted_glyph_is_glyph_of_reversed_ramp() {
    let chars = ['@', '#', '+', '.'];
    let mut rev = chars;
    rev.reverse();
    for level in 0..6 {
        assert_eq!(ramp_char(&chars, level, true), ramp_char(&rev, level, false));
    }
}

#[test]
fn edge_cells_take_priority_over_brightness() {
    let rgb = vec![(1, 2, 3), (4, 5, 6), (7, 8, 9)];
    let levels = vec![0, 1, 2];
    let edges = Some(vec![None, Some(2), None]);
    let row = build_row(0, 3, &rgb, &levels, &edges, &['x', 'y', 'z'], false);
    assert_eq!(
        row,
        vec![
            AsciiCell { ch: 'x', r: 1, g: 2, b: 3 },
            AsciiCell { ch: '|', r: 4, g: 5, b: 6 },
            AsciiCell { ch: 'z', r: 7, g: 8, b: 9 },
        ]
    );
}

#[test]
fn second_row_reads_second_raster_line() {
    let rgb = vec![(0, 0, 0), (0, 0, 0), (10, 20, 30), (40, 50, 60)];
    let levels = vec![0, 0, 1, 0];
    let row = build_row(1, 2, &rgb, &levels, &None, &['a', 'b'], true);
    assert_eq!(row[0], AsciiCell { ch: 'a', r: 10, g: 20, b: 30 });
    assert_eq!(row[1], AsciiCell { ch: 'b', r: 40, g: 50, b: 60 });
}

#[test]
fn assembled_picture_has_requested_shape() {
    let rgb = vec![(9, 9, 9); 6];
    let levels = vec![0, 9, 1, 2, 3, 4];
    let res = assemble_result(30, 20, 3, 2, &rgb, &levels, &None, 0, false);
    assert_eq!(res.out_w, 3);
    assert_eq!(res.out_h, 2);
    assert_eq!(res.img_w, 30);
    assert_eq!(res.img_h, 20);
    assert_eq!(res.cells.len(), 2);
    assert!(res.cells.iter().all(|r| r.len() == 3));
    let glyphs: String = res.cells.iter().flat_map(|r| r.iter().map(|c| c.ch)).collect();
    assert_eq!(glyphs, "@ %#*+");
}

#[test]
fn empty_picture_has_no_rows() {
    let res = assemble_result(5, 5, 0, 0, &[], &[], &None, 1, true);
    assert!(res.cells.is_empty());
}

#[test]
fn default_settings() {
    let c = AsciiConfig::default();
    assert_eq!(c.width_chars, 160);
    assert!(!c.color && !c.dither && !c.edges && !c.invert);
    assert_eq!(c.charset_index, 0);
}

#[test]
fn interior_pixel_diffuses_whole_error_forward() {
    let t = diffusion_targets(2, 1, 5, 4);
    assert_eq!(t, vec![(8, 7), (11, 3), (12, 5), (13, 1)]);
    assert_eq!(t.iter().map(|p| p.1).sum::<u32>(), 16);
    assert!(t.iter().all(|p| p.0 > 1 * 5 + 2 && p.0 < 20));
}

#[test]
fn border_pixels_diffuse_to_existing_neighbours_only() {
    assert_eq!(diffusion_targets(0, 0, 3, 2), vec![(1, 7), (3, 5), (4, 1)]);
    assert_eq!(diffusion_targets(2, 0, 3, 2), vec![(4, 3), (5, 5)]);
    assert_eq!(diffusion_targets(1, 1, 3, 2), vec![(5, 7)]);
    assert_eq!(diffusion_targets(2, 1, 3, 2), vec![]);
    assert_eq!(diffusion_targets(0, 0, 1, 2), vec![(1, 5)]);
}

#[test]
fn edge_window_is_centred_three_by_three() {
    let w = edge_window(1, 1, 4, 3);
    assert_eq!(w, vec![0, 1, 2, 4, 5, 6, 8, 9, 10]);
    let w = edge_window(2, 1, 4, 3);
    assert_eq!(w[4], 6);
    assert!(w.iter().all(|&i| i < 12));
}

#[test]
fn ramp_names() {
    assert_eq!(charset_name(0), "10-step");
    assert_eq!(charset_name(1), "Compact");
    assert_eq!(charset_name(2), "Bourke 70");
    assert_eq!(charset_name(3), "Unicode Blocks");
}

#[test]
fn levels_clamp_to_the_ramp() {
    assert_eq!(clamp_to_ramp(0, 5), 0);
    assert_eq!(clamp_to_ramp(4, 5), 4);
    assert_eq!(clamp_to_ramp(5, 5), 4);
    assert_eq!(clamp_to_ramp(usize::MAX, 1), 0);
}

#[test]
fn gradient_direction_classes() {
    assert_eq!(edge_direction(true, false, true), 0);
    assert_eq!(edge_direction(true, true, false), 0);
    assert_eq!(edge_direction(false, true, true), 2);
    assert_eq!(edge_direction(false, false, true), 3);
    assert_eq!(edge_direction(false, false, false), 1);
}

#[test]
fn output_height_refuses_empty_pictures_and_keeps_one_row() {
    assert_eq!(output_height(0, 5, 3), None);
    assert_eq!(output_height(5, 0, 3), None);
    assert_eq!(output_height(5, 5, 0), Some(1));
    assert_eq!(output_height(5, 5, 7), Some(7));
}

#[test]
fn edges_are_placed_at_their_pixels() {
    let map = place_edges(4, 3, &vec![(1, 1, 2), (2, 1, 0)]);
    assert_eq!(map.len(), 12);
    assert_eq!(map[5], Some(2));
    assert_eq!(map[6], Some(0));
    assert_eq!(map.iter().filter(|e| e.is_some()).count(), 2);
    assert_eq!(place_edges(2, 2, &vec![]), vec![None; 4]);
}
