use ascii_art::frame::{decode_image, decode_image_as, frame_from_decoded, frame_from_raw, frame_pixels, resize_nearest, RgbFrame};
use ascii_art::session::{is_image_extension_name, listed_extension, AsciiApp};
use ascii_art::config::AsciiConfig;
use ascii_art::engine::{AsciiCell, AsciiResult};
use std::io::Cursor;

fn png_bytes(w: u32, h: u32, data: Vec<u8>) -> Vec<u8> {
    let img = image::RgbImage::from_raw(w, h, data).unwrap();
    let mut out = Vec::new();
    img.write_to(&mut Cursor::new(&mut out), image::ImageFormat::Png).unwrap();
    out
}

fn rgba_png_bytes(w: u32, h: u32, data: Vec<u8>) -> Vec<u8> {
    let img = image::RgbaImage::from_raw(w, h, data).unwrap();
    let mut out = Vec::new();
    img.write_to(&mut Cursor::new(&mut out), image::ImageFormat::Png).unwrap();
    out
}

#[test]
fn decodes_png_samples() {
    let data = vec![1, 2, 3, 4, 5, 6, 7, 8, 9, 10, 11, 12];
    let f = decode_image(&png_bytes(2, 2, data.clone())).unwrap();
    assert_eq!((f.width, f.height), (2, 2));
    assert_eq!(f.data, data);
}

#[test]
fn decoding_drops_alpha() {
    let f = decode_image(&rgba_png_bytes(1, 1, vec![9, 8, 7, 0])).unwrap();
    assert_eq!(f.data, vec![9, 8, 7]);
}

#[test]
fn garbage_is_refused_with_message() {
    let e = decode_image(&[0, 1, 2, 3, 4]).unwrap_err();
    assert!(!e.is_empty());
}

#[test]
fn resizing_to_same_size_copies() {
    let f = RgbFrame { width: 2, height: 1, data: vec![1, 2, 3, 4, 5, 6] };
    let r = resize_nearest(&f, 2, 1);
    assert_eq!(r.data, f.data);
}

#[test]
fn downscaling_picks_source_pixels() {
    let f = RgbFrame { width: 2, height: 2, data: vec![10, 10, 10, 20, 20, 20, 30, 30, 30, 40, 40, 40] };
    let r = resize_nearest(&f, 1, 1);
    assert_eq!((r.width, r.height), (1, 1));
    assert_eq!(r.data.len(), 3);
    let p = (r.data[0], r.data[1], r.data[2]);
    assert!(frame_pixels(&f).contains(&p));
    assert_ne!(r.data, f.data);
}

#[test]
fn upscaling_repeats_the_single_pixel() {
    let f = RgbFrame { width: 1, height: 1, data: vec![7, 8, 9] };
    let r = resize_nearest(&f, 3, 2);
    assert_eq!(r.data, [7, 8, 9].repeat(6));
}

#[test]
fn raw_buffers_too_short_are_refused_and_long_ones_cut() {
    assert!(frame_from_raw(2, 2, vec![0; 11]).is_none());
    let f = frame_from_raw(1, 2, vec![1, 2, 3, 4, 5, 6, 7]).unwrap();
    assert_eq!(f.data, vec![1, 2, 3, 4, 5, 6]);
    let g = frame_from_raw(f.width, f.height, f.data.clone()).unwrap();
    assert_eq!(g.data, f.data);
}

#[test]
fn pixels_in_raster_order() {
    let f = RgbFrame { width: 2, height: 1, data: vec![1, 2, 3, 4, 5, 6] };
    assert_eq!(frame_pixels(&f), vec![(1, 2, 3), (4, 5, 6)]);
}

#[test]
fn session_load_marks_out_of_date() {
    let mut app = AsciiApp::default();
    assert!(!app.dirty);
    assert!(app.load_image_bytes(&png_bytes(1, 1, vec![5, 5, 5])).is_ok());
    assert!(app.dirty);
    assert_eq!(app.image.as_ref().unwrap().data, vec![5, 5, 5]);
    app.recompute(None);
    assert!(!app.dirty);
    assert!(app.result.is_none());
}

#[test]
fn session_failed_load_changes_nothing() {
    let mut app = AsciiApp::default();
    let msg = app.load_image_bytes(b"not an image").unwrap_err();
    assert!(!msg.is_empty());
    assert!(app.image.is_none());
    assert!(!app.dirty);
}

#[test]
fn session_recompute_without_picture_keeps_result() {
    let mut app = AsciiApp::default();
    let r = AsciiResult { cells: vec![vec![AsciiCell { ch: 'a', r: 0, g: 0, b: 0 }]], img_w: 1, img_h: 1, out_w: 1, out_h: 1 };
    app.recompute(Some(r));
    assert!(app.result.is_none());
    assert_eq!(app.text_export(), None);
    assert_eq!(app.html_export(), None);
}

#[test]
fn session_exports_current_result() {
    let mut app = AsciiApp::default();
    app.set_image(RgbFrame { width: 1, height: 1, data: vec![0, 0, 0] });
    let r = AsciiResult { cells: vec![vec![AsciiCell { ch: 'a', r: 0, g: 0, b: 0 }]], img_w: 1, img_h: 1, out_w: 1, out_h: 1 };
    app.recompute(Some(r));
    assert_eq!(app.text_export(), Some("a".to_string()));
    assert!(app.html_export().unwrap().ends_with("a\n</body></html>"));
}

#[test]
fn settings_change_marks_out_of_date_only_when_different() {
    let mut app = AsciiApp::default();
    app.set_config(AsciiConfig::default());
    assert!(!app.dirty);
    let mut c = AsciiConfig::default();
    c.edges = true;
    app.set_config(c);
    assert!(app.dirty);
    assert!(app.config.edges);
}

#[test]
fn image_extensions_ignore_case() {
    for e in ["png", "PNG", "Jpg", "jpeg", "GIF", "bmp", "webp", "TIFF", "tif"] {
        assert_eq!(listed_extension(e), Some(e.to_lowercase()), "{}", e);
    }
    for e in ["", "txt", "pngx", "jp", "svg", "jfif"] {
        assert_eq!(listed_extension(e), None, "{}", e);
    }
}

#[test]
fn decoding_by_extension() {
    let bytes = png_bytes(1, 2, vec![1, 2, 3, 4, 5, 6]);
    let f = decode_image_as(&bytes, "PNG").unwrap().unwrap();
    assert_eq!((f.width, f.height), (1, 2));
    assert_eq!(f.data, vec![1, 2, 3, 4, 5, 6]);
    assert!(decode_image_as(&bytes, "txt").is_none());
    assert!(decode_image_as(&bytes, "").is_none());
    assert!(decode_image_as(&bytes, "Jfif").unwrap().is_err());
    assert!(decode_image_as(&bytes, "QOI").unwrap().is_err());
    assert!(decode_image_as(&bytes, "gif").unwrap().is_err());
}

#[test]
fn decoder_output_becomes_a_frame() {
    let f = frame_from_decoded(Ok((0, 2, vec![]))).unwrap();
    assert_eq!((f.width, f.height), (0, 2));
    assert!(f.data.is_empty());
    assert_eq!(frame_from_decoded(Err("bad".to_string())).unwrap_err(), "bad");
}

#[test]
fn accepting_decoder_outcomes() {
    let mut app = AsciiApp::default();
    assert_eq!(app.accept_decoded(Err("broken".to_string())), Err("broken".to_string()));
    assert!(app.image.is_none() && !app.dirty);
    assert_eq!(app.accept_decoded(Ok(RgbFrame { width: 0, height: 2, data: vec![] })), Ok(()));
    assert!(app.dirty);
    assert_eq!(app.image.as_ref().unwrap().height, 2);
}

#[test]
fn recompute_twice_is_recompute_once() {
    let mut app = AsciiApp::default();
    let r = AsciiResult { cells: vec![vec![AsciiCell { ch: 'a', r: 0, g: 0, b: 0 }]], img_w: 1, img_h: 1, out_w: 1, out_h: 1 };
    app.recompute(Some(r.clone()));
    app.recompute(Some(r.clone()));
    assert!(app.result.is_none() && !app.dirty);
    app.set_image(RgbFrame { width: 1, height: 1, data: vec![0, 0, 0] });
    app.recompute(Some(r.clone()));
    let once = app.text_export();
    app.recompute(Some(r));
    assert_eq!(app.text_export(), once);
    assert!(!app.dirty);
}

#[test]
fn lower_case_extension_names() {
    assert!(is_image_extension_name("png"));
    assert!(is_image_extension_name("tif"));
    assert!(!is_image_extension_name("PNG"));
    assert!(!is_image_extension_name("jfif"));
}
