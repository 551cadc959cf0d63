use ascii_art::probe::{frame_byte_len, parse_probe_output, scaled_width};

#[test]
fn typical_report() {
    let f = parse_probe_output("width=1920\nheight=1080\nr_frame_rate=30000/1001\nduration=10.500000\n").unwrap();
    assert_eq!(f.width, 1920);
    assert_eq!(f.height, 1080);
    assert_eq!(f.frame_rate, Some(("30000".to_string(), "1001".to_string())));
    assert_eq!(f.durations, vec!["10.500000".to_string()]);
}

#[test]
fn empty_report_gives_defaults() {
    let f = parse_probe_output("").unwrap();
    assert_eq!((f.width, f.height), (0, 0));
    assert_eq!(f.frame_rate, None);
    assert!(f.durations.is_empty());
}

#[test]
fn crlf_lines_and_last_value_wins() {
    let f = parse_probe_output("width=10\r\nwidth=20\r\nheight=+7\r\nnoise\r\nfoo=bar").unwrap();
    assert_eq!(f.width, 20);
    assert_eq!(f.height, 7);
}

#[test]
fn carriage_return_without_line_feed_stays_in_value() {
    assert!(parse_probe_output("width=5\r").is_none());
}

#[test]
fn bad_width_refuses_report() {
    assert!(parse_probe_output("width=abc\nheight=2\n").is_none());
    assert!(parse_probe_output("height=2\nwidth=\n").is_none());
    assert!(parse_probe_output("width=-1").is_none());
    assert!(parse_probe_output("width=4294967296").is_none());
    assert!(parse_probe_output("height=+").is_none());
}

#[test]
fn largest_u32_is_accepted() {
    let f = parse_probe_output("width=4294967295").unwrap();
    assert_eq!(f.width, u32::MAX);
}

#[test]
fn decimal_text_reads_back() {
    for n in [0u32, 7, 10, 99, 65535, 123456789, u32::MAX] {
        let f = parse_probe_output(&format!("height={}", n)).unwrap();
        assert_eq!(f.height, n);
    }
}

#[test]
fn rate_without_slash_is_ignored() {
    let f = parse_probe_output("r_frame_rate=25/1\nr_frame_rate=25\n").unwrap();
    assert_eq!(f.frame_rate, Some(("25".to_string(), "1".to_string())));
}

#[test]
fn value_keeps_later_equals_signs() {
    let f = parse_probe_output("duration=1=2\nduration=3").unwrap();
    assert_eq!(f.durations, vec!["1=2".to_string(), "3".to_string()]);
}

#[test]
fn final_line_feed_is_optional() {
    let a = parse_probe_output("width=3\nheight=4").unwrap();
    let b = parse_probe_output("width=3\nheight=4\n").unwrap();
    assert_eq!((a.width, a.height), (b.width, b.height));
}

#[test]
fn frames_are_never_wider_than_requested() {
    assert_eq!(scaled_width(1920, 640), 640);
    assert_eq!(scaled_width(320, 640), 320);
    assert_eq!(scaled_width(640, 640), 640);
}

#[test]
fn frame_sizes_fit_in_32_bits_or_are_refused() {
    assert_eq!(frame_byte_len(640, 360), Some(640 * 360 * 3));
    assert_eq!(frame_byte_len(0, 5), Some(0));
    assert_eq!(frame_byte_len(0x5555_5555, 1), Some(0xffff_ffff));
    assert_eq!(frame_byte_len(0x5555_5556, 1), None);
    assert_eq!(frame_byte_len(65536, 65536), None);
}
