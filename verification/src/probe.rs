//! Reading the `key=value` report that a video probe prints.

use vstd::prelude::*;
use crate::text::{chars_to_string, find_char, first_index, slice_equals, split_once, str_chars};

verus! {

// ---------------------------------------------------------------------------
// Unsigned decimal numbers
// ---------------------------------------------------------------------------

/// An ASCII decimal digit.
pub open spec fn is_digit(c: char) -> bool {
    '0' as u32 <= c as u32 <= '9' as u32
}

/// The value of a run of decimal digits.
pub open spec fn digits_value(s: Seq<char>) -> int
    decreases s.len(),
{
    if s.len() == 0 {
        0
    } else {
        digits_value(s.drop_last()) * 10 + (s.last() as u32 - '0' as u32)
    }
}

/// The digits of an unsigned number: the text without one leading `+`.
pub open spec fn unsigned_digits(s: Seq<char>) -> Seq<char> {
    if s.len() > 0 && s[0] == '+' {
        s.drop_first()
    } else {
        s
    }
}

/// The `u32` that `s` denotes: an optional `+` and at least one decimal
/// digit, with a value that fits in 32 bits. Anything else denotes none.
pub open spec fn u32_of(s: Seq<char>) -> Option<u32> {
    let d = unsigned_digits(s);
    if d.len() > 0 && (forall|i: int| 0 <= i < d.len() ==> is_digit(#[trigger] d[i]))
        && digits_value(d) <= u32::MAX {
        Some(digits_value(d) as u32)
    } else {
        None
    }
}

proof fn lemma_digits_value_nonneg(s: Seq<char>)
    requires
        forall|i: int| 0 <= i < s.len() ==> is_digit(#[trigger] s[i]),
    ensures
        digits_value(s) >= 0,
    decreases s.len(),
{
    if s.len() > 0 {
        lemma_digits_value_nonneg(s.drop_last());
    }
}

/// Reads `chars[from..to]` as an unsigned 32-bit decimal number.
pub fn parse_u32_range(chars: &[char], from: usize, to: usize) -> (n: Option<u32>)
    requires
        from <= to <= chars@.len(),
    ensures
        n == u32_of(chars@.subrange(from as int, to as int)),
{
    let ghost s = chars@.subrange(from as int, to as int);
    let mut start = from;
    if from < to && chars[from] == '+' {
        start = from + 1;
    }
    let ghost d = chars@.subrange(start as int, to as int);
    assert(d =~= unsigned_digits(s));
    if start == to {
        return None;
    }
    let mut acc: u64 = 0;
    let mut overflow = false;
    let mut i = start;
    while i < to
        invariant
            start <= i <= to,
            to <= chars@.len(),
            d == chars@.subrange(start as int, to as int),
            d == unsigned_digits(s),
            s == chars@.subrange(from as int, to as int),
            forall|j: int| 0 <= j < i - start ==> is_digit(#[trigger] d[j]),
            !overflow ==> acc == digits_value(d.subrange(0, i - start)) && acc <= u32::MAX,
            overflow ==> digits_value(d.subrange(0, i - start)) > u32::MAX,
        decreases to - i,
    {
        let c = chars[i];
        let cv = c as u32;
        if cv < '0' as u32 || cv > '9' as u32 {
            assert(!is_digit(d[i - start]));
            return None;
        }
        let digit = (cv - '0' as u32) as u64;
        proof {
            let p = d.subrange(0, i - start);
            let q = d.subrange(0, i + 1 - start);
            assert(q.drop_last() =~= p);
            assert(q.last() == c);
            assert forall|j: int| 0 <= j < i - start implies is_digit(#[trigger] p[j]) by {
                assert(p[j] == d[j]);
            }
            lemma_digits_value_nonneg(p);
        }
        if !overflow {
            let next = acc * 10 + digit;
            if next > 0xffff_ffffu64 {
                overflow = true;
            } else {
                acc = next;
            }
        }
        i = i + 1;
    }
    proof {
        assert(d.subrange(0, to - start) =~= d);
    }
    if overflow {
        None
    } else {
        Some(acc as u32)
    }
}

// ---------------------------------------------------------------------------
// Decoded frame size
// ---------------------------------------------------------------------------

/// The width frames are decoded at: the video's own width, or `max_width`
/// when the video is wider.
pub fn scaled_width(width: u32, max_width: u32) -> (w: u32)
    ensures
        w == (if width > max_width {
            max_width
        } else {
            width
        }),
{
    if width > max_width {
        max_width
    } else {
        width
    }
}

/// Bytes in one decoded RGB frame of `width` by `height` pixels, or `None`
/// when that number does not fit in 32 bits.
pub fn frame_byte_len(width: u32, height: u32) -> (n: Option<usize>)
    ensures
        match n {
            Some(k) => k == width as int * height as int * 3 && k <= u32::MAX,
            None => width as int * height as int * 3 > u32::MAX,
        },
{
    assert(width as u64 * height as u64 <= 0xffff_ffff_ffff_ffffu64) by (nonlinear_arith)
        requires
            width <= 0xffff_ffffu32,
            height <= 0xffff_ffffu32,
    ;
    let total: u64 = width as u64 * height as u64;
    if total > 0x5555_5555u64 {
        None
    } else {
        Some((total * 3) as usize)
    }
}

// ---------------------------------------------------------------------------
// Lines
// ---------------------------------------------------------------------------

/// A line without the carriage return that ended it.
pub open spec fn strip_cr(line: Seq<char>) -> Seq<char> {
    if line.len() > 0 && line.last() == '\r' {
        line.drop_last()
    } else {
        line
    }
}

/// Scanning `t`: the lines ended so far, and the line being read.
pub open spec fn lines_scan(t: Seq<char>) -> (Seq<Seq<char>>, Seq<char>)
    decreases t.len(),
{
    if t.len() == 0 {
        (Seq::empty(), Seq::empty())
    } else {
        let (done, cur) = lines_scan(t.drop_last());
        if t.last() == '\n' {
            (done.push(strip_cr(cur)), Seq::empty())
        } else {
            (done, cur.push(t.last()))
        }
    }
}

/// The lines of `t`: split at line feeds, a carriage return before a line
/// feed dropped, and no empty line after a final line feed.
pub open spec fn text_lines(t: Seq<char>) -> Seq<Seq<char>> {
    let (done, cur) = lines_scan(t);
    if cur.len() == 0 {
        done
    } else {
        done.push(cur)
    }
}

// ---------------------------------------------------------------------------
// The report
// ---------------------------------------------------------------------------

/// What a report says: the last width and height, the last frame rate
/// given as `num/den`, and every duration value, in order.
pub struct ProbeView {
    pub width: u32,
    pub height: u32,
    pub frame_rate: Option<(Seq<char>, Seq<char>)>,
    pub durations: Seq<Seq<char>>,
}

/// The fields of a report, as text where the value is a fractional number.
pub struct ProbeFields {
    pub width: u32,
    pub height: u32,
    pub frame_rate: Option<(String, String)>,
    pub durations: Vec<String>,
}

impl View for ProbeFields {
    type V = ProbeView;

    open spec fn view(&self) -> ProbeView {
        ProbeView {
            width: self.width,
            height: self.height,
            frame_rate: match self.frame_rate {
                Some((n, d)) => Some((n@, d@)),
                None => None,
            },
            durations: self.durations@.map_values(|s: String| s@),
        }
    }
}

/// The state before any line: width and height 0, no rate, no duration.
pub open spec fn probe_start() -> ProbeView {
    ProbeView { width: 0, height: 0, frame_rate: None, durations: Seq::empty() }
}

/// One line of the report: `width` and `height` must hold a `u32` or the
/// report is refused; `r_frame_rate` is kept when it holds a `/`;
/// `duration` is collected; other lines and lines without `=` are passed over.
pub open spec fn probe_step(st: Option<ProbeView>, line: Seq<char>) -> Option<ProbeView> {
    match st {
        None => None,
        Some(v) => match split_once(line, '=') {
            None => Some(v),
            Some((key, val)) => if key == "width"@ {
                match u32_of(val) {
                    Some(n) => Some(
                        ProbeView {
                            width: n,
                            height: v.height,
                            frame_rate: v.frame_rate,
                            durations: v.durations,
                        },
                    ),
                    None => None,
                }
            } else if key == "height"@ {
                match u32_of(val) {
                    Some(n) => Some(
                        ProbeView {
                            width: v.width,
                            height: n,
                            frame_rate: v.frame_rate,
                            durations: v.durations,
                        },
                    ),
                    None => None,
                }
            } else if key == "r_frame_rate"@ {
                match split_once(val, '/') {
                    Some(rate) => Some(
                        ProbeView {
                            width: v.width,
                            height: v.height,
                            frame_rate: Some(rate),
                            durations: v.durations,
                        },
                    ),
                    None => Some(v),
                }
            } else if key == "duration"@ {
                Some(
                    ProbeView {
                        width: v.width,
                        height: v.height,
                        frame_rate: v.frame_rate,
                        durations: v.durations.push(val),
                    },
                )
            } else {
                Some(v)
            },
        },
    }
}

/// The report after reading `lines` in order.
pub open spec fn probe_lines(lines: Seq<Seq<char>>) -> Option<ProbeView>
    decreases lines.len(),
{
    if lines.len() == 0 {
        Some(probe_start())
    } else {
        probe_step(probe_lines(lines.drop_last()), lines.last())
    }
}

/// What the report text `t` says.
pub open spec fn probe_report(t: Seq<char>) -> Option<ProbeView> {
    probe_lines(text_lines(t))
}

struct Keys {
    width: Vec<char>,
    height: Vec<char>,
    rate: Vec<char>,
    duration: Vec<char>,
}

impl Keys {
    spec fn wf(&self) -> bool {
        &&& self.width@ == "width"@
        &&& self.height@ == "height"@
        &&& self.rate@ == "r_frame_rate"@
        &&& self.duration@ == "duration"@
    }
}

/// The report read so far; text values are kept as ranges of the input.
struct Scan {
    refused: bool,
    width: u32,
    height: u32,
    rate: Option<(usize, usize, usize, usize)>,
    durations: Vec<(usize, usize)>,
}

impl Scan {
    spec fn ranges_ok(&self, t: Seq<char>) -> bool {
        &&& (self.rate matches Some((a, b, c, d)) ==> a <= b <= t.len() && c <= d <= t.len())
        &&& forall|i: int|
            0 <= i < self.durations@.len() ==> (#[trigger] self.durations@[i]).0
                <= self.durations@[i].1 <= t.len()
    }

    spec fn view_in(&self, t: Seq<char>) -> Option<ProbeView> {
        if self.refused {
            None
        } else {
            Some(
                ProbeView {
                    width: self.width,
                    height: self.height,
                    frame_rate: match self.rate {
                        Some((a, b, c, d)) => Some((t.subrange(a as int, b as int), t.subrange(c as int, d as int))),
                        None => None,
                    },
                    durations: self.durations@.map_values(
                        |r: (usize, usize)| t.subrange(r.0 as int, r.1 as int),
                    ),
                },
            )
        }
    }
}

fn scan_line(scan: &mut Scan, chars: &Vec<char>, from: usize, to: usize, keys: &Keys)
    requires
        from <= to <= chars@.len(),
        keys.wf(),
        old(scan).ranges_ok(chars@),
    ensures
        final(scan).ranges_ok(chars@),
        final(scan).view_in(chars@) == probe_step(
            old(scan).view_in(chars@),
            chars@.subrange(from as int, to as int),
        ),
{
    let ghost t = chars@;
    let ghost line = t.subrange(from as int, to as int);
    if scan.refused {
        return;
    }
    let eq = find_char(chars.as_slice(), from, to, '=');
    match eq {
        None => {},
        Some(e) => {
            let ghost key = t.subrange(from as int, e as int);
            let ghost val = t.subrange(e + 1, to as int);
            assert(line.subrange(0, e - from) =~= key);
            assert(line.subrange(e - from + 1, line.len() as int) =~= val);
            if slice_equals(chars.as_slice(), from, e, keys.width.as_slice()) {
                match parse_u32_range(chars.as_slice(), e + 1, to) {
                    Some(n) => {
                        scan.width = n;
                    },
                    None => {
                        scan.refused = true;
                    },
                }
            } else if slice_equals(chars.as_slice(), from, e, keys.height.as_slice()) {
                match parse_u32_range(chars.as_slice(), e + 1, to) {
                    Some(n) => {
                        scan.height = n;
                    },
                    None => {
                        scan.refused = true;
                    },
                }
            } else if slice_equals(chars.as_slice(), from, e, keys.rate.as_slice()) {
                match find_char(chars.as_slice(), e + 1, to, '/') {
                    Some(sl) => {
                        assert(val.subrange(0, sl - (e + 1)) =~= t.subrange(e + 1, sl as int));
                        assert(val.subrange(sl - (e + 1) + 1, val.len() as int) =~= t.subrange(
                            sl + 1,
                            to as int,
                        ));
                        scan.rate = Some((e + 1, sl, sl + 1, to));
                    },
                    None => {},
                }
            } else if slice_equals(chars.as_slice(), from, e, keys.duration.as_slice()) {
                let ghost before = scan.durations@;
                scan.durations.push((e + 1, to));
                proof {
                    assert(scan.durations@.map_values(
                        |r: (usize, usize)| t.subrange(r.0 as int, r.1 as int),
                    ) =~= before.map_values(|r: (usize, usize)| t.subrange(r.0 as int, r.1 as int)).push(val));
                }
            }
        },
    }
}

/// Reads a probe report. Each line is `key=value`; the result is `None`
/// when a `width` or `height` value is not an unsigned 32-bit number, else
/// the last width and height (0 when absent), the last `num/den` frame rate,
/// and all duration values in order.
pub fn parse_probe_output(text: &str) -> (res: Option<ProbeFields>)
    ensures
        match res {
            Some(f) => probe_report(text@) == Some(f@),
            None => probe_report(text@) is None,
        },
{
    let chars = str_chars(text);
    let ghost t = chars@;
    let keys = Keys {
        width: str_chars("width"),
        height: str_chars("height"),
        rate: str_chars("r_frame_rate"),
        duration: str_chars("duration"),
    };
    let mut scan = Scan { refused: false, width: 0, height: 0, rate: None, durations: Vec::new() };
    let n = chars.len();
    let mut line_start: usize = 0;
    let mut i: usize = 0;
    proof {
        assert(t.subrange(0, 0) =~= Seq::<char>::empty());
        assert(scan.durations@.map_values(|r: (usize, usize)| t.subrange(r.0 as int, r.1 as int))
            =~= Seq::<Seq<char>>::empty());
    }
    while i < n
        invariant
            n == t.len(),
            t == chars@,
            keys.wf(),
            line_start <= i <= n,
            scan.ranges_ok(t),
            lines_scan(t.subrange(0, i as int)).1 == t.subrange(line_start as int, i as int),
            scan.view_in(t) == probe_lines(lines_scan(t.subrange(0, i as int)).0),
        decreases n - i,
    {
        let ghost prefix = t.subrange(0, i as int);
        let ghost next = t.subrange(0, i + 1);
        assert(next.drop_last() =~= prefix);
        if chars[i] == '\n' {
            let ghost cur = t.subrange(line_start as int, i as int);
            let mut end = i;
            if i > line_start && chars[i - 1] == '\r' {
                end = i - 1;
            }
            assert(t.subrange(line_start as int, end as int) =~= strip_cr(cur));
            scan_line(&mut scan, &chars, line_start, end, &keys);
            proof {
                let done = lines_scan(prefix).0;
                assert(done.push(strip_cr(cur)).drop_last() =~= done);
            }
            line_start = i + 1;
        } else {
            assert(t.subrange(line_start as int, i + 1) =~= t.subrange(line_start as int, i as int).push(
                t[i as int],
            ));
        }
        i = i + 1;
    }
    assert(t.subrange(0, n as int) =~= t);
    if line_start < n {
        scan_line(&mut scan, &chars, line_start, n, &keys);
        proof {
            let done = lines_scan(t).0;
            assert(done.push(t.subrange(line_start as int, n as int)).drop_last() =~= done);
        }
    }
    if scan.refused {
        return None;
    }
    let frame_rate = match scan.rate {
        Some((a, b, c, d)) => Some(
            (chars_to_string(chars.as_slice(), a, b), chars_to_string(chars.as_slice(), c, d)),
        ),
        None => None,
    };
    let mut durations: Vec<String> = Vec::new();
    let mut k: usize = 0;
    while k < scan.durations.len()
        invariant
            k <= scan.durations@.len(),
            scan.ranges_ok(t),
            t == chars@,
            durations@.len() == k,
            forall|j: int|
                0 <= j < k ==> #[trigger] durations@[j]@ == t.subrange(
                    scan.durations@[j].0 as int,
                    scan.durations@[j].1 as int,
                ),
        decreases scan.durations@.len() - k,
    {
        let (a, b) = scan.durations[k];
        durations.push(chars_to_string(chars.as_slice(), a, b));
        k = k + 1;
    }
    let fields = ProbeFields { width: scan.width, height: scan.height, frame_rate, durations };
    proof {
        assert(fields@.durations =~= scan.durations@.map_values(
            |r: (usize, usize)| t.subrange(r.0 as int, r.1 as int),
        ));
    }
    Some(fields)
}

} // verus!
