//! Pictures as plain RGB samples, and the two steps that the `image` crate
//! performs on them: decoding a file and nearest-neighbour resampling.

use vstd::prelude::*;
use image::GenericImageView;

verus! {

/// An RGB picture: `width * height` pixels in raster order, three bytes each.
#[derive(Clone, Debug)]
pub struct RgbFrame {
    pub width: u32,
    pub height: u32,
    pub data: Vec<u8>,
}

/// Number of bytes of a `width` by `height` RGB picture.
pub open spec fn rgb_len(width: u32, height: u32) -> int {
    width as int * height as int * 3
}

/// The colour of pixel `i` of an RGB sample sequence.
pub open spec fn pixel_of(data: Seq<u8>, i: int) -> (u8, u8, u8) {
    (data[3 * i], data[3 * i + 1], data[3 * i + 2])
}

/// Some pixel among the first `count` of `data` has colour `p`.
pub open spec fn pixel_among(p: (u8, u8, u8), data: Seq<u8>, count: int) -> bool {
    exists|j: int| 0 <= j < count && #[trigger] pixel_of(data, j) == p
}

impl RgbFrame {
    /// The sample buffer holds exactly the picture's pixels.
    pub open spec fn wf(&self) -> bool {
        self.data@.len() == rgb_len(self.width, self.height)
    }

    /// Number of pixels.
    pub open spec fn pixel_count(&self) -> int {
        self.width as int * self.height as int
    }
}

/// The RGB samples that the `image` crate's nearest-neighbour resize makes
/// of a `width` by `height` picture at `new_w` by `new_h`.
pub uninterp spec fn nearest_resized(
    width: u32,
    height: u32,
    data: Seq<u8>,
    new_w: u32,
    new_h: u32,
) -> Seq<u8>;

/// Whether `image::load_from_memory` may decode `bytes` to a `width` by
/// `height` picture with these RGB samples. A relation, not a function: the
/// crate consults decoding hooks that any code in the process may register,
/// so the same bytes need not always decode alike.
pub uninterp spec fn decodes_to(bytes: Seq<u8>, width: u32, height: u32, data: Seq<u8>) -> bool;

/// Whether `image::load_from_memory_with_format`, in the format that
/// extension `ext` names, may decode `bytes` to this picture. A relation,
/// for the same reason as `decodes_to`.
pub uninterp spec fn decodes_with_extension(
    bytes: Seq<u8>,
    ext: Seq<char>,
    width: u32,
    height: u32,
    data: Seq<u8>,
) -> bool;

/// A text with its ASCII capitals made lower case.
pub open spec fn ascii_lower(s: Seq<char>) -> Seq<char> {
    s.map_values(
        |c: char|
            if 'A' as u32 <= c as u32 <= 'Z' as u32 {
                ((c as u32) + 32) as char
            } else {
                c
            },
    )
}

/// The (lower-case) file extensions that `image::ImageFormat::from_extension`
/// maps to a format.
pub open spec fn known_format_extension(e: Seq<char>) -> bool {
    ||| e == "avif"@
    ||| e == "jpg"@
    ||| e == "jpeg"@
    ||| e == "jfif"@
    ||| e == "png"@
    ||| e == "apng"@
    ||| e == "gif"@
    ||| e == "webp"@
    ||| e == "tif"@
    ||| e == "tiff"@
    ||| e == "tga"@
    ||| e == "dds"@
    ||| e == "bmp"@
    ||| e == "ico"@
    ||| e == "hdr"@
    ||| e == "exr"@
    ||| e == "pbm"@
    ||| e == "pam"@
    ||| e == "ppm"@
    ||| e == "pgm"@
    ||| e == "pnm"@
    ||| e == "ff"@
    ||| e == "qoi"@
}

/// `image::load_from_memory` (format guessed from the content), then the
/// red, green and blue of every pixel read with `get_pixel`, row by row; an
/// error is returned as its `to_string()` text. Claimed: a decoded picture
/// has three samples per pixel and is one the bytes may decode to
/// (`decodes_to`). Which picture, and when an error comes, is left unsaid.
#[verifier::external_body]
fn decode_rgb(bytes: &[u8]) -> (res: Result<(u32, u32, Vec<u8>), String>)
    ensures
        res matches Ok((w, h, d)) ==> d@.len() == rgb_len(w, h) && decodes_to(bytes@, w, h, d@),
{
    let img = match image::load_from_memory(bytes) {
        Ok(img) => img,
        Err(e) => return Err(e.to_string()),
    };
    let (w, h) = img.dimensions();
    let mut data = Vec::new();
    for y in 0..h {
        for x in 0..w {
            data.extend_from_slice(&img.get_pixel(x, y).0[..3]);
        }
    }
    Ok((w, h, data))
}

/// `image::ImageFormat::from_extension`, then
/// `image::load_from_memory_with_format` in that format, the samples read as
/// in `decode_rgb`. Claimed: `None` exactly when the extension, its ASCII
/// capitals lowered, is none of the names `from_extension` lists; a decoded
/// picture has three samples per pixel and is one the bytes may decode to
/// in that format (`decodes_with_extension`). Which picture, and when an
/// error comes, is left unsaid.
#[verifier::external_body]
fn decode_rgb_as(bytes: &[u8], ext: &str) -> (res: Option<Result<(u32, u32, Vec<u8>), String>>)
    ensures
        res is None <==> !known_format_extension(ascii_lower(ext@)),
        res matches Some(Ok((w, h, d))) ==> d@.len() == rgb_len(w, h) && decodes_with_extension(
            bytes@,
            ext@,
            w,
            h,
            d@,
        ),
{
    let format = image::ImageFormat::from_extension(ext)?;
    let img = match image::load_from_memory_with_format(bytes, format) {
        Ok(img) => img,
        Err(e) => return Some(Err(e.to_string())),
    };
    let (w, h) = img.dimensions();
    let mut data = Vec::new();
    for y in 0..h {
        for x in 0..w {
            data.extend_from_slice(&img.get_pixel(x, y).0[..3]);
        }
    }
    Some(Ok((w, h, data)))
}

/// `image::imageops::resize` with `FilterType::Nearest` on an RGB buffer
/// (`RgbImage::from_raw`, then `into_raw` on the result). The intermediate
/// picture of `width` by `new_h` four-float pixels must fit in memory.
/// Claimed: the result is the named `nearest_resized` of the arguments,
/// with three samples per output pixel; same dimensions give a copy; from
/// a non-empty picture every output pixel is one of the input pixels (the
/// box kernel with zero support reads exactly one source pixel, with
/// weight one).
#[verifier::external_body]
fn resize_nearest_rgb(width: u32, height: u32, data: &Vec<u8>, new_w: u32, new_h: u32) -> (out: Vec<u8>)
    requires
        data@.len() == rgb_len(width, height),
        rgb_len(new_w, new_h) <= usize::MAX,
        (width == new_w && height == new_h) || width as int * height as int == 0 || width as int
            * new_h as int * 4 <= usize::MAX,
    ensures
        out@ == nearest_resized(width, height, data@, new_w, new_h),
        out@.len() == rgb_len(new_w, new_h),
        width == new_w && height == new_h ==> out@ == data@,
        forall|i: int|
            0 <= i < new_w as int * new_h as int && width as int * height as int > 0
                ==> #[trigger] pixel_among(pixel_of(out@, i), data@, width as int * height as int),
{
    let img = image::RgbImage::from_raw(width, height, data.clone()).unwrap();
    image::imageops::resize(&img, new_w, new_h, image::imageops::FilterType::Nearest).into_raw()
}

/// A decoder's output as a picture: the samples of a decoded picture, or
/// the decoder's error text.
pub fn frame_from_decoded(decoded: Result<(u32, u32, Vec<u8>), String>) -> (res: Result<RgbFrame, String>)
    ensures
        match decoded {
            Ok((w, h, d)) => res matches Ok(f) && f.width == w && f.height == h && f.data == d,
            Err(e) => res == Err::<RgbFrame, String>(e),
        },
{
    match decoded {
        Ok((width, height, data)) => Ok(RgbFrame { width, height, data }),
        Err(e) => Err(e),
    }
}

/// Decodes an image file held in memory, the format guessed from its
/// content, or returns the text of the error that the `image` crate reports.
/// A decoded picture is well formed and one the bytes may decode to.
pub fn decode_image(bytes: &[u8]) -> (res: Result<RgbFrame, String>)
    ensures
        res matches Ok(f) ==> f.wf() && decodes_to(bytes@, f.width, f.height, f.data@),
{
    frame_from_decoded(decode_rgb(bytes))
}

/// Decodes an image file held in memory in the format that its file
/// extension names; `None` exactly when the `image` crate knows no such
/// extension (ASCII case ignored). A decoded picture is well formed and one
/// the bytes may decode to in that format.
pub fn decode_image_as(bytes: &[u8], ext: &str) -> (res: Option<Result<RgbFrame, String>>)
    ensures
        res is None <==> !known_format_extension(ascii_lower(ext@)),
        res matches Some(Ok(f)) ==> f.wf() && decodes_with_extension(
            bytes@,
            ext@,
            f.width,
            f.height,
            f.data@,
        ),
{
    match decode_rgb_as(bytes, ext) {
        Some(decoded) => Some(frame_from_decoded(decoded)),
        None => None,
    }
}

/// Resamples a picture to `new_w` by `new_h` pixels, each output pixel
/// taken from the nearest input pixel.
pub fn resize_nearest(frame: &RgbFrame, new_w: u32, new_h: u32) -> (out: RgbFrame)
    requires
        frame.wf(),
        rgb_len(new_w, new_h) <= usize::MAX,
        (frame.width == new_w && frame.height == new_h) || frame.pixel_count() == 0
            || frame.width as int * new_h as int * 4 <= usize::MAX,
    ensures
        out.wf(),
        out.width == new_w,
        out.height == new_h,
        out.data@ == nearest_resized(frame.width, frame.height, frame.data@, new_w, new_h),
        frame.width == new_w && frame.height == new_h ==> out.data@ == frame.data@,
        forall|i: int|
            0 <= i < out.pixel_count() && frame.pixel_count() > 0 ==> #[trigger] pixel_among(
                pixel_of(out.data@, i),
                frame.data@,
                frame.pixel_count(),
            ),
{
    let data = resize_nearest_rgb(frame.width, frame.height, &frame.data, new_w, new_h);
    RgbFrame { width: new_w, height: new_h, data }
}

/// A picture made from a raw sample buffer: `None` when the buffer holds
/// fewer than `width * height * 3` bytes; samples past the picture are
/// left out.
pub fn frame_from_raw(width: u32, height: u32, buf: Vec<u8>) -> (res: Option<RgbFrame>)
    ensures
        match res {
            Some(f) => buf@.len() >= rgb_len(width, height) && f.wf() && f.width == width
                && f.height == height && f.data@ == buf@.subrange(0, rgb_len(width, height)),
            None => buf@.len() < rgb_len(width, height),
        },
{
    assert(width as u128 * height as u128 * 3 <= 0xffff_ffff_ffff_ffff_ffff_ffffu128) by (nonlinear_arith)
        requires
            width <= 0xffff_ffffu32,
            height <= 0xffff_ffffu32,
    ;
    let needed: u128 = width as u128 * height as u128 * 3;
    if needed > buf.len() as u128 {
        return None;
    }
    let mut data = buf;
    data.truncate(needed as usize);
    Some(RgbFrame { width, height, data })
}

/// The colours of a picture's pixels, in raster order.
pub fn frame_pixels(frame: &RgbFrame) -> (px: Vec<(u8, u8, u8)>)
    requires
        frame.wf(),
    ensures
        px@.len() == frame.pixel_count(),
        forall|i: int| 0 <= i < px@.len() ==> #[trigger] px@[i] == pixel_of(frame.data@, i),
{
    let len = frame.data.len();
    let n = len / 3;
    let mut px: Vec<(u8, u8, u8)> = Vec::new();
    let mut i: usize = 0;
    while i < n
        invariant
            n as int == frame.pixel_count(),
            frame.data@.len() == 3 * n,
            len == frame.data@.len(),
            i <= n,
            px@.len() == i,
            forall|k: int| 0 <= k < i ==> #[trigger] px@[k] == pixel_of(frame.data@, k),
        decreases n - i,
    {
        px.push((frame.data[3 * i], frame.data[3 * i + 1], frame.data[3 * i + 2]));
        i = i + 1;
    }
    px
}

} // verus!
