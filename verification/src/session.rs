//! The state of one editing session: the loaded picture, its conversion,
//! the settings, and whether the conversion is out of date.

use vstd::prelude::*;
use crate::config::AsciiConfig;
use crate::engine::AsciiResult;
use crate::export::{build_html, html_page, result_rows, result_text, rows_text};
use crate::frame::{decode_image, decodes_to, RgbFrame};
use crate::text::str_chars;

verus! {

/// A session: the picture, its latest conversion, the settings, and a flag
/// that is set whenever the conversion no longer matches them.
pub struct AsciiApp {
    pub image: Option<RgbFrame>,
    pub result: Option<AsciiResult>,
    pub config: AsciiConfig,
    pub dirty: bool,
}

impl Default for AsciiApp {
    fn default() -> (app: Self)
        ensures
            app.image is None,
            app.result is None,
            app.config == AsciiConfig::default_spec(),
            !app.dirty,
    {
        AsciiApp { image: None, result: None, config: AsciiConfig::default(), dirty: false }
    }
}

impl AsciiApp {
    /// The session after a decoding attempt: a picture replaces the previous
    /// one and marks the conversion out of date; an error changes nothing.
    pub open spec fn after_decoding(self, decoded: Result<RgbFrame, String>) -> AsciiApp {
        match decoded {
            Ok(f) => AsciiApp { image: Some(f), result: self.result, config: self.config, dirty: true },
            Err(_) => self,
        }
    }

    /// Takes in the outcome of decoding an image file: a picture replaces
    /// the previous one and marks the conversion out of date; an error
    /// leaves the session as it was and is handed back.
    pub fn accept_decoded(&mut self, decoded: Result<RgbFrame, String>) -> (res: Result<(), String>)
        ensures
            *final(self) == old(self).after_decoding(decoded),
            match decoded {
                Ok(_) => res is Ok,
                Err(e) => res == Err::<(), String>(e),
            },
    {
        match decoded {
            Ok(frame) => {
                self.image = Some(frame);
                self.dirty = true;
                Ok(())
            },
            Err(e) => Err(e),
        }
    }

    /// Loads a picture from the bytes of an image file. On success a
    /// well-formed picture replaces the previous one and the conversion is
    /// marked out of date; on failure nothing changes and the decoder's
    /// message is returned.
    pub fn load_image_bytes(&mut self, bytes: &[u8]) -> (res: Result<(), String>)
        ensures
            res is Ok ==> {
                &&& final(self).image matches Some(f) && f.wf() && decodes_to(
                    bytes@,
                    f.width,
                    f.height,
                    f.data@,
                )
                &&& final(self).dirty
                &&& final(self).result == old(self).result
                &&& final(self).config == old(self).config
            },
            res is Err ==> *final(self) == *old(self),
    {
        let decoded = decode_image(bytes);
        self.accept_decoded(decoded)
    }

    /// Puts a picture in place of the previous one and marks the conversion
    /// out of date.
    pub fn set_image(&mut self, frame: RgbFrame)
        ensures
            final(self).image == Some(frame),
            final(self).dirty,
            final(self).result == old(self).result,
            final(self).config == old(self).config,
    {
        self.image = Some(frame);
        self.dirty = true;
    }

    /// Marks the conversion out of date.
    pub fn invalidate(&mut self)
        ensures
            final(self).dirty,
            final(self).image == old(self).image,
            final(self).result == old(self).result,
            final(self).config == old(self).config,
    {
        self.dirty = true;
    }

    /// Replaces the settings; the conversion is out of date when they differ.
    pub fn set_config(&mut self, config: AsciiConfig)
        ensures
            final(self).config == config,
            final(self).dirty == (old(self).dirty || config != old(self).config),
            final(self).image == old(self).image,
            final(self).result == old(self).result,
    {
        if config != self.config {
            self.dirty = true;
        }
        self.config = config;
    }

    /// The session after recording a conversion: with a picture loaded the
    /// conversion becomes the result, with none the result stays; either way
    /// the conversion is up to date.
    pub open spec fn after_recompute(self, converted: Option<AsciiResult>) -> AsciiApp {
        AsciiApp {
            image: self.image,
            result: if self.image is Some {
                converted
            } else {
                self.result
            },
            config: self.config,
            dirty: false,
        }
    }

    /// Records a fresh conversion of the current picture. When a picture is
    /// loaded, `converted` becomes the result; with none, the result stays.
    /// Either way the conversion is up to date afterwards.
    pub fn recompute(&mut self, converted: Option<AsciiResult>)
        ensures
            *final(self) == old(self).after_recompute(converted),
            old(self).image is Some ==> final(self).result == converted,
            old(self).image is None ==> final(self).result == old(self).result,
            !final(self).dirty,
            final(self).image == old(self).image,
            final(self).config == old(self).config,
    {
        if self.image.is_some() {
            self.result = converted;
        }
        self.dirty = false;
    }

    /// The conversion as plain text, when there is one.
    pub fn text_export(&self) -> (text: Option<String>)
        ensures
            match self.result {
                Some(r) => text matches Some(t) && t@ == rows_text(result_rows(&r)),
                None => text is None,
            },
    {
        match &self.result {
            Some(r) => Some(result_text(r)),
            None => None,
        }
    }

    /// The conversion as an HTML page, when there is one.
    pub fn html_export(&self) -> (html: Option<String>)
        ensures
            match self.result {
                Some(r) => html matches Some(t) && t@ == html_page(&r, &self.config),
                None => html is None,
            },
    {
        match &self.result {
            Some(r) => Some(build_html(r, &self.config)),
            None => None,
        }
    }
}

/// Lower-case form of a text, as `str::to_lowercase` computes it.
pub uninterp spec fn lowercase(s: Seq<char>) -> Seq<char>;

/// `str::to_lowercase`. Claimed: the result is the named `lowercase` of
/// the text (Unicode lower-casing, which depends on the text alone).
#[verifier::external_body]
fn to_lowercase(s: &str) -> (r: String)
    ensures
        r@ == lowercase(s@),
{
    s.to_lowercase()
}

/// The file extensions that are opened as pictures.
pub open spec fn image_extension(e: Seq<char>) -> bool {
    e == "png"@ || e == "jpg"@ || e == "jpeg"@ || e == "gif"@ || e == "bmp"@ || e == "webp"@
        || e == "tiff"@ || e == "tif"@
}

fn chars_eq(a: &Vec<char>, b: &Vec<char>) -> (eq: bool)
    ensures
        eq == (a@ == b@),
{
    if a.len() != b.len() {
        return false;
    }
    let mut i: usize = 0;
    while i < a.len()
        invariant
            a@.len() == b@.len(),
            i <= a@.len(),
            forall|j: int| 0 <= j < i ==> a@[j] == b@[j],
        decreases a@.len() - i,
    {
        if a[i] != b[i] {
            return false;
        }
        i = i + 1;
    }
    assert(a@ =~= b@);
    true
}

/// Whether a lower-case file extension is one that is opened as a picture:
/// png, jpg, jpeg, gif, bmp, webp, tiff or tif.
pub fn is_image_extension_name(lower: &str) -> (yes: bool)
    ensures
        yes == image_extension(lower@),
{
    let l = str_chars(lower);
    chars_eq(&l, &str_chars("png")) || chars_eq(&l, &str_chars("jpg")) || chars_eq(
        &l,
        &str_chars("jpeg"),
    ) || chars_eq(&l, &str_chars("gif")) || chars_eq(&l, &str_chars("bmp")) || chars_eq(
        &l,
        &str_chars("webp"),
    ) || chars_eq(&l, &str_chars("tiff")) || chars_eq(&l, &str_chars("tif"))
}

/// The lower-case form of a file extension, when a file with that extension
/// is opened as a picture (png, jpg, jpeg, gif, bmp, webp, tiff or tif in
/// any case).
pub fn listed_extension(ext: &str) -> (lower: Option<String>)
    ensures
        match lower {
            Some(l) => l@ == lowercase(ext@) && image_extension(l@),
            None => !image_extension(lowercase(ext@)),
        },
{
    let lower = to_lowercase(ext);
    if is_image_extension_name(lower.as_str()) {
        Some(lower)
    } else {
        None
    }
}

} // verus!
