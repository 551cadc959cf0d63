# ascii_art

Image-to-ASCII-art conversion with a verified core.

* `src/` — the library, verified with Verus:
  * `charsets` — the four character ramps and their names;
  * `engine` — cells, the glyph rules (brightness ramp, inversion, edge
    glyphs) and assembly of the picture grid;
  * `kernels` — Floyd–Steinberg diffusion targets and the 3×3 edge window;
  * `export` — plain-text and HTML export;
  * `frame` — RGB pictures, decoding and nearest-neighbour resampling
    through the `image` crate;
  * `probe` — reading the `key=value` report of a video probe;
  * `session` — the editing session (picture, conversion, settings);
  * `text` — character helpers;
  * `laws` — properties that span several functions.
* `app/` — the desktop program: the floating-point brightness pipeline
  (luminance, contrast, gradients, dithering), the egui window, file
  dialogs, video decoding through ffmpeg, and a terminal preview mode
  (`ascii_art <image> [step]`).
* `tests/` — tests of the library.
