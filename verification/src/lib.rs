//! Verified core of an image-to-ASCII-art converter: character ramps,
//! cell selection, export to text and HTML, parsing of video probe output,
//! and the integer bookkeeping (pixel grids, error diffusion, edge windows)
//! around the numeric image pipeline.

pub mod charsets;
pub mod engine;
pub mod config;
pub mod export;
pub mod text;
pub mod probe;
pub mod frame;
pub mod kernels;
pub mod session;
pub mod laws;
