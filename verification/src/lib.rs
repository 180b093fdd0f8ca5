//! Decoder for the CRX image container used by CIRCUS visual-novel titles.
//!
//! The decoder is a pure function over the input bytes: it parses the fixed
//! header, an optional indexed palette and optional clip records, decompresses
//! the payload (a custom sliding-window scheme for version 1, zlib plus a
//! five-mode per-row filter bank for versions 2 and 3), and post-processes the
//! result into a canonical top-down RGB or RGBA pixel buffer.

pub mod bytes;
pub mod clip;
pub mod crx;
pub mod error;
pub mod filters;
pub mod header;
pub mod laws;
pub mod lz;
pub mod palette;
pub mod post;
pub mod zlib;

pub use clip::CrxImageClip;
pub use crx::{CrxFile, CrxView, spec_decode};
pub use error::{CrxDecodeError, CrxImageConvertError};
pub use header::{CrxHeader, depth_to_bpp};
pub use palette::read_palette;
pub use filters::{decode_rows, expand_palette};
pub use lz::unpack_1;
