//! The settings of one batch.

use vstd::prelude::*;

verus! {

/// A quality setting on the scale from 0 to 100, held as the bit pattern of
/// a single-precision number. The library hands it on to the encoder and
/// never computes with it.
#[derive(Clone, Copy, Debug, PartialEq, Eq)]
pub struct Quality {
    pub bits: u32,
}

/// What a batch is asked to do. The settings are fixed for the whole batch.
#[derive(Clone, Copy, Debug, PartialEq, Eq)]
pub struct Options {
    /// Re-encode each image in its own format.
    pub optimize_images: bool,
    /// Quality of the lossy re-encoding of JPEG images.
    pub jpg_quality: Quality,
    /// Write a WebP version of each image as well.
    pub generate_webp: bool,
    /// Quality of the WebP encoding.
    pub webp_quality: Quality,
    /// Encode the WebP version from the re-encoded image, not from the
    /// original. Only has an effect together with `optimize_images`.
    pub webp_from_optimized: bool,
    /// Reduce PNG images to a palette instead of re-encoding them losslessly.
    pub use_png8: bool,
    /// Quality of the palette reduction, from 0 to 100.
    pub png8_quality: u8,
}

/// The encoder that a transform runs.
#[derive(Clone, Copy, Debug, PartialEq, Eq)]
pub enum Codec {
    /// Lossy JPEG re-encoding at the given quality.
    Jpeg { quality: Quality },
    /// Lossless PNG re-encoding.
    Png,
    /// PNG reduced to a palette at the given quality, from 0 to 100.
    Png8 { palette_quality: u8 },
    /// WebP encoding at the given quality.
    Webp { quality: Quality },
}

} // verus!
