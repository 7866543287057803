//! Codec configuration for the PNG encoder and decoder interfaces.
//!
//! Only the configuration state lives here: the filter, adaptive-filter and
//! compression choices an encoder is built with.  The encoding and decoding
//! themselves read and write byte streams and are performed outside this
//! library, against the configuration assembled here.

use vstd::prelude::*;

verus! {

/// The adaptive filtering strategy of a PNG encoder.
#[derive(Clone, Copy, Debug, PartialEq, Eq, Structural)]
pub enum AdaptiveFilterType {
    /// One filter for the whole image.
    NonAdaptive,
    /// A per-scanline heuristic filter choice.
    Adaptive,
}

/// The scanline filter of a PNG encoder.
#[derive(Clone, Copy, Debug, PartialEq, Eq, Structural)]
pub enum FilterType {
    /// No filtering.
    NoFilter,
    /// Each byte minus the byte to its left.
    Sub,
    /// Each byte minus the byte above it.
    Up,
    /// Each byte minus the average of left and above.
    Avg,
    /// Each byte minus the Paeth predictor of left, above and upper-left.
    Paeth,
}

/// The compression effort of a PNG encoder.
#[derive(Clone, Copy, Debug, PartialEq, Eq, Structural)]
pub enum Compression {
    /// The default balance of speed and size.
    Default,
    /// Favor speed.
    Fast,
    /// Favor size.
    Best,
}

/// A PNG encoder configuration.
pub struct PngEncoder {
    /// The adaptive filter type to use.
    pub adaptive_filter: AdaptiveFilterType,
    /// The filter type to use.
    pub filter: FilterType,
    /// The compression to use.
    pub compression: Compression,
}

impl PngEncoder {
    /// Creates a new encoder configuration with the default settings: no
    /// adaptive filtering, no filter, default compression.
    pub fn new() -> (e: Self)
        ensures
            e.adaptive_filter == AdaptiveFilterType::NonAdaptive,
            e.filter == FilterType::NoFilter,
            e.compression == Compression::Default,
    {
        Self {
            adaptive_filter: AdaptiveFilterType::NonAdaptive,
            filter: FilterType::NoFilter,
            compression: Compression::Default,
        }
    }

    /// Sets the adaptive filter type to use.
    pub fn with_adaptive_filter(self, value: AdaptiveFilterType) -> (e: Self)
        ensures
            e.adaptive_filter == value,
            e.filter == self.filter,
            e.compression == self.compression,
    {
        Self { adaptive_filter: value, ..self }
    }

    /// Sets the filter type to use.
    pub fn with_filter(self, value: FilterType) -> (e: Self)
        ensures
            e.adaptive_filter == self.adaptive_filter,
            e.filter == value,
            e.compression == self.compression,
    {
        Self { filter: value, ..self }
    }

    /// Sets the compression level to use.
    pub fn with_compression(self, value: Compression) -> (e: Self)
        ensures
            e.adaptive_filter == self.adaptive_filter,
            e.filter == self.filter,
            e.compression == value,
    {
        Self { compression: value, ..self }
    }
}

/// A PNG decoder configuration.
pub struct PngDecoder;

impl PngDecoder {
    /// Creates a new decoder with the default settings.
    pub fn new() -> (d: Self) {
        Self
    }
}

} // verus!
