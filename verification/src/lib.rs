//! Morphological image transforms driven by a generated structuring-element
//! ("kernel") image: dilation, erosion, and a derived stroke/outline operator,
//! together with the pixel-grid and pixel-algebra types they operate on.

pub mod encoding;
pub mod image;
pub mod kernel;
pub mod morph;
pub mod num;
pub mod pixel;
pub mod stroke;
pub mod text;

pub use encoding::{AdaptiveFilterType, Compression, FilterType, PngDecoder, PngEncoder};
pub use image::Image;
pub use kernel::{KernelImage, KernelShape};
pub use morph::{Dilation, Erosion, Frac};
pub use num::isqrt;
pub use pixel::{BitPixel, Pixel, Rgba, L};
pub use stroke::Stroke;
pub use text::{HorizontalAnchor, VerticalAnchor};
