//! Pixel value types and the pixel-algebra capability surface that the
//! morphology operators require: a neutral minimum, a complement (yielding the
//! neutral maximum), scaling by a kernel weight, and component-wise max / min.
//!
//! Kernel weights are fixed-point fractions of `255`: a weight `w` stands for
//! the real factor `w / 255`, so weight `255` is full intensity and weight `0`
//! is none.

use vstd::prelude::*;

verus! {

/// A channel value `v` scaled by the fixed-point weight `w / 255`,
/// truncated towards zero.
pub open spec fn scale8(v: u8, w: u8) -> u8 {
    ((v as int) * (w as int) / 255) as u8
}

/// The scaled channel stays a byte, scaling by `255` is the identity,
/// scaling a full or an empty channel yields the weight or zero, and scaling
/// never increases a channel.
pub proof fn lemma_scale8_bounds(v: u8, w: u8)
    ensures
        0 <= (v as int) * (w as int) / 255 <= v,
        scale8(v, 255) == v,
        scale8(255, w) == w,
        scale8(0, w) == 0,
        scale8(v, w) as int == (v as int) * (w as int) / 255,
{
    assert(0 <= (v as int) * (w as int) / 255 <= v) by (nonlinear_arith)
        requires 0 <= v <= 255, 0 <= w <= 255,
    ;
    assert((v as int) * 255 / 255 == v as int) by (nonlinear_arith)
        requires 0 <= v,
    ;
    assert(255 * (w as int) / 255 == w as int) by (nonlinear_arith)
        requires 0 <= w,
    ;
}

/// The capability set the sliding-window operators need from a pixel value:
/// a neutral minimum (`default`), a complement carrying the minimum to the
/// maximum, scaling by a kernel weight, and component-wise max and min.
pub trait Pixel: Copy + Sized {
    /// The neutral minimum value, the reduction identity of dilation.
    spec fn spec_default() -> Self;

    /// The component-wise complement; applied to the default it yields the
    /// neutral maximum, the reduction identity of erosion.
    spec fn spec_complement(self) -> Self;

    /// The pixel scaled component-wise by the fixed-point weight `w / 255`.
    spec fn spec_scale(self, w: u8) -> Self;

    /// The component-wise maximum.
    spec fn spec_max(self, other: Self) -> Self;

    /// The component-wise minimum.
    spec fn spec_min(self, other: Self) -> Self;

    /// Returns the neutral minimum value.
    fn default() -> (r: Self)
        ensures
            r == Self::spec_default(),
    ;

    /// Returns the component-wise complement of this pixel.
    fn complement(self) -> (r: Self)
        ensures
            r == self.spec_complement(),
    ;

    /// Scales this pixel component-wise by the weight `w / 255`.
    fn scale(self, w: u8) -> (r: Self)
        ensures
            r == self.spec_scale(w),
    ;

    /// Returns the component-wise maximum of the two pixels.
    fn max(self, other: Self) -> (r: Self)
        ensures
            r == self.spec_max(other),
    ;

    /// Returns the component-wise minimum of the two pixels.
    fn min(self, other: Self) -> (r: Self)
        ensures
            r == self.spec_min(other),
    ;
}

/// A single-channel (luminance) pixel.
#[derive(Clone, Copy, Debug, PartialEq, Eq, Structural)]
pub struct L(pub u8);

impl Pixel for L {
    open spec fn spec_default() -> Self {
        L(0)
    }

    open spec fn spec_complement(self) -> Self {
        L((255 - self.0) as u8)
    }

    open spec fn spec_scale(self, w: u8) -> Self {
        L(scale8(self.0, w))
    }

    open spec fn spec_max(self, other: Self) -> Self {
        if self.0 >= other.0 {
            self
        } else {
            other
        }
    }

    open spec fn spec_min(self, other: Self) -> Self {
        if self.0 <= other.0 {
            self
        } else {
            other
        }
    }

    fn default() -> (r: Self) {
        L(0)
    }

    fn complement(self) -> (r: Self) {
        L(255 - self.0)
    }

    fn scale(self, w: u8) -> (r: Self) {
        proof {
            lemma_scale8_bounds(self.0, w);
        }
        L((self.0 as u32 * w as u32 / 255) as u8)
    }

    fn max(self, other: Self) -> (r: Self) {
        if self.0 >= other.0 {
            self
        } else {
            other
        }
    }

    fn min(self, other: Self) -> (r: Self) {
        if self.0 <= other.0 {
            self
        } else {
            other
        }
    }
}

/// A boolean occupancy pixel.
#[derive(Clone, Copy, Debug, PartialEq, Eq, Structural)]
pub struct BitPixel(pub bool);

/// A red/green/blue/alpha pixel, one byte per channel.
#[derive(Clone, Copy, Debug, PartialEq, Eq, Structural)]
pub struct Rgba {
    pub r: u8,
    pub g: u8,
    pub b: u8,
    pub a: u8,
}

impl Rgba {
    /// Creates a pixel from its four channels.
    pub fn new(r: u8, g: u8, b: u8, a: u8) -> (p: Rgba)
        ensures
            p == (Rgba { r, g, b, a }),
    {
        Rgba { r, g, b, a }
    }

    /// `src` composited behind `self`: where this pixel is fully opaque it is
    /// kept; where it is transparent `src` shows through; in between, each
    /// channel is blended as `(self_c * self_a + src_c * (255 - self_a)) / 255`
    /// and the alpha as `self_a + src_a * (255 - self_a) / 255`.
    pub open spec fn spec_underlay(self, src: Rgba) -> Rgba {
        let inv = 255 - self.a as int;
        Rgba {
            r: ((self.r as int * self.a as int + src.r as int * inv) / 255) as u8,
            g: ((self.g as int * self.a as int + src.g as int * inv) / 255) as u8,
            b: ((self.b as int * self.a as int + src.b as int * inv) / 255) as u8,
            a: (self.a as int + src.a as int * inv / 255) as u8,
        }
    }

    /// Composites `src` behind this pixel: the existing content keeps
    /// priority and `src` is visible only to the extent that this pixel does
    /// not already cover it.
    pub fn underlay(self, src: Rgba) -> (r: Rgba)
        ensures
            r == self.spec_underlay(src),
    {
        proof {
            lemma_underlay_channel_bounds(self.r, self.a, src.r);
            lemma_underlay_channel_bounds(self.g, self.a, src.g);
            lemma_underlay_channel_bounds(self.b, self.a, src.b);
            lemma_underlay_alpha_bounds(self.a, src.a);
        }
        let inv: u32 = 255 - self.a as u32;
        Rgba {
            r: ((self.r as u32 * self.a as u32 + src.r as u32 * inv) / 255) as u8,
            g: ((self.g as u32 * self.a as u32 + src.g as u32 * inv) / 255) as u8,
            b: ((self.b as u32 * self.a as u32 + src.b as u32 * inv) / 255) as u8,
            a: (self.a as u32 + src.a as u32 * inv / 255) as u8,
        }
    }
}

/// The blended colour channel of an underlay stays a byte.
pub proof fn lemma_underlay_channel_bounds(dc: u8, da: u8, sc: u8)
    ensures
        0 <= (dc as int * da as int + sc as int * (255 - da as int)) / 255 <= 255,
{
    assert(0 <= (dc as int * da as int + sc as int * (255 - da as int)) / 255 <= 255)
        by (nonlinear_arith)
        requires 0 <= dc <= 255, 0 <= da <= 255, 0 <= sc <= 255,
    ;
}

/// The blended alpha channel of an underlay stays a byte.
pub proof fn lemma_underlay_alpha_bounds(da: u8, sa: u8)
    ensures
        0 <= da as int + sa as int * (255 - da as int) / 255 <= 255,
{
    assert(0 <= da as int + sa as int * (255 - da as int) / 255 <= 255)
        by (nonlinear_arith)
        requires 0 <= da <= 255, 0 <= sa <= 255,
    ;
}

impl Pixel for Rgba {
    open spec fn spec_default() -> Self {
        Rgba { r: 0, g: 0, b: 0, a: 0 }
    }

    open spec fn spec_complement(self) -> Self {
        Rgba {
            r: (255 - self.r) as u8,
            g: (255 - self.g) as u8,
            b: (255 - self.b) as u8,
            a: (255 - self.a) as u8,
        }
    }

    open spec fn spec_scale(self, w: u8) -> Self {
        Rgba {
            r: scale8(self.r, w),
            g: scale8(self.g, w),
            b: scale8(self.b, w),
            a: scale8(self.a, w),
        }
    }

    open spec fn spec_max(self, other: Self) -> Self {
        Rgba {
            r: if self.r >= other.r { self.r } else { other.r },
            g: if self.g >= other.g { self.g } else { other.g },
            b: if self.b >= other.b { self.b } else { other.b },
            a: if self.a >= other.a { self.a } else { other.a },
        }
    }

    open spec fn spec_min(self, other: Self) -> Self {
        Rgba {
            r: if self.r <= other.r { self.r } else { other.r },
            g: if self.g <= other.g { self.g } else { other.g },
            b: if self.b <= other.b { self.b } else { other.b },
            a: if self.a <= other.a { self.a } else { other.a },
        }
    }

    fn default() -> (r: Self) {
        Rgba { r: 0, g: 0, b: 0, a: 0 }
    }

    fn complement(self) -> (r: Self) {
        Rgba {
            r: 255 - self.r,
            g: 255 - self.g,
            b: 255 - self.b,
            a: 255 - self.a,
        }
    }

    fn scale(self, w: u8) -> (r: Self) {
        proof {
            lemma_scale8_bounds(self.r, w);
            lemma_scale8_bounds(self.g, w);
            lemma_scale8_bounds(self.b, w);
            lemma_scale8_bounds(self.a, w);
        }
        Rgba {
            r: (self.r as u32 * w as u32 / 255) as u8,
            g: (self.g as u32 * w as u32 / 255) as u8,
            b: (self.b as u32 * w as u32 / 255) as u8,
            a: (self.a as u32 * w as u32 / 255) as u8,
        }
    }

    fn max(self, other: Self) -> (r: Self) {
        Rgba {
            r: if self.r >= other.r { self.r } else { other.r },
            g: if self.g >= other.g { self.g } else { other.g },
            b: if self.b >= other.b { self.b } else { other.b },
            a: if self.a >= other.a { self.a } else { other.a },
        }
    }

    fn min(self, other: Self) -> (r: Self) {
        Rgba {
            r: if self.r <= other.r { self.r } else { other.r },
            g: if self.g <= other.g { self.g } else { other.g },
            b: if self.b <= other.b { self.b } else { other.b },
            a: if self.a <= other.a { self.a } else { other.a },
        }
    }
}

} // verus!
