//! The sliding-window morphology operators: dilation (component-wise max
//! convolution) and erosion (its component-wise min dual), with destination
//! placement and anchor alignment.
//!
//! Both operators visit, for each destination pixel, every kernel cell; a
//! cell addresses the source sample displaced by the cell position minus the
//! anchor offset.  Dilation folds the weighted samples with component-wise
//! max starting from the pixel algebra's neutral minimum, skipping taps whose
//! sample falls outside the source.  Erosion folds with component-wise min
//! starting from the neutral maximum, and additionally skips taps whose
//! kernel weight is zero (a zero-weight cell is outside the structuring
//! element and must not force the minimum down).

use vstd::prelude::*;

use crate::image::Image;
use crate::kernel::KernelImage;
use crate::pixel::{Pixel, L};

verus! {

/// A non-negative fraction `num / den`, used for anchor coordinates inside
/// the unit square.
#[derive(Clone, Copy, Debug, PartialEq, Eq, Structural)]
pub struct Frac {
    /// The numerator.
    pub num: u64,
    /// The denominator; always positive.
    pub den: u64,
}

impl Frac {
    /// A valid anchor fraction lies in `[0, 1]`.
    pub open spec fn wf(self) -> bool {
        1 <= self.den && self.num <= self.den
    }

    /// `floor(n * self)`: the whole part of `n` scaled by the fraction.
    pub open spec fn spec_floor_scale(self, n: int) -> int {
        n * (self.num as int) / (self.den as int)
    }

    /// Creates the fraction `num / den`.
    pub fn new(num: u64, den: u64) -> (f: Frac)
        requires
            den >= 1,
            num <= den,
        ensures
            f == (Frac { num, den }),
            f.wf(),
    {
        Frac { num, den }
    }

    /// The center fraction `1 / 2`.
    pub fn half() -> (f: Frac)
        ensures
            f == (Frac { num: 1u64, den: 2u64 }),
            f.wf(),
    {
        Frac { num: 1, den: 2 }
    }
}

/// Computes `floor(dim * f)`, the anchor offset within a kernel axis of
/// extent `dim`.
fn anchor_offset(dim: u32, f: Frac) -> (r: u32)
    requires
        f.wf(),
    ensures
        r as int == f.spec_floor_scale(dim as int),
        r <= dim,
{
    proof {
        assert((dim as int) * (f.num as int) <= 0xFFFF_FFFF * 0xFFFF_FFFF_FFFF_FFFF)
            by (nonlinear_arith)
            requires 0 <= dim as int <= 0xFFFF_FFFF, 0 <= f.num as int <= 0xFFFF_FFFF_FFFF_FFFF,
        ;
    }
    let n: u128 = (dim as u128) * (f.num as u128) / (f.den as u128);
    proof {
        assert((dim as int) * (f.num as int) / (f.den as int) <= dim as int
            && 0 <= (dim as int) * (f.num as int) / (f.den as int)) by (nonlinear_arith)
            requires
                1 <= f.den as int,
                f.num as int <= f.den as int,
                0 <= dim as int,
        ;
    }
    n as u32
}

/// The inputs of one morphology pass, gathered for specification: the source
/// grid, the kernel grid, and the anchor offsets.
pub ghost struct Window<P> {
    /// Source width.
    pub src_w: int,
    /// Source height.
    pub src_h: int,
    /// Source pixels, row-major.
    pub src: Seq<P>,
    /// Kernel width.
    pub ker_w: int,
    /// Kernel height.
    pub ker_h: int,
    /// Kernel weights, row-major.
    pub ker: Seq<u8>,
    /// Anchor offset along x.
    pub ax: int,
    /// Anchor offset along y.
    pub ay: int,
}

impl<P> Window<P> {
    /// Consistency of the gathered inputs.
    pub open spec fn wf(self) -> bool {
        &&& self.src_w >= 1
        &&& self.src_h >= 1
        &&& self.src.len() == self.src_w * self.src_h
        &&& self.ker_w >= 1
        &&& self.ker_h >= 1
        &&& self.ker.len() == self.ker_w * self.ker_h
        &&& 0 <= self.ax
        &&& 0 <= self.ay
    }
}

/// The window gathered from a source image, a kernel and anchor offsets.
pub open spec fn window_of<P>(src: Image<P>, kernel: KernelImage, ax: int, ay: int) -> Window<P> {
    Window {
        src_w: src.width as int,
        src_h: src.height as int,
        src: src.data@,
        ker_w: kernel.width as int,
        ker_h: kernel.height as int,
        ker: kernel.data@,
        ax: ax,
        ay: ay,
    }
}

/// The weighted sample a kernel cell `(kx, ky)` contributes at relative
/// destination position `(j, i)`: the source pixel at
/// `(j, i) + (kx, ky) - anchor`, scaled by the cell's weight, or nothing
/// when that coordinate falls outside the source.
pub open spec fn tap_sample<P: Pixel>(wd: Window<P>, j: int, i: int, kx: int, ky: int) -> Option<
    P,
> {
    let sx = j + kx - wd.ax;
    let sy = i + ky - wd.ay;
    if 0 <= sx < wd.src_w && 0 <= sy < wd.src_h {
        Some(wd.src[sy * wd.src_w + sx].spec_scale(wd.ker[ky * wd.ker_w + kx]))
    } else {
        None
    }
}

/// The dilation fold over the kernel cells before row `ky`, plus the first
/// `kx` cells of row `ky`, in row-major order, starting from the neutral
/// minimum; a tap outside the source contributes nothing.
pub open spec fn dilate_upto<P: Pixel>(wd: Window<P>, j: int, i: int, ky: nat, kx: nat) -> P
    decreases ky, kx,
{
    if kx > 0 {
        let prev = dilate_upto(wd, j, i, ky, (kx - 1) as nat);
        match tap_sample(wd, j, i, kx - 1, ky as int) {
            Some(v) => prev.spec_max(v),
            None => prev,
        }
    } else if ky > 0 {
        dilate_upto(wd, j, i, (ky - 1) as nat, wd.ker_w as nat)
    } else {
        P::spec_default()
    }
}

/// The dilated value at relative destination position `(j, i)`: the
/// component-wise maximum of all weighted samples under the kernel.
pub open spec fn dilated<P: Pixel>(wd: Window<P>, j: int, i: int) -> P {
    dilate_upto(wd, j, i, wd.ker_h as nat, 0)
}

/// The erosion fold over the kernel cells before row `ky`, plus the first
/// `kx` cells of row `ky`, in row-major order, starting from the neutral
/// maximum; a tap with zero weight or outside the source is skipped.
pub open spec fn erode_upto<P: Pixel>(wd: Window<P>, j: int, i: int, ky: nat, kx: nat) -> P
    decreases ky, kx,
{
    if kx > 0 {
        let prev = erode_upto(wd, j, i, ky, (kx - 1) as nat);
        if wd.ker[ky * wd.ker_w + (kx - 1)] == 0 {
            prev
        } else {
            match tap_sample(wd, j, i, kx - 1, ky as int) {
                Some(v) => prev.spec_min(v),
                None => prev,
            }
        }
    } else if ky > 0 {
        erode_upto(wd, j, i, (ky - 1) as nat, wd.ker_w as nat)
    } else {
        P::spec_default().spec_complement()
    }
}

/// The eroded value at relative destination position `(j, i)`: the
/// component-wise minimum of the weighted samples under the positive-weight
/// kernel cells.
pub open spec fn eroded<P: Pixel>(wd: Window<P>, j: int, i: int) -> P {
    erode_upto(wd, j, i, wd.ker_h as nat, 0)
}

/// The source grid produced by dilating every position of the window's
/// source box.
pub open spec fn dilate_grid<P: Pixel>(wd: Window<P>) -> Seq<P> {
    Seq::new((wd.src_w * wd.src_h) as nat, |n: int| dilated(wd, n % wd.src_w, n / wd.src_w))
}

/// The source grid produced by eroding every position of the window's source
/// box.
pub open spec fn erode_grid<P: Pixel>(wd: Window<P>) -> Seq<P> {
    Seq::new((wd.src_w * wd.src_h) as nat, |n: int| eroded(wd, n % wd.src_w, n / wd.src_w))
}

/// The same window over a replacement source grid.
pub open spec fn with_src<P>(wd: Window<P>, s: Seq<P>) -> Window<P> {
    Window { src: s, ..wd }
}

/// The dilation fold dominates every tap it has already processed.
proof fn lemma_dilate_upto_ge(
    wd: Window<L>,
    j: int,
    i: int,
    ky: nat,
    kx: nat,
    tkx: nat,
    tky: nat,
    v: L,
)
    requires
        wd.wf(),
        kx <= wd.ker_w,
        tkx < wd.ker_w,
        tky < ky || (tky == ky && tkx < kx),
        tap_sample(wd, j, i, tkx as int, tky as int) == Some(v),
    ensures
        dilate_upto(wd, j, i, ky, kx).0 >= v.0,
    decreases ky, kx,
{
    if kx > 0 {
        if tky == ky && tkx == kx - 1 {
        } else {
            lemma_dilate_upto_ge(wd, j, i, ky, (kx - 1) as nat, tkx, tky, v);
        }
    } else {
        lemma_dilate_upto_ge(wd, j, i, (ky - 1) as nat, wd.ker_w as nat, tkx, tky, v);
    }
}

/// The dilation fold stays below any bound that dominates every tap.
proof fn lemma_dilate_upto_le(wd: Window<L>, j: int, i: int, ky: nat, kx: nat, v: u8)
    requires
        wd.wf(),
        kx <= wd.ker_w,
        ky <= wd.ker_h,
        kx > 0 ==> ky < wd.ker_h,
        forall|a: int, b: int|
            0 <= a < wd.ker_w && 0 <= b < wd.ker_h ==> (#[trigger] tap_sample(wd, j, i, a, b)
                matches Some(u) ==> u.0 <= v),
    ensures
        dilate_upto(wd, j, i, ky, kx).0 <= v,
    decreases ky, kx,
{
    if kx > 0 {
        lemma_dilate_upto_le(wd, j, i, ky, (kx - 1) as nat, v);
        if ky < wd.ker_h && kx - 1 < wd.ker_w {
            assert(tap_sample(wd, j, i, kx - 1, ky as int) matches Some(u) ==> u.0 <= v);
        }
    } else if ky > 0 {
        lemma_dilate_upto_le(wd, j, i, (ky - 1) as nat, wd.ker_w as nat, v);
    }
}

/// The erosion fold is dominated by every positive-weight tap it has already
/// processed.
proof fn lemma_erode_upto_le(
    wd: Window<L>,
    j: int,
    i: int,
    ky: nat,
    kx: nat,
    tkx: nat,
    tky: nat,
    v: L,
)
    requires
        wd.wf(),
        kx <= wd.ker_w,
        tkx < wd.ker_w,
        tky < ky || (tky == ky && tkx < kx),
        wd.ker[tky * wd.ker_w + tkx] != 0,
        tap_sample(wd, j, i, tkx as int, tky as int) == Some(v),
    ensures
        erode_upto(wd, j, i, ky, kx).0 <= v.0,
    decreases ky, kx,
{
    if kx > 0 {
        if tky == ky && tkx == kx - 1 {
        } else {
            lemma_erode_upto_le(wd, j, i, ky, (kx - 1) as nat, tkx, tky, v);
        }
    } else {
        lemma_erode_upto_le(wd, j, i, (ky - 1) as nat, wd.ker_w as nat, tkx, tky, v);
    }
}

/// The erosion fold stays above any bound below every positive-weight tap.
proof fn lemma_erode_upto_ge(wd: Window<L>, j: int, i: int, ky: nat, kx: nat, v: u8)
    requires
        wd.wf(),
        kx <= wd.ker_w,
        ky <= wd.ker_h,
        kx > 0 ==> ky < wd.ker_h,
        forall|a: int, b: int|
            0 <= a < wd.ker_w && 0 <= b < wd.ker_h && wd.ker[b * wd.ker_w + a] != 0 ==> (
            #[trigger] tap_sample(wd, j, i, a, b) matches Some(u) ==> u.0 >= v),
    ensures
        erode_upto(wd, j, i, ky, kx).0 >= v,
    decreases ky, kx,
{
    if kx > 0 {
        lemma_erode_upto_ge(wd, j, i, ky, (kx - 1) as nat, v);
        if ky < wd.ker_h && kx - 1 < wd.ker_w && wd.ker[ky * wd.ker_w + (kx - 1)] != 0 {
            assert(tap_sample(wd, j, i, kx - 1, ky as int) matches Some(u) ==> u.0 >= v);
        }
    } else if ky > 0 {
        lemma_erode_upto_ge(wd, j, i, (ky - 1) as nat, wd.ker_w as nat, v);
    }
}

/// Eroding a uniformly maximum-value source with a fully set kernel leaves
/// every pixel at the maximum: the identity case of erosion.
pub proof fn lemma_erosion_identity(wd: Window<L>, j: int, i: int)
    requires
        wd.wf(),
        forall|t: int| 0 <= t < wd.src.len() ==> wd.src[t] == L(255),
        forall|t: int| 0 <= t < wd.ker.len() ==> wd.ker[t] == 255u8,
    ensures
        eroded(wd, j, i) == L(255),
{
    assert forall|a: int, b: int|
        0 <= a < wd.ker_w && 0 <= b < wd.ker_h && wd.ker[b * wd.ker_w + a] != 0 implies (
    #[trigger] tap_sample(wd, j, i, a, b) matches Some(u) ==> u.0 >= 255) by {
        crate::num::lemma_row_major_in_range(wd.ker_w, wd.ker_h, a, b);
        let sx = j + a - wd.ax;
        let sy = i + b - wd.ay;
        if 0 <= sx < wd.src_w && 0 <= sy < wd.src_h {
            crate::num::lemma_row_major_in_range(wd.src_w, wd.src_h, sx, sy);
            crate::pixel::lemma_scale8_bounds(255, 255);
        }
    }
    lemma_erode_upto_ge(wd, j, i, wd.ker_h as nat, 0, 255);
    assert(eroded(wd, j, i).0 == 255);
}

/// Dilating a source that holds a single maximum-value pixel at `(cx, cy)`
/// in an otherwise-neutral field reproduces the kernel's weight pattern,
/// mirrored through the anchor cell and scaled by the maximum value: the
/// destination pixel at `(j, i)` carries exactly the weight of the kernel
/// cell `(cx - j + ax, cy - i + ay)`, and is neutral where that cell falls
/// outside the kernel.
pub proof fn lemma_dilation_of_point(wd: Window<L>, j: int, i: int, cx: int, cy: int)
    requires
        wd.wf(),
        0 <= cx < wd.src_w,
        0 <= cy < wd.src_h,
        wd.src[cy * wd.src_w + cx] == L(255),
        forall|t: int|
            0 <= t < wd.src.len() && t != cy * wd.src_w + cx ==> wd.src[t] == L(0),
    ensures
        dilated(wd, j, i) == (if 0 <= cx - j + wd.ax < wd.ker_w && 0 <= cy - i + wd.ay
            < wd.ker_h {
            L(wd.ker[(cy - i + wd.ay) * wd.ker_w + (cx - j + wd.ax)])
        } else {
            L(0)
        }),
{
    lemma_dilate_point_upto(wd, j, i, cx, cy, wd.ker_h as nat, 0);
}

/// The inductive core of [`lemma_dilation_of_point`]: the fold equals the
/// kernel weight of the single hit tap once processed, and stays neutral
/// before.
proof fn lemma_dilate_point_upto(wd: Window<L>, j: int, i: int, cx: int, cy: int, ky: nat, kx: nat)
    requires
        wd.wf(),
        kx <= wd.ker_w,
        ky <= wd.ker_h,
        kx > 0 ==> ky < wd.ker_h,
        0 <= cx < wd.src_w,
        0 <= cy < wd.src_h,
        wd.src[cy * wd.src_w + cx] == L(255),
        forall|t: int|
            0 <= t < wd.src.len() && t != cy * wd.src_w + cx ==> wd.src[t] == L(0),
    ensures
        dilate_upto(wd, j, i, ky, kx) == (if 0 <= cx - j + wd.ax < wd.ker_w && 0 <= cy - i + wd.ay
            < wd.ker_h && (cy - i + wd.ay < ky || (cy - i + wd.ay == ky && cx - j + wd.ax < kx)) {
            L(wd.ker[(cy - i + wd.ay) * wd.ker_w + (cx - j + wd.ax)])
        } else {
            L(0)
        }),
    decreases ky, kx,
{
    let tkx = cx - j + wd.ax;
    let tky = cy - i + wd.ay;
    if kx > 0 {
        lemma_dilate_point_upto(wd, j, i, cx, cy, ky, (kx - 1) as nat);
        let sx = j + (kx - 1) - wd.ax;
        let sy = i + ky - wd.ay;
        if 0 <= sx < wd.src_w && 0 <= sy < wd.src_h {
            crate::num::lemma_row_major_in_range(wd.src_w, wd.src_h, sx, sy);
            crate::pixel::lemma_scale8_bounds(255, wd.ker[ky * wd.ker_w + (kx - 1)]);
            if sx == cx && sy == cy {
                assert(kx - 1 == tkx && ky == tky);
            } else {
                if sy * wd.src_w + sx == cy * wd.src_w + cx {
                    crate::num::lemma_row_major_injective(wd.src_w, cx, cy, sx, sy);
                }
                assert(wd.src[sy * wd.src_w + sx] == L(0));
            }
        }
    } else if ky > 0 {
        lemma_dilate_point_upto(wd, j, i, cx, cy, (ky - 1) as nat, wd.ker_w as nat);
    }
}

/// Closing never shrinks: dilating and then eroding with the same binary,
/// odd-sized, center-anchored, point-symmetric kernel leaves every pixel at
/// least as large as it was.
pub proof fn lemma_closing_extensive(wd: Window<L>, j: int, i: int)
    requires
        wd.wf(),
        wd.ker_w % 2 == 1,
        wd.ker_h % 2 == 1,
        wd.ax == wd.ker_w / 2,
        wd.ay == wd.ker_h / 2,
        forall|t: int| 0 <= t < wd.ker.len() ==> wd.ker[t] == 0u8 || wd.ker[t] == 255u8,
        forall|a: int, b: int|
            0 <= a < wd.ker_w && 0 <= b < wd.ker_h ==> #[trigger] wd.ker[b * wd.ker_w + a]
                == wd.ker[(wd.ker_h - 1 - b) * wd.ker_w + (wd.ker_w - 1 - a)],
        0 <= j < wd.src_w,
        0 <= i < wd.src_h,
    ensures
        wd.src[i * wd.src_w + j].0 <= eroded(with_src(wd, dilate_grid(wd)), j, i).0,
{
    let kw = wd.ker_w;
    let kh = wd.ker_h;
    let sw = wd.src_w;
    let sh = wd.src_h;
    let v = wd.src[i * sw + j].0;
    let wd2 = with_src(wd, dilate_grid(wd));
    vstd::arithmetic::div_mod::lemma_fundamental_div_mod(kw, 2);
    vstd::arithmetic::div_mod::lemma_fundamental_div_mod(kh, 2);
    assert(2 * wd.ax == kw - 1);
    assert(2 * wd.ay == kh - 1);
    assert forall|a: int, b: int|
        0 <= a < kw && 0 <= b < kh && wd2.ker[b * kw + a] != 0 implies (#[trigger] tap_sample(
        wd2,
        j,
        i,
        a,
        b,
    ) matches Some(u) ==> u.0 >= v) by {
        crate::num::lemma_row_major_in_range(kw, kh, a, b);
        crate::num::lemma_row_major_in_range(kw, kh, kw - 1 - a, kh - 1 - b);
        let sx = j + a - wd.ax;
        let sy = i + b - wd.ay;
        if 0 <= sx < sw && 0 <= sy < sh {
            crate::num::lemma_row_major_in_range(sw, sh, sx, sy);
            vstd::arithmetic::div_mod::lemma_fundamental_div_mod_converse(
                sy * sw + sx,
                sw,
                sy,
                sx,
            );
            let dval = dilated(wd, sx, sy);
            assert(wd2.src[sy * sw + sx] == dval);
            crate::num::lemma_row_major_in_range(sw, sh, j, i);
            crate::pixel::lemma_scale8_bounds(wd.src[i * sw + j].0, 255);
            lemma_dilate_upto_ge(
                wd,
                sx,
                sy,
                kh as nat,
                0,
                (kw - 1 - a) as nat,
                (kh - 1 - b) as nat,
                L(v),
            );
            crate::pixel::lemma_scale8_bounds(dval.0, 255);
        }
    }
    lemma_erode_upto_ge(wd2, j, i, kh as nat, 0, v);
}

/// Opening never grows: eroding and then dilating with the same binary,
/// odd-sized, center-anchored, point-symmetric kernel leaves every pixel at
/// most as large as it was.
pub proof fn lemma_opening_antiextensive(wd: Window<L>, j: int, i: int)
    requires
        wd.wf(),
        wd.ker_w % 2 == 1,
        wd.ker_h % 2 == 1,
        wd.ax == wd.ker_w / 2,
        wd.ay == wd.ker_h / 2,
        forall|t: int| 0 <= t < wd.ker.len() ==> wd.ker[t] == 0u8 || wd.ker[t] == 255u8,
        forall|a: int, b: int|
            0 <= a < wd.ker_w && 0 <= b < wd.ker_h ==> #[trigger] wd.ker[b * wd.ker_w + a]
                == wd.ker[(wd.ker_h - 1 - b) * wd.ker_w + (wd.ker_w - 1 - a)],
        0 <= j < wd.src_w,
        0 <= i < wd.src_h,
    ensures
        dilated(with_src(wd, erode_grid(wd)), j, i).0 <= wd.src[i * wd.src_w + j].0,
{
    let kw = wd.ker_w;
    let kh = wd.ker_h;
    let sw = wd.src_w;
    let sh = wd.src_h;
    let v = wd.src[i * sw + j].0;
    let wd2 = with_src(wd, erode_grid(wd));
    vstd::arithmetic::div_mod::lemma_fundamental_div_mod(kw, 2);
    vstd::arithmetic::div_mod::lemma_fundamental_div_mod(kh, 2);
    assert(2 * wd.ax == kw - 1);
    assert(2 * wd.ay == kh - 1);
    assert forall|a: int, b: int| 0 <= a < kw && 0 <= b < kh implies (#[trigger] tap_sample(
        wd2,
        j,
        i,
        a,
        b,
    ) matches Some(u) ==> u.0 <= v) by {
        crate::num::lemma_row_major_in_range(kw, kh, a, b);
        crate::num::lemma_row_major_in_range(kw, kh, kw - 1 - a, kh - 1 - b);
        let sx = j + a - wd.ax;
        let sy = i + b - wd.ay;
        if 0 <= sx < sw && 0 <= sy < sh {
            crate::num::lemma_row_major_in_range(sw, sh, sx, sy);
            vstd::arithmetic::div_mod::lemma_fundamental_div_mod_converse(
                sy * sw + sx,
                sw,
                sy,
                sx,
            );
            let eval = eroded(wd, sx, sy);
            assert(wd2.src[sy * sw + sx] == eval);
            if wd.ker[b * kw + a] == 0 {
                crate::pixel::lemma_scale8_bounds(eval.0, 0);
            } else {
                crate::num::lemma_row_major_in_range(sw, sh, j, i);
                crate::pixel::lemma_scale8_bounds(wd.src[i * sw + j].0, 255);
                lemma_erode_upto_le(
                    wd,
                    sx,
                    sy,
                    kh as nat,
                    0,
                    (kw - 1 - a) as nat,
                    (kh - 1 - b) as nat,
                    L(v),
                );
                crate::pixel::lemma_scale8_bounds(eval.0, 255);
            }
        }
    }
    lemma_dilate_upto_le(wd2, j, i, kh as nat, 0, v);
}

/// Computes the dilated value at relative destination position `(j, i)`.
#[verifier::loop_isolation(false)]
fn dilate_at<P: Pixel>(src: &Image<P>, kernel: &KernelImage, ax: u32, ay: u32, j: u32, i: u32) -> (
    r: P)
    requires
        src.wf(),
        kernel.wf(),
    ensures
        r == dilated(window_of(*src, *kernel, ax as int, ay as int), j as int, i as int),
{
    let ghost wd = window_of(*src, *kernel, ax as int, ay as int);
    let kw = kernel.width;
    let kh = kernel.height;
    let mut m: P = P::default();
    let mut ky: u32 = 0;
    while ky < kh
        invariant
            ky <= kh,
            m == dilate_upto(wd, j as int, i as int, ky as nat, 0),
        decreases kh - ky,
    {
        let mut kx: u32 = 0;
        while kx < kw
            invariant
                kx <= kw,
                ky < kh,
                m == dilate_upto(wd, j as int, i as int, ky as nat, kx as nat),
            decreases kw - kx,
        {
            let k: u8 = kernel.pixel(kx, ky);
            let sx: i64 = j as i64 + kx as i64 - ax as i64;
            let sy: i64 = i as i64 + ky as i64 - ay as i64;
            if 0 <= sx && sx < src.width as i64 && 0 <= sy && sy < src.height as i64 {
                let p = src.pixel(sx as u32, sy as u32);
                m = m.max(p.scale(k));
            }
            kx = kx + 1;
        }
        ky = ky + 1;
    }
    m
}

/// Configuration options regarding behavior of dilation.
pub struct Dilation<'src, 'ker, P: Pixel> {
    /// A reference to the image to dilate.
    pub src: &'src Image<P>,
    /// A reference to the kernel image.
    pub kernel: &'ker KernelImage,
    /// The position to place the dilated image.
    pub position: (u32, u32),
    /// The anchor within the kernel, as a pair of fractions of the kernel
    /// dimensions; `(1/2, 1/2)` anchors to the center of the kernel.
    pub anchor: (Frac, Frac),
}

impl<'src, 'ker, P: Pixel> Dilation<'src, 'ker, P> {
    /// Creates a new [`Dilation`] with default settings: position `(0, 0)`
    /// and a centered anchor.
    pub fn new(src: &'src Image<P>, kernel: &'ker KernelImage) -> (d: Self)
        ensures
            d.src == src,
            d.kernel == kernel,
            d.position == (0u32, 0u32),
            d.anchor == (Frac { num: 1u64, den: 2u64 }, Frac { num: 1u64, den: 2u64 }),
    {
        Self { src, kernel, position: (0, 0), anchor: (Frac::half(), Frac::half()) }
    }

    /// Sets the position to place the dilated image.
    pub fn with_position(self, x: u32, y: u32) -> (d: Self)
        ensures
            d.src == self.src,
            d.kernel == self.kernel,
            d.position == (x, y),
            d.anchor == self.anchor,
    {
        Self { position: (x, y), ..self }
    }

    /// Sets the anchor for the dilation; `(1/2, 1/2)` anchors to the center
    /// of the kernel.
    pub fn with_anchor(self, x: Frac, y: Frac) -> (d: Self)
        requires
            x.wf(),
            y.wf(),
        ensures
            d.src == self.src,
            d.kernel == self.kernel,
            d.position == self.position,
            d.anchor == (x, y),
    {
        Self { anchor: (x, y), ..self }
    }

    /// The window this configuration samples, given its anchor offsets.
    pub open spec fn spec_window(self) -> Window<P> {
        window_of(
            *self.src,
            *self.kernel,
            self.anchor.0.spec_floor_scale(self.kernel.width as int),
            self.anchor.1.spec_floor_scale(self.kernel.height as int),
        )
    }

    /// Paints the dilation of the source into the destination box
    /// `[position, position + source_dimensions)`: every destination pixel of
    /// the box becomes the component-wise maximum of the weighted samples
    /// under the kernel footprint; pixels outside the box are untouched.
    #[verifier::loop_isolation(false)]
    pub fn draw(&self, image: &mut Image<P>)
        requires
            old(image).wf(),
            self.src.wf(),
            self.kernel.wf(),
            self.anchor.0.wf(),
            self.anchor.1.wf(),
            self.position.0 as int + self.src.width as int <= old(image).width as int,
            self.position.1 as int + self.src.height as int <= old(image).height as int,
        ensures
            final(image).wf(),
            final(image).width == old(image).width,
            final(image).height == old(image).height,
            forall|x: int, y: int|
                old(image).in_bounds(x, y) ==> #[trigger] final(image).at(x, y) == (if self.position.0
                    <= x < self.position.0 + self.src.width && self.position.1 <= y
                    < self.position.1 + self.src.height {
                    dilated(
                        self.spec_window(),
                        x - self.position.0 as int,
                        y - self.position.1 as int,
                    )
                } else {
                    old(image).at(x, y)
                }),
    {
        let ax = anchor_offset(self.kernel.width, self.anchor.0);
        let ay = anchor_offset(self.kernel.height, self.anchor.1);
        let ghost wd = self.spec_window();
        let w = self.src.width;
        let h = self.src.height;
        let x1 = self.position.0;
        let y1 = self.position.1;
        let mut i: u32 = 0;
        while i < h
            invariant
                i <= h,
                image.wf(),
                image.width == old(image).width,
                image.height == old(image).height,
                forall|x: int, y: int|
                    old(image).in_bounds(x, y) ==> #[trigger] image.at(x, y) == (if x1 <= x < x1
                        + w && y1 <= y < y1 + i {
                        dilated(wd, x - x1 as int, y - y1 as int)
                    } else {
                        old(image).at(x, y)
                    }),
            decreases h - i,
        {
            let mut j: u32 = 0;
            while j < w
                invariant
                    j <= w,
                    i < h,
                    image.wf(),
                    image.width == old(image).width,
                    image.height == old(image).height,
                    forall|x: int, y: int|
                        old(image).in_bounds(x, y) ==> #[trigger] image.at(x, y) == (if (x1 <= x
                            < x1 + w && y1 <= y < y1 + i) || (y == y1 + i && x1 <= x < x1 + j) {
                            dilated(wd, x - x1 as int, y - y1 as int)
                        } else {
                            old(image).at(x, y)
                        }),
                decreases w - j,
            {
                let v = dilate_at(self.src, self.kernel, ax, ay, j, i);
                let ghost im0 = *image;
                image.set_pixel(x1 + j, y1 + i, v);
                proof {
                    crate::image::lemma_update_preserves_others(
                        im0,
                        *image,
                        x1 as int + j,
                        y1 as int + i,
                        v,
                    );
                    assert forall|x: int, y: int| old(image).in_bounds(x, y) implies #[trigger] image.at(
                        x,
                        y,
                    ) == (if (x1 <= x < x1 + w && y1 <= y < y1 + i) || (y == y1 + i && x1 <= x
                        < x1 + j + 1) {
                        dilated(wd, x - x1 as int, y - y1 as int)
                    } else {
                        old(image).at(x, y)
                    }) by {
                        assert(im0.at(x, y) == (if (x1 <= x < x1 + w && y1 <= y < y1 + i) || (y
                            == y1 + i && x1 <= x < x1 + j) {
                            dilated(wd, x - x1 as int, y - y1 as int)
                        } else {
                            old(image).at(x, y)
                        }));
                    }
                }
                j = j + 1;
            }
            i = i + 1;
        }
    }
}

/// Configuration options regarding behavior of erosion.
pub struct Erosion<'src, 'ker, P: Pixel> {
    /// A reference to the image to erode.
    pub src: &'src Image<P>,
    /// A reference to the kernel image.
    pub kernel: &'ker KernelImage,
    /// The position to place the eroded image.
    pub position: (u32, u32),
    /// The anchor within the kernel, as a pair of fractions of the kernel
    /// dimensions; `(1/2, 1/2)` anchors to the center of the kernel.
    pub anchor: (Frac, Frac),
}

impl<'src, 'ker, P: Pixel> Erosion<'src, 'ker, P> {
    /// Creates a new [`Erosion`] with default settings: position `(0, 0)`
    /// and a centered anchor.
    pub fn new(src: &'src Image<P>, kernel: &'ker KernelImage) -> (d: Self)
        ensures
            d.src == src,
            d.kernel == kernel,
            d.position == (0u32, 0u32),
            d.anchor == (Frac { num: 1u64, den: 2u64 }, Frac { num: 1u64, den: 2u64 }),
    {
        Self { src, kernel, position: (0, 0), anchor: (Frac::half(), Frac::half()) }
    }

    /// Sets the position to place the eroded image.
    pub fn with_position(self, x: u32, y: u32) -> (d: Self)
        ensures
            d.src == self.src,
            d.kernel == self.kernel,
            d.position == (x, y),
            d.anchor == self.anchor,
    {
        Self { position: (x, y), ..self }
    }

    /// Sets the anchor for the erosion; `(1/2, 1/2)` anchors to the center
    /// of the kernel.
    pub fn with_anchor(self, x: Frac, y: Frac) -> (d: Self)
        requires
            x.wf(),
            y.wf(),
        ensures
            d.src == self.src,
            d.kernel == self.kernel,
            d.position == self.position,
            d.anchor == (x, y),
    {
        Self { anchor: (x, y), ..self }
    }

    /// The window this configuration samples, given its anchor offsets.
    pub open spec fn spec_window(self) -> Window<P> {
        window_of(
            *self.src,
            *self.kernel,
            self.anchor.0.spec_floor_scale(self.kernel.width as int),
            self.anchor.1.spec_floor_scale(self.kernel.height as int),
        )
    }

    /// Paints the erosion of the source into the destination box
    /// `[position, position + source_dimensions)`: every destination pixel of
    /// the box becomes the component-wise minimum of the weighted samples
    /// under the positive-weight kernel cells; pixels outside the box are
    /// untouched.
    #[verifier::loop_isolation(false)]
    pub fn draw(&self, image: &mut Image<P>)
        requires
            old(image).wf(),
            self.src.wf(),
            self.kernel.wf(),
            self.anchor.0.wf(),
            self.anchor.1.wf(),
            self.position.0 as int + self.src.width as int <= old(image).width as int,
            self.position.1 as int + self.src.height as int <= old(image).height as int,
        ensures
            final(image).wf(),
            final(image).width == old(image).width,
            final(image).height == old(image).height,
            forall|x: int, y: int|
                old(image).in_bounds(x, y) ==> #[trigger] final(image).at(x, y) == (if self.position.0
                    <= x < self.position.0 + self.src.width && self.position.1 <= y
                    < self.position.1 + self.src.height {
                    eroded(
                        self.spec_window(),
                        x - self.position.0 as int,
                        y - self.position.1 as int,
                    )
                } else {
                    old(image).at(x, y)
                }),
    {
        let ax = anchor_offset(self.kernel.width, self.anchor.0);
        let ay = anchor_offset(self.kernel.height, self.anchor.1);
        let ghost wd = self.spec_window();
        let w = self.src.width;
        let h = self.src.height;
        let x1 = self.position.0;
        let y1 = self.position.1;
        let mut i: u32 = 0;
        while i < h
            invariant
                i <= h,
                image.wf(),
                image.width == old(image).width,
                image.height == old(image).height,
                forall|x: int, y: int|
                    old(image).in_bounds(x, y) ==> #[trigger] image.at(x, y) == (if x1 <= x < x1
                        + w && y1 <= y < y1 + i {
                        eroded(wd, x - x1 as int, y - y1 as int)
                    } else {
                        old(image).at(x, y)
                    }),
            decreases h - i,
        {
            let mut j: u32 = 0;
            while j < w
                invariant
                    j <= w,
                    i < h,
                    image.wf(),
                    image.width == old(image).width,
                    image.height == old(image).height,
                    forall|x: int, y: int|
                        old(image).in_bounds(x, y) ==> #[trigger] image.at(x, y) == (if (x1 <= x
                            < x1 + w && y1 <= y < y1 + i) || (y == y1 + i && x1 <= x < x1 + j) {
                            eroded(wd, x - x1 as int, y - y1 as int)
                        } else {
                            old(image).at(x, y)
                        }),
                decreases w - j,
            {
                let v = erode_at(self.src, self.kernel, ax, ay, j, i);
                let ghost im0 = *image;
                image.set_pixel(x1 + j, y1 + i, v);
                proof {
                    crate::image::lemma_update_preserves_others(
                        im0,
                        *image,
                        x1 as int + j,
                        y1 as int + i,
                        v,
                    );
                    assert forall|x: int, y: int| old(image).in_bounds(x, y) implies #[trigger] image.at(
                        x,
                        y,
                    ) == (if (x1 <= x < x1 + w && y1 <= y < y1 + i) || (y == y1 + i && x1 <= x
                        < x1 + j + 1) {
                        eroded(wd, x - x1 as int, y - y1 as int)
                    } else {
                        old(image).at(x, y)
                    }) by {
                        assert(im0.at(x, y) == (if (x1 <= x < x1 + w && y1 <= y < y1 + i) || (y
                            == y1 + i && x1 <= x < x1 + j) {
                            eroded(wd, x - x1 as int, y - y1 as int)
                        } else {
                            old(image).at(x, y)
                        }));
                    }
                }
                j = j + 1;
            }
            i = i + 1;
        }
    }
}

/// Computes the eroded value at relative destination position `(j, i)`.
#[verifier::loop_isolation(false)]
fn erode_at<P: Pixel>(src: &Image<P>, kernel: &KernelImage, ax: u32, ay: u32, j: u32, i: u32) -> (
    r: P)
    requires
        src.wf(),
        kernel.wf(),
    ensures
        r == eroded(window_of(*src, *kernel, ax as int, ay as int), j as int, i as int),
{
    let ghost wd = window_of(*src, *kernel, ax as int, ay as int);
    let kw = kernel.width;
    let kh = kernel.height;
    let mut m: P = P::default().complement();
    let mut ky: u32 = 0;
    while ky < kh
        invariant
            ky <= kh,
            m == erode_upto(wd, j as int, i as int, ky as nat, 0),
        decreases kh - ky,
    {
        let mut kx: u32 = 0;
        while kx < kw
            invariant
                kx <= kw,
                ky < kh,
                m == erode_upto(wd, j as int, i as int, ky as nat, kx as nat),
            decreases kw - kx,
        {
            let k: u8 = kernel.pixel(kx, ky);
            if k > 0 {
                let sx: i64 = j as i64 + kx as i64 - ax as i64;
                let sy: i64 = i as i64 + ky as i64 - ay as i64;
                if 0 <= sx && sx < src.width as i64 && 0 <= sy && sy < src.height as i64 {
                    let p = src.pixel(sx as u32, sy as u32);
                    m = m.min(p.scale(k));
                }
            }
            kx = kx + 1;
        }
        ky = ky + 1;
    }
    m
}

} // verus!
