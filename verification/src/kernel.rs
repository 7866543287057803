//! The structuring-element ("kernel") image: a rectangular mask of
//! fixed-point weights, and generators for the four useful kernel shapes.
//!
//! A weight `w` stands for the real factor `w / 255`: `255` is a fully set
//! cell and `0` an empty one.  The ellipse generators perform a
//! midpoint-ellipse rasterization in exact integer arithmetic: the boundary
//! `y = b * sqrt(1 - x^2 / a^2)` with semi-axes `a = W/2`, `b = H/2` is
//! evaluated as `floor(y) = isqrt(H^2 * (W^2 - 4 x^2)) / (2 W)`, and the
//! anti-aliased variant additionally writes the fractional remainder of the
//! boundary, quantized to `0..=254`, one cell outward from each filled span.

use vstd::prelude::*;
use vstd::pervasive::VecAdditionalExecFns;

use crate::image::Image;
use crate::num::{
    isqrt, isqrt_spec, lemma_isqrt_bounds, lemma_row_major_in_range, lemma_row_major_injective,
};
use crate::pixel::{BitPixel, L};

verus! {

/// Useful kernel shapes for morphology operations.
#[derive(Copy, Clone, Debug)]
pub enum KernelShape {
    /// Rectangular kernel, completely filled.
    Rect,
    /// Cross shaped kernel, a pair of centered horizontal and vertical lines.
    Cross,
    /// Ellipse shaped kernel, without anti alias.
    Ellipse,
    /// Ellipse shaped kernel, with anti alias.
    EllipseAa,
}

/// A float-weighted rectangular mask, stored as fixed-point weights over
/// `255` in row-major order.
pub struct KernelImage {
    /// The weights, row by row; holds exactly `width * height` entries.
    pub data: Vec<u8>,
    /// Width in cells; always positive.
    pub width: u32,
    /// Height in cells; always positive.
    pub height: u32,
}

/// A sequence of `n` zero weights.
pub open spec fn zero_weights(n: int) -> Seq<u8> {
    Seq::new(n as nat, |i: int| 0u8)
}

/// Writes `v` at `(x, y)` of a `w * h` row-major grid; a write outside the
/// grid is silently dropped.
pub open spec fn set_checked(s: Seq<u8>, w: int, h: int, x: int, y: int, v: u8) -> Seq<u8> {
    if 0 <= x < w && 0 <= y < h {
        s.update(y * w + x, v)
    } else {
        s
    }
}

/// What a checked write does to every cell of the grid: the addressed cell
/// takes the new value when it is inside, and every other cell is unchanged.
pub proof fn lemma_set_checked(s: Seq<u8>, w: int, h: int, x: int, y: int, v: u8)
    requires
        w >= 1,
        h >= 1,
        s.len() == w * h,
    ensures
        set_checked(s, w, h, x, y, v).len() == s.len(),
        forall|a: int, b: int|
            0 <= a < w && 0 <= b < h ==> #[trigger] set_checked(s, w, h, x, y, v)[b * w + a] == (
            if a == x && b == y {
                v
            } else {
                s[b * w + a]
            }),
{
    let s2 = set_checked(s, w, h, x, y, v);
    if 0 <= x < w && 0 <= y < h {
        lemma_row_major_in_range(w, h, x, y);
        assert forall|a: int, b: int| 0 <= a < w && 0 <= b < h implies #[trigger] s2[b * w + a]
            == (if a == x && b == y {
            v
        } else {
            s[b * w + a]
        }) by {
            lemma_row_major_in_range(w, h, a, b);
            if b * w + a == y * w + x {
                lemma_row_major_injective(w, x, y, a, b);
            }
        }
    } else {
        assert forall|a: int, b: int| 0 <= a < w && 0 <= b < h implies #[trigger] s2[b * w + a]
            == (if a == x && b == y {
            v
        } else {
            s[b * w + a]
        }) by {
            lemma_row_major_in_range(w, h, a, b);
        }
    }
}

/// The length of a semi-axis doubled: the full kernel extent, shrunk by one
/// cell on each side for the anti-aliased variant to reserve a soft border.
pub open spec fn ell_axis(d: int, aa: bool) -> int {
    if aa {
        d - 2
    } else {
        d
    }
}

/// The rasterized boundary of the ellipse with semi-axes `wa / 2` and
/// `ha / 2`: `floor((ha / 2) * sqrt(1 - x^2 / (wa / 2)^2))`.
pub open spec fn ell_boundary(wa: int, ha: int, x: int) -> int {
    isqrt_spec(ha * ha * (wa * wa - 4 * x * x)) / (2 * wa)
}

/// The fractional remainder of the ellipse boundary at `x`, quantized over
/// `255`: `floor(255 y) - 255 floor(y)` for the exact boundary `y`.
pub open spec fn ell_fract255(wa: int, ha: int, x: int) -> int {
    isqrt_spec(65025 * (ha * ha * (wa * wa - 4 * x * x))) / (2 * wa) - 255 * ell_boundary(
        wa,
        ha,
        x,
    )
}

/// The last column of the first sweep:
/// `round((wa / 2)^2 / sqrt((wa / 2)^2 + (ha / 2)^2))`.
pub open spec fn ell_quarter(wa: int, ha: int) -> int {
    (isqrt_spec((wa * wa) * (wa * wa) / (wa * wa + ha * ha)) + 1) / 2
}

/// Writes `v` at the four positions mirror-symmetric to `(x, y)` about the
/// kernel center, adjusted by the parity correctors, unless the positive
/// corner already falls outside the kernel.
pub open spec fn sym4(s: Seq<u8>, w: int, h: int, x: int, y: int, v: u8) -> Seq<u8> {
    let ox = w / 2;
    let oy = h / 2;
    let px = 1 - w % 2;
    let py = 1 - h % 2;
    if ox + x >= w || oy + y >= h {
        s
    } else {
        set_checked(
            set_checked(
                set_checked(set_checked(s, w, h, ox + x, oy + y, v), w, h, ox + x, oy - py - y, v),
                w,
                h,
                ox - px - x,
                oy + y,
                v,
            ),
            w,
            h,
            ox - px - x,
            oy - py - y,
            v,
        )
    }
}

/// The first `t` cells of a horizontal span fill: columns
/// `ox - px - x` through `ox - px - x + t - 1` of the two rows
/// mirror-symmetric about the kernel center, set to full weight.
pub open spec fn span_upto(s: Seq<u8>, w: int, h: int, x: int, y: int, t: nat) -> Seq<u8>
    decreases t,
{
    if t == 0 {
        s
    } else {
        let prev = span_upto(s, w, h, x, y, (t - 1) as nat);
        let ox = w / 2;
        let oy = h / 2;
        let px = 1 - w % 2;
        let py = 1 - h % 2;
        let k = ox - px - x + t - 1;
        set_checked(set_checked(prev, w, h, k, oy + y, 255u8), w, h, k, oy - py - y, 255u8)
    }
}

/// A full horizontal span at boundary offset `(x, y)`: columns
/// `ox - px - x` through `ox + x` of the two mirror-symmetric rows, set to
/// full weight; writes outside the kernel are dropped.
pub open spec fn span_fill(s: Seq<u8>, w: int, h: int, x: int, y: int) -> Seq<u8> {
    let px = 1 - w % 2;
    span_upto(s, w, h, x, y, (px + 2 * x + 1) as nat)
}

/// One step of the column sweep: at column offset `x`, the anti-aliased
/// fraction one cell above the boundary (when enabled), then the filled span
/// at the boundary row.
pub open spec fn sweep_x_step(s: Seq<u8>, w: int, h: int, aa: bool, x: int) -> Seq<u8> {
    let wa = ell_axis(w, aa);
    let ha = ell_axis(h, aa);
    let yb = ell_boundary(wa, ha, x);
    let s1 = if aa {
        sym4(s, w, h, x, yb + 1, ell_fract255(wa, ha, x) as u8)
    } else {
        s
    };
    span_fill(s1, w, h, x, yb)
}

/// The first `t` steps of the column sweep (`x = 0, 1, ..., t - 1`).
pub open spec fn sweep_x_upto(s: Seq<u8>, w: int, h: int, aa: bool, t: nat) -> Seq<u8>
    decreases t,
{
    if t == 0 {
        s
    } else {
        sweep_x_step(sweep_x_upto(s, w, h, aa, (t - 1) as nat), w, h, aa, t - 1)
    }
}

/// One step of the row sweep: at row offset `y`, the anti-aliased fraction
/// one cell outward of the boundary (when enabled), then the filled span.
pub open spec fn sweep_y_step(s: Seq<u8>, w: int, h: int, aa: bool, y: int) -> Seq<u8> {
    let wa = ell_axis(w, aa);
    let ha = ell_axis(h, aa);
    let xb = ell_boundary(ha, wa, y);
    let s1 = if aa {
        sym4(s, w, h, xb + 1, y, ell_fract255(ha, wa, y) as u8)
    } else {
        s
    };
    span_fill(s1, w, h, xb, y)
}

/// The first `t` steps of the row sweep (`y = 0, 1, ..., t - 1`).
pub open spec fn sweep_y_upto(s: Seq<u8>, w: int, h: int, aa: bool, t: nat) -> Seq<u8>
    decreases t,
{
    if t == 0 {
        s
    } else {
        sweep_y_step(sweep_y_upto(s, w, h, aa, (t - 1) as nat), w, h, aa, t - 1)
    }
}

/// Both sweeps of the midpoint-ellipse rasterization applied to `s`.
pub open spec fn ellipse_pass(s: Seq<u8>, w: int, h: int, aa: bool) -> Seq<u8> {
    let wa = ell_axis(w, aa);
    let ha = ell_axis(h, aa);
    sweep_y_upto(
        sweep_x_upto(s, w, h, aa, (ell_quarter(wa, ha) + 1) as nat),
        w,
        h,
        aa,
        (ell_quarter(ha, wa) + 1) as nat,
    )
}

/// The weights of an ellipse kernel of the given dimensions.
pub open spec fn ellipse_weights(w: int, h: int, aa: bool) -> Seq<u8> {
    ellipse_pass(zero_weights(w * h), w, h, aa)
}

/// A grid that is mirror-symmetric about both its vertical and its
/// horizontal center line.
pub open spec fn sym_grid(s: Seq<u8>, w: int, h: int) -> bool {
    &&& s.len() == w * h
    &&& forall|x: int, y: int|
        0 <= x < w && 0 <= y < h ==> #[trigger] s[y * w + x] == s[y * w + (w - 1 - x)]
    &&& forall|x: int, y: int|
        0 <= x < w && 0 <= y < h ==> #[trigger] s[y * w + x] == s[(h - 1 - y) * w + x]
}

/// The integer square root is never negative.
proof fn lemma_isqrt_nonneg(n: int)
    ensures
        isqrt_spec(n) >= 0,
{
    if n > 0 {
        lemma_isqrt_bounds(n);
    }
}

/// The rasterized boundary is never negative.
proof fn lemma_boundary_nonneg(wa: int, ha: int, x: int)
    requires
        wa >= 1,
    ensures
        ell_boundary(wa, ha, x) >= 0,
{
    let n = ha * ha * (wa * wa - 4 * x * x);
    lemma_isqrt_nonneg(n);
    assert(isqrt_spec(n) / (2 * wa) >= 0) by (nonlinear_arith)
        requires isqrt_spec(n) >= 0, wa >= 1,
    ;
}

/// An all-zero grid is mirror-symmetric.
proof fn lemma_zero_sym(w: int, h: int)
    requires
        w >= 1,
        h >= 1,
    ensures
        sym_grid(zero_weights(w * h), w, h),
{
    let s = zero_weights(w * h);
    assert forall|x: int, y: int| 0 <= x < w && 0 <= y < h implies #[trigger] s[y * w + x] == s[y
        * w + (w - 1 - x)] by {
        lemma_row_major_in_range(w, h, x, y);
        lemma_row_major_in_range(w, h, w - 1 - x, y);
    }
    assert forall|x: int, y: int| 0 <= x < w && 0 <= y < h implies #[trigger] s[y * w + x] == s[(h
        - 1 - y) * w + x] by {
        lemma_row_major_in_range(w, h, x, y);
        lemma_row_major_in_range(w, h, x, h - 1 - y);
    }
}

/// For a kernel of odd dimensions, the four-way symmetric write preserves
/// grid symmetry.
proof fn lemma_sym4_sym(s: Seq<u8>, w: int, h: int, x: int, y: int, v: u8)
    requires
        sym_grid(s, w, h),
        w >= 1,
        h >= 1,
        w % 2 == 1,
        h % 2 == 1,
        x >= 0,
        y >= 0,
    ensures
        sym_grid(sym4(s, w, h, x, y, v), w, h),
{
    let ox = w / 2;
    let oy = h / 2;
    vstd::arithmetic::div_mod::lemma_fundamental_div_mod(w, 2);
    vstd::arithmetic::div_mod::lemma_fundamental_div_mod(h, 2);
    assert(w == 2 * ox + 1);
    assert(h == 2 * oy + 1);
    let r = sym4(s, w, h, x, y, v);
    if ox + x >= w || oy + y >= h {
    } else {
        let s1 = set_checked(s, w, h, ox + x, oy + y, v);
        let s2 = set_checked(s1, w, h, ox + x, oy - y, v);
        let s3 = set_checked(s2, w, h, ox - x, oy + y, v);
        lemma_set_checked(s, w, h, ox + x, oy + y, v);
        lemma_set_checked(s1, w, h, ox + x, oy - y, v);
        lemma_set_checked(s2, w, h, ox - x, oy + y, v);
        lemma_set_checked(s3, w, h, ox - x, oy - y, v);
        assert(r == set_checked(s3, w, h, ox - x, oy - y, v));
        assert forall|a: int, b: int| 0 <= a < w && 0 <= b < h implies #[trigger] r[b * w + a]
            == r[b * w + (w - 1 - a)] by {
            let a2 = w - 1 - a;
            assert(s[b * w + a] == s[b * w + a2]);
        }
        assert forall|a: int, b: int| 0 <= a < w && 0 <= b < h implies #[trigger] r[b * w + a]
            == r[(h - 1 - b) * w + a] by {
            let b2 = h - 1 - b;
            assert(s[b * w + a] == s[b2 * w + a]);
        }
    }
}

/// What a span fill does to every cell: the cells of the two mirror rows
/// whose column lies within the span take full weight, every other cell is
/// unchanged.
proof fn lemma_span_upto_pointwise(s: Seq<u8>, w: int, h: int, x: int, y: int, t: nat)
    requires
        w >= 1,
        h >= 1,
        s.len() == w * h,
    ensures
        span_upto(s, w, h, x, y, t).len() == s.len(),
        forall|a: int, b: int|
            0 <= a < w && 0 <= b < h ==> #[trigger] span_upto(s, w, h, x, y, t)[b * w + a] == (
            if w / 2 - (1 - w % 2) - x <= a < w / 2 - (1 - w % 2) - x + t && (b == h / 2 + y || b
                == h / 2 - (1 - h % 2) - y) {
                255u8
            } else {
                s[b * w + a]
            }),
    decreases t,
{
    if t == 0 {
    } else {
        lemma_span_upto_pointwise(s, w, h, x, y, (t - 1) as nat);
        let prev = span_upto(s, w, h, x, y, (t - 1) as nat);
        let ox = w / 2;
        let oy = h / 2;
        let px = 1 - w % 2;
        let py = 1 - h % 2;
        let k = ox - px - x + t - 1;
        let mid = set_checked(prev, w, h, k, oy + y, 255u8);
        lemma_set_checked(prev, w, h, k, oy + y, 255u8);
        lemma_set_checked(mid, w, h, k, oy - py - y, 255u8);
    }
}

/// For a kernel of odd dimensions, a span fill preserves grid symmetry.
proof fn lemma_span_fill_sym(s: Seq<u8>, w: int, h: int, x: int, y: int)
    requires
        sym_grid(s, w, h),
        w >= 1,
        h >= 1,
        w % 2 == 1,
        h % 2 == 1,
        x >= 0,
        y >= 0,
    ensures
        sym_grid(span_fill(s, w, h, x, y), w, h),
{
    let ox = w / 2;
    let oy = h / 2;
    vstd::arithmetic::div_mod::lemma_fundamental_div_mod(w, 2);
    vstd::arithmetic::div_mod::lemma_fundamental_div_mod(h, 2);
    assert(w == 2 * ox + 1);
    assert(h == 2 * oy + 1);
    let t = (2 * x + 1) as nat;
    lemma_span_upto_pointwise(s, w, h, x, y, t);
    let r = span_fill(s, w, h, x, y);
    assert forall|a: int, b: int| 0 <= a < w && 0 <= b < h implies #[trigger] r[b * w + a] == r[b
        * w + (w - 1 - a)] by {
        let a2 = w - 1 - a;
        assert(s[b * w + a] == s[b * w + a2]);
        assert(ox - x <= a < ox - x + t <==> ox - x <= a2 < ox - x + t);
    }
    assert forall|a: int, b: int| 0 <= a < w && 0 <= b < h implies #[trigger] r[b * w + a] == r[(h
        - 1 - b) * w + a] by {
        let b2 = h - 1 - b;
        assert(s[b * w + a] == s[b2 * w + a]);
        assert(b == oy + y || b == oy - y <==> b2 == oy + y || b2 == oy - y);
    }
}

/// For odd dimensions, every step of the column sweep preserves grid
/// symmetry.
proof fn lemma_sweep_x_upto_sym(s: Seq<u8>, w: int, h: int, aa: bool, t: nat)
    requires
        sym_grid(s, w, h),
        w >= 1,
        h >= 1,
        w % 2 == 1,
        h % 2 == 1,
        aa ==> w >= 3 && h >= 3,
    ensures
        sym_grid(sweep_x_upto(s, w, h, aa, t), w, h),
    decreases t,
{
    if t == 0 {
    } else {
        lemma_sweep_x_upto_sym(s, w, h, aa, (t - 1) as nat);
        let prev = sweep_x_upto(s, w, h, aa, (t - 1) as nat);
        let wa = ell_axis(w, aa);
        let ha = ell_axis(h, aa);
        let x = t - 1;
        let yb = ell_boundary(wa, ha, x);
        lemma_boundary_nonneg(wa, ha, x);
        if aa {
            let s1 = sym4(prev, w, h, x, yb + 1, ell_fract255(wa, ha, x) as u8);
            lemma_sym4_sym(prev, w, h, x, yb + 1, ell_fract255(wa, ha, x) as u8);
            lemma_span_fill_sym(s1, w, h, x, yb);
        } else {
            lemma_span_fill_sym(prev, w, h, x, yb);
        }
    }
}

/// For odd dimensions, every step of the row sweep preserves grid symmetry.
proof fn lemma_sweep_y_upto_sym(s: Seq<u8>, w: int, h: int, aa: bool, t: nat)
    requires
        sym_grid(s, w, h),
        w >= 1,
        h >= 1,
        w % 2 == 1,
        h % 2 == 1,
        aa ==> w >= 3 && h >= 3,
    ensures
        sym_grid(sweep_y_upto(s, w, h, aa, t), w, h),
    decreases t,
{
    if t == 0 {
    } else {
        lemma_sweep_y_upto_sym(s, w, h, aa, (t - 1) as nat);
        let prev = sweep_y_upto(s, w, h, aa, (t - 1) as nat);
        let wa = ell_axis(w, aa);
        let ha = ell_axis(h, aa);
        let y = t - 1;
        let xb = ell_boundary(ha, wa, y);
        lemma_boundary_nonneg(ha, wa, y);
        if aa {
            let s1 = sym4(prev, w, h, xb + 1, y, ell_fract255(ha, wa, y) as u8);
            lemma_sym4_sym(prev, w, h, xb + 1, y, ell_fract255(ha, wa, y) as u8);
            lemma_span_fill_sym(s1, w, h, xb, y);
        } else {
            lemma_span_fill_sym(prev, w, h, xb, y);
        }
    }
}

/// An ellipse kernel with odd width and height is mirror-symmetric: the
/// weight at `(x, y)` equals the weight at `(w - 1 - x, y)` and the weight
/// at `(x, h - 1 - y)`, for both the hard-edged and the anti-aliased
/// variant.
pub proof fn lemma_ellipse_kernel_symmetric(w: int, h: int, aa: bool)
    requires
        w >= 1,
        h >= 1,
        w % 2 == 1,
        h % 2 == 1,
        aa ==> w >= 3 && h >= 3,
    ensures
        ellipse_weights(w, h, aa).len() == w * h,
        forall|x: int, y: int|
            0 <= x < w && 0 <= y < h ==> #[trigger] ellipse_weights(w, h, aa)[y * w + x]
                == ellipse_weights(w, h, aa)[y * w + (w - 1 - x)],
        forall|x: int, y: int|
            0 <= x < w && 0 <= y < h ==> #[trigger] ellipse_weights(w, h, aa)[y * w + x]
                == ellipse_weights(w, h, aa)[(h - 1 - y) * w + x],
{
    lemma_zero_sym(w, h);
    let wa = ell_axis(w, aa);
    let ha = ell_axis(h, aa);
    lemma_sweep_x_upto_sym(
        zero_weights(w * h),
        w,
        h,
        aa,
        (ell_quarter(wa, ha) + 1) as nat,
    );
    lemma_sweep_y_upto_sym(
        sweep_x_upto(zero_weights(w * h), w, h, aa, (ell_quarter(wa, ha) + 1) as nat),
        w,
        h,
        aa,
        (ell_quarter(ha, wa) + 1) as nat,
    );
}

/// The sweep never runs past half the axis extent: `2 * quarter <= wa`.
proof fn lemma_quarter_bound(wa: int, ha: int)
    requires
        wa >= 1,
        ha >= 1,
    ensures
        0 <= ell_quarter(wa, ha),
        2 * ell_quarter(wa, ha) <= wa,
{
    let w2 = wa * wa;
    let w4 = w2 * w2;
    let d = w2 + ha * ha;
    assert(w2 >= 1 && d > w2 && w4 >= 0 && w4 < w2 * d) by (nonlinear_arith)
        requires wa >= 1, ha >= 1, w2 == wa * wa, w4 == w2 * w2, d == w2 + ha * ha,
    ;
    crate::num::lemma_div_below(w4, w2, d);
    assert(w4 / d >= 0) by (nonlinear_arith)
        requires w4 >= 0, d >= 1,
    ;
    let t = isqrt_spec(w4 / d);
    lemma_isqrt_bounds(w4 / d);
    if t >= wa {
        assert(wa * wa <= t * t) by (nonlinear_arith)
            requires 1 <= wa, wa <= t,
        ;
    }
    assert(t < wa);
    assert(2 * ((t + 1) / 2) <= t + 1 && (t + 1) / 2 >= 0) by (nonlinear_arith)
        requires t >= 0,
    ;
}

/// Computes the number of sweep steps for the axis pair `(wa, ha)`:
/// `round((wa / 2)^2 / sqrt((wa / 2)^2 + (ha / 2)^2))` in exact integer
/// arithmetic.
fn quarter_steps(wa: u32, ha: u32) -> (q: u32)
    requires
        wa >= 1,
        ha >= 1,
    ensures
        q as int == ell_quarter(wa as int, ha as int),
        2 * (q as int) <= wa as int,
{
    let wa1: u128 = wa as u128;
    let ha1: u128 = ha as u128;
    proof {
        assert((wa1 as int) * (wa1 as int) < 0x1_0000_0000_0000_0000 && (ha1 as int) * (
        ha1 as int) < 0x1_0000_0000_0000_0000 && (wa1 as int) * (wa1 as int) >= 1 && (
        ha1 as int) * (ha1 as int) >= 1) by (nonlinear_arith)
            requires 1 <= (wa1 as int) < 0x1_0000_0000, 1 <= (ha1 as int) < 0x1_0000_0000,
        ;
    }
    let w2: u128 = wa1 * wa1;
    let h2: u128 = ha1 * ha1;
    let d: u128 = w2 + h2;
    proof {
        assert((w2 as int) * (w2 as int) < 0x1_0000_0000_0000_0000_0000_0000_0000_0000int)
            by (nonlinear_arith)
            requires (w2 as int) < 0x1_0000_0000_0000_0000,
        ;
    }
    let w4: u128 = w2 * w2;
    proof {
        assert((w4 as int) < (w2 as int) * (d as int)) by (nonlinear_arith)
            requires
                w4 == (w2 as int) * (w2 as int),
                d as int > w2 as int,
                w2 >= 1,
        ;
        crate::num::lemma_div_below(w4 as int, w2 as int, d as int);
        assert((w4 / d) as int >= 0);
        lemma_quarter_bound(wa as int, ha as int);
    }
    let t: u128 = isqrt(w4 / d);
    proof {
        lemma_isqrt_bounds((w4 / d) as int);
        if (t as int) >= wa as int {
            assert((wa as int) * (wa as int) <= (t as int) * (t as int)) by (nonlinear_arith)
                requires 1 <= wa as int, wa as int <= t as int,
            ;
        }
        assert((t as int) < wa as int);
    }
    ((t + 1) / 2) as u32
}

/// Computes the rasterized boundary at offset `x` of the ellipse with axis
/// extents `(wa, ha)`, and the quantized fractional remainder of the exact
/// boundary.
fn sweep_values(wa: u32, ha: u32, x: u32) -> (r: (u32, u8))
    requires
        wa >= 1,
        ha >= 1,
        (wa as int) * (ha as int) <= u32::MAX as int,
        2 * (x as int) <= wa as int,
    ensures
        r.0 as int == ell_boundary(wa as int, ha as int, x as int),
        r.1 as int == ell_fract255(wa as int, ha as int, x as int),
        2 * (r.0 as int) <= ha as int,
    {
    let wa1: u128 = wa as u128;
    let ha1: u128 = ha as u128;
    let x1: u128 = x as u128;
    proof {
        assert((wa1 as int) * (wa1 as int) < 0x1_0000_0000_0000_0000 && (ha1 as int) * (
        ha1 as int) < 0x1_0000_0000_0000_0000 && 4 * (x1 as int) * (x1 as int) <= (
        wa1 as int) * (wa1 as int)) by (nonlinear_arith)
            requires
                (wa1 as int) < 0x1_0000_0000,
                (ha1 as int) < 0x1_0000_0000,
                2 * (x1 as int) <= wa1 as int,
        ;
    }
    let w2: u128 = wa1 * wa1;
    let h2: u128 = ha1 * ha1;
    let s: u128 = w2 - 4 * x1 * x1;
    proof {
        assert((h2 as int) * (s as int) <= 0xFFFF_FFFF_FFFF_FFFF) by (nonlinear_arith)
            requires
                (s as int) <= (w2 as int),
                w2 == (wa1 as int) * (wa1 as int),
                h2 == (ha1 as int) * (ha1 as int),
                0 <= (wa1 as int) * (ha1 as int) <= 0xFFFF_FFFF,
                s >= 0,
                h2 >= 0,
        ;
    }
    let n: u128 = h2 * s;
    let t1: u128 = isqrt(n);
    let dv: u128 = 2 * wa1;
    let yb: u128 = t1 / dv;
    proof {
        lemma_boundary_bound(wa as int, ha as int, x as int);
        assert(n as int == (ha as int) * (ha as int) * ((wa as int) * (wa as int) - 4 * (
        x as int) * (x as int)));
        assert(yb as int == ell_boundary(wa as int, ha as int, x as int));
    }
    let t255: u128 = isqrt(65025 * n);
    proof {
        crate::num::lemma_isqrt_scale255(n as int);
        assert(65025 * (n as int) == (65025 * n) as int);
        crate::num::lemma_scaled_floor_fract(t1 as int, t255 as int, dv as int);
        assert((t255 / dv) as int >= 255 * (yb as int)) by (nonlinear_arith)
            requires
                (t255 / dv) as int - 255 * ((t1 / dv) as int) >= 0,
                yb == t1 / dv,
        ;
    }
    let e: u128 = t255 / dv - 255 * yb;
    (yb as u32, e as u8)
}

/// The rasterized boundary stays within half the other axis extent.
proof fn lemma_boundary_bound(wa: int, ha: int, x: int)
    requires
        wa >= 1,
        ha >= 1,
        0 <= x,
        4 * x * x <= wa * wa,
    ensures
        0 <= ell_boundary(wa, ha, x),
        2 * ell_boundary(wa, ha, x) <= ha,
{
    let s = wa * wa - 4 * x * x;
    let n = ha * ha * s;
    assert(0 <= n && n <= (ha * wa) * (ha * wa)) by (nonlinear_arith)
        requires wa >= 1, ha >= 1, 0 <= s, s <= wa * wa, n == ha * ha * s,
    ;
    let t = isqrt_spec(n);
    lemma_isqrt_bounds(n);
    if t > ha * wa {
        assert((ha * wa) * (ha * wa) < t * t) by (nonlinear_arith)
            requires 0 <= ha * wa, ha * wa < t,
        ;
    }
    assert(t <= ha * wa);
    let yb = t / (2 * wa);
    assert(yb >= 0 && (2 * wa) * yb <= t) by (nonlinear_arith)
        requires t >= 0, wa >= 1, yb == t / (2 * wa),
    ;
    assert(2 * yb <= ha) by (nonlinear_arith)
        requires wa >= 1, (2 * wa) * yb <= ha * wa, yb >= 0,
    ;
}

impl KernelImage {
    /// The container invariant: positive dimensions and a backing vector of
    /// exactly `width * height` weights.
    pub open spec fn wf(self) -> bool {
        &&& self.width >= 1
        &&& self.height >= 1
        &&& self.data@.len() == (self.width as int) * (self.height as int)
    }

    /// The weight stored at column `x` of row `y`.
    pub open spec fn at(self, x: int, y: int) -> u8 {
        self.data@[y * (self.width as int) + x]
    }

    /// Whether `(x, y)` lies inside the kernel.
    pub open spec fn in_bounds(self, x: int, y: int) -> bool {
        0 <= x < self.width && 0 <= y < self.height
    }

    /// Creates an empty kernel image: every weight zero.
    pub fn new(width: u32, height: u32) -> (k: Self)
        requires
            width >= 1,
            height >= 1,
            (width as int) * (height as int) <= u32::MAX as int,
        ensures
            k.wf(),
            k.width == width,
            k.height == height,
            k.data@ == zero_weights((width as int) * (height as int)),
    {
        let n: u32 = width * height;
        let mut data: Vec<u8> = Vec::new();
        let mut i: u32 = 0;
        while i < n
            invariant
                i <= n,
                data@.len() == i,
                forall|j: int| 0 <= j < i ==> data@[j] == 0u8,
            decreases n - i,
        {
            data.push(0u8);
            i = i + 1;
        }
        proof {
            assert(data@ =~= zero_weights(n as int));
        }
        KernelImage { data, width, height }
    }

    /// Returns the dimensions of the kernel.
    pub fn dimensions(&self) -> (d: (u32, u32))
        ensures
            d == (self.width, self.height),
    {
        (self.width, self.height)
    }

    /// Returns the weight at the given coordinates, but only if they lie
    /// inside the kernel.
    pub fn get_pixel(&self, x: u32, y: u32) -> (r: Option<u8>)
        requires
            self.wf(),
        ensures
            r is Some <==> self.in_bounds(x as int, y as int),
            self.in_bounds(x as int, y as int) ==> r == Some(self.at(x as int, y as int)),
    {
        if x < self.width && y < self.height {
            let n = self.data.len();
            proof {
                lemma_row_major_in_range(
                    self.width as int,
                    self.height as int,
                    x as int,
                    y as int,
                );
            }
            let idx: usize = y as usize * self.width as usize + x as usize;
            Some(self.data[idx])
        } else {
            None
        }
    }

    /// Returns the weight at the given coordinates, which must lie inside the
    /// kernel.
    pub fn pixel(&self, x: u32, y: u32) -> (r: u8)
        requires
            self.wf(),
            self.in_bounds(x as int, y as int),
        ensures
            r == self.at(x as int, y as int),
    {
        let n = self.data.len();
        proof {
            lemma_row_major_in_range(self.width as int, self.height as int, x as int, y as int);
        }
        let idx: usize = y as usize * self.width as usize + x as usize;
        self.data[idx]
    }

    /// Returns a mutable reference to the weight at the given coordinates,
    /// which must lie inside the kernel.
    pub fn pixel_mut(&mut self, x: u32, y: u32) -> (r: &mut u8)
        requires
            old(self).wf(),
            old(self).in_bounds(x as int, y as int),
        ensures
            *r == old(self).at(x as int, y as int),
            final(self).width == old(self).width,
            final(self).height == old(self).height,
            final(self).data@ == old(self).data@.update(
                (y as int) * (old(self).width as int) + x as int,
                *final(r),
            ),
    {
        let n = self.data.len();
        proof {
            lemma_row_major_in_range(self.width as int, self.height as int, x as int, y as int);
        }
        let idx: usize = y as usize * self.width as usize + x as usize;
        &mut self.data[idx]
    }

    /// Writes `v` at `(x, y)` when those coordinates lie inside the kernel,
    /// and silently drops the write otherwise.
    fn set_weight_checked(&mut self, x: i64, y: i64, v: u8)
        requires
            old(self).wf(),
        ensures
            final(self).wf(),
            final(self).width == old(self).width,
            final(self).height == old(self).height,
            final(self).data@ == set_checked(
                old(self).data@,
                old(self).width as int,
                old(self).height as int,
                x as int,
                y as int,
                v,
            ),
    {
        if 0 <= x && x < self.width as i64 && 0 <= y && y < self.height as i64 {
            let n = self.data.len();
            proof {
                lemma_row_major_in_range(
                    self.width as int,
                    self.height as int,
                    x as int,
                    y as int,
                );
            }
            let idx: usize = y as usize * self.width as usize + x as usize;
            self.data.set(idx, v);
        }
    }

    /// Writes `color` at the four positions mirror-symmetric to `(x, y)`
    /// about the kernel center, unless the positive corner already falls
    /// outside the kernel.
    fn draw_4sym(&mut self, x: u32, y: u32, color: u8)
        requires
            old(self).wf(),
        ensures
            final(self).wf(),
            final(self).width == old(self).width,
            final(self).height == old(self).height,
            final(self).data@ == sym4(
                old(self).data@,
                old(self).width as int,
                old(self).height as int,
                x as int,
                y as int,
                color,
            ),
    {
        let ox: i64 = (self.width / 2) as i64;
        let oy: i64 = (self.height / 2) as i64;
        let px: i64 = (1 - self.width % 2) as i64;
        let py: i64 = (1 - self.height % 2) as i64;
        if ox + x as i64 >= self.width as i64 || oy + y as i64 >= self.height as i64 {
            return ;
        }
        self.set_weight_checked(ox + x as i64, oy + y as i64, color);
        self.set_weight_checked(ox + x as i64, oy - py - y as i64, color);
        self.set_weight_checked(ox - px - x as i64, oy + y as i64, color);
        self.set_weight_checked(ox - px - x as i64, oy - py - y as i64, color);
    }

    /// Fills the horizontal span from the mirrored negative boundary
    /// `ox - px - x` through the positive boundary `ox + x`, on the two rows
    /// mirror-symmetric about the kernel center; writes outside the kernel
    /// are silently dropped.
    #[verifier::loop_isolation(false)]
    fn fill_4sym(&mut self, x: u32, y: u32)
        requires
            old(self).wf(),
        ensures
            final(self).wf(),
            final(self).width == old(self).width,
            final(self).height == old(self).height,
            final(self).data@ == span_fill(
                old(self).data@,
                old(self).width as int,
                old(self).height as int,
                x as int,
                y as int,
            ),
    {
        let ox: i64 = (self.width / 2) as i64;
        let oy: i64 = (self.height / 2) as i64;
        let px: i64 = (1 - self.width % 2) as i64;
        let py: i64 = (1 - self.height % 2) as i64;
        let start: i64 = ox - px - x as i64;
        let count: u64 = px as u64 + 2 * (x as u64) + 1;
        let ghost s0 = self.data@;
        let mut t: u64 = 0;
        while t < count
            invariant
                t <= count,
                count == px + 2 * (x as int) + 1,
                start == (old(self).width as int) / 2 - (1 - (old(self).width as int) % 2) - x,
                self.wf(),
                self.width == old(self).width,
                self.height == old(self).height,
                s0 == old(self).data@,
                self.data@ == span_upto(
                    s0,
                    old(self).width as int,
                    old(self).height as int,
                    x as int,
                    y as int,
                    t as nat,
                ),
            decreases count - t,
        {
            let k: i64 = start + t as i64;
            self.set_weight_checked(k, oy + y as i64, 255);
            self.set_weight_checked(k, oy - py - y as i64, 255);
            t = t + 1;
        }
    }

    /// Creates a kernel image of the given shape and dimensions: a rectangle
    /// is completely filled, a cross sets the centered row and column, and
    /// the two ellipse shapes rasterize a midpoint ellipse, the anti-aliased
    /// variant with a one-cell soft border of fractional weights.
    #[verifier::loop_isolation(false)]
    pub fn from_shape(shape: KernelShape, width: u32, height: u32) -> (k: Self)
        requires
            width >= 1,
            height >= 1,
            (width as int) * (height as int) <= u32::MAX as int,
            shape is EllipseAa ==> width >= 3 && height >= 3,
        ensures
            k.wf(),
            k.width == width,
            k.height == height,
            shape is Rect ==> forall|i: int| 0 <= i < k.data@.len() ==> k.data@[i] == 255u8,
            shape is Cross ==> forall|x: int, y: int|
                k.in_bounds(x, y) ==> k.at(x, y) == (if x == width as int / 2 || y
                    == height as int / 2 {
                    255u8
                } else {
                    0u8
                }),
            shape is Ellipse ==> k.data@ == ellipse_weights(width as int, height as int, false),
            shape is EllipseAa ==> k.data@ == ellipse_weights(width as int, height as int, true),
    {
        let mut kernel = Self::new(width, height);
        match shape {
            KernelShape::Rect => {
                let n = kernel.data.len();
                let mut i: usize = 0;
                while i < n
                    invariant
                        i <= n,
                        kernel.data@.len() == n,
                        kernel.width == width,
                        kernel.height == height,
                        kernel.wf(),
                        forall|j: int| 0 <= j < i ==> kernel.data@[j] == 255u8,
                    decreases n - i,
                {
                    kernel.data.set(i, 255);
                    i = i + 1;
                }
            },
            KernelShape::Cross => {
                let w2 = width / 2;
                let h2 = height / 2;
                proof {
                    assert forall|a: int, b: int| kernel.in_bounds(a, b) implies #[trigger] kernel.at(
                        a,
                        b,
                    ) == 0u8 by {
                        lemma_row_major_in_range(width as int, height as int, a, b);
                    }
                }
                let mut y: u32 = 0;
                while y < height
                    invariant
                        y <= height,
                        kernel.wf(),
                        kernel.width == width,
                        kernel.height == height,
                        forall|a: int, b: int|
                            kernel.in_bounds(a, b) ==> #[trigger] kernel.at(a, b) == (if a
                                == w2 as int && b < y as int {
                                255u8
                            } else {
                                0u8
                            }),
                    decreases height - y,
                {
                    let ghost k0 = kernel;
                    let ghost pre = kernel.data@;
                    kernel.set_weight_checked(w2 as i64, y as i64, 255);
                    proof {
                        lemma_set_checked(
                            pre,
                            width as int,
                            height as int,
                            w2 as int,
                            y as int,
                            255u8,
                        );
                        assert forall|a: int, b: int| kernel.in_bounds(a, b) implies #[trigger] kernel.at(
                            a,
                            b,
                        ) == (if a == w2 as int && b < y as int + 1 {
                            255u8
                        } else {
                            0u8
                        }) by {
                            assert(k0.at(a, b) == (if a == w2 as int && b < y as int {
                                255u8
                            } else {
                                0u8
                            }));
                            assert(kernel.data@[b * (width as int) + a] == set_checked(
                                pre,
                                width as int,
                                height as int,
                                w2 as int,
                                y as int,
                                255u8,
                            )[b * (width as int) + a]);
                        }
                    }
                    y = y + 1;
                }
                let mut x: u32 = 0;
                while x < width
                    invariant
                        x <= width,
                        kernel.wf(),
                        kernel.width == width,
                        kernel.height == height,
                        forall|a: int, b: int|
                            kernel.in_bounds(a, b) ==> #[trigger] kernel.at(a, b) == (if a
                                == w2 as int || (b == h2 as int && a < x as int) {
                                255u8
                            } else {
                                0u8
                            }),
                    decreases width - x,
                {
                    let ghost k0 = kernel;
                    let ghost pre = kernel.data@;
                    kernel.set_weight_checked(x as i64, h2 as i64, 255);
                    proof {
                        lemma_set_checked(
                            pre,
                            width as int,
                            height as int,
                            x as int,
                            h2 as int,
                            255u8,
                        );
                        assert forall|a: int, b: int| kernel.in_bounds(a, b) implies #[trigger] kernel.at(
                            a,
                            b,
                        ) == (if a == w2 as int || (b == h2 as int && a < x as int + 1) {
                            255u8
                        } else {
                            0u8
                        }) by {
                            assert(k0.at(a, b) == (if a == w2 as int || (b == h2 as int && a
                                < x as int) {
                                255u8
                            } else {
                                0u8
                            }));
                            assert(kernel.data@[b * (width as int) + a] == set_checked(
                                pre,
                                width as int,
                                height as int,
                                x as int,
                                h2 as int,
                                255u8,
                            )[b * (width as int) + a]);
                        }
                    }
                    x = x + 1;
                }
            },
            KernelShape::Ellipse => kernel.draw_ellipse(false),
            KernelShape::EllipseAa => kernel.draw_ellipse(true),
        }
        kernel
    }

    /// Rasterizes an ellipse inscribed in the kernel: two symmetric sweeps
    /// fill horizontal spans bounded by the midpoint-ellipse boundary, and
    /// the anti-aliased variant writes the boundary's fractional remainder
    /// one cell outward from each span.
    #[verifier::loop_isolation(false)]
    fn draw_ellipse(&mut self, anti_alias: bool)
        requires
            old(self).wf(),
            (old(self).width as int) * (old(self).height as int) <= u32::MAX as int,
            anti_alias ==> old(self).width >= 3 && old(self).height >= 3,
        ensures
            final(self).wf(),
            final(self).width == old(self).width,
            final(self).height == old(self).height,
            final(self).data@ == ellipse_pass(
                old(self).data@,
                old(self).width as int,
                old(self).height as int,
                anti_alias,
            ),
    {
        let w = self.width;
        let h = self.height;
        let (wa, ha): (u32, u32) = if anti_alias {
            (w - 2, h - 2)
        } else {
            (w, h)
        };
        proof {
            assert(ell_axis(w as int, anti_alias) == wa as int);
            assert(ell_axis(h as int, anti_alias) == ha as int);
            assert((wa as int) * (ha as int) <= (w as int) * (h as int) && (ha as int) * (
            wa as int) == (wa as int) * (ha as int)) by (nonlinear_arith)
                requires
                    1 <= wa as int <= w as int,
                    1 <= ha as int <= h as int,
            ;
        }
        let q1: u32 = quarter_steps(wa, ha);
        let q2: u32 = quarter_steps(ha, wa);
        let ghost s0 = self.data@;
        let mut x: u32 = 0;
        while x <= q1
            invariant
                x <= q1 + 1,
                self.wf(),
                self.width == old(self).width,
                self.height == old(self).height,
                self.data@ == sweep_x_upto(s0, w as int, h as int, anti_alias, x as nat),
            decreases q1 + 1 - x,
        {
            let (yb, e) = sweep_values(wa, ha, x);
            if anti_alias {
                self.draw_4sym(x, yb + 1, e);
            }
            self.fill_4sym(x, yb);
            proof {
                assert(self.data@ == sweep_x_step(
                    sweep_x_upto(s0, w as int, h as int, anti_alias, x as nat),
                    w as int,
                    h as int,
                    anti_alias,
                    x as int,
                ));
                assert(self.data@ == sweep_x_upto(
                    s0,
                    w as int,
                    h as int,
                    anti_alias,
                    (x + 1) as nat,
                ));
            }
            x = x + 1;
        }
        let ghost s1 = self.data@;
        proof {
            assert(s1 == sweep_x_upto(
                s0,
                w as int,
                h as int,
                anti_alias,
                (ell_quarter(wa as int, ha as int) + 1) as nat,
            ));
        }
        let mut y: u32 = 0;
        while y <= q2
            invariant
                y <= q2 + 1,
                self.wf(),
                self.width == old(self).width,
                self.height == old(self).height,
                self.data@ == sweep_y_upto(s1, w as int, h as int, anti_alias, y as nat),
            decreases q2 + 1 - y,
        {
            let (xb, e) = sweep_values(ha, wa, y);
            if anti_alias {
                self.draw_4sym(xb + 1, y, e);
            }
            self.fill_4sym(xb, y);
            proof {
                assert(self.data@ == sweep_y_step(
                    sweep_y_upto(s1, w as int, h as int, anti_alias, y as nat),
                    w as int,
                    h as int,
                    anti_alias,
                    y as int,
                ));
                assert(self.data@ == sweep_y_upto(
                    s1,
                    w as int,
                    h as int,
                    anti_alias,
                    (y + 1) as nat,
                ));
            }
            y = y + 1;
        }
    }

    /// The kernel as a single-channel image: a weight `w` becomes the
    /// luminance `w` (the fixed-point weight over `255` carries straight over
    /// to the byte scale).
    pub fn into_luma(self) -> (img: Image<L>)
        requires
            self.wf(),
        ensures
            img.wf(),
            img.width == self.width,
            img.height == self.height,
            img.data@.len() == self.data@.len(),
            forall|i: int| 0 <= i < self.data@.len() ==> img.data@[i] == L(self.data@[i]),
    {
        let width = self.width;
        let height = self.height;
        let n = self.data.len();
        let mut pixels: Vec<L> = Vec::new();
        let mut i: usize = 0;
        while i < n
            invariant
                i <= n,
                n == self.data@.len(),
                pixels@.len() == i,
                forall|j: int| 0 <= j < i ==> pixels@[j] == L(self.data@[j]),
            decreases n - i,
        {
            pixels.push(L(self.data[i]));
            i = i + 1;
        }
        Image { width, height, data: pixels }
    }

    /// The kernel as an occupancy mask: a cell is set iff its weight is
    /// positive.
    pub fn into_mask(self) -> (img: Image<BitPixel>)
        requires
            self.wf(),
        ensures
            img.wf(),
            img.width == self.width,
            img.height == self.height,
            img.data@.len() == self.data@.len(),
            forall|i: int|
                0 <= i < self.data@.len() ==> img.data@[i] == BitPixel(self.data@[i] > 0),
    {
        let width = self.width;
        let height = self.height;
        let n = self.data.len();
        let mut pixels: Vec<BitPixel> = Vec::new();
        let mut i: usize = 0;
        while i < n
            invariant
                i <= n,
                n == self.data@.len(),
                pixels@.len() == i,
                forall|j: int| 0 <= j < i ==> pixels@[j] == BitPixel(self.data@[j] > 0),
            decreases n - i,
        {
            pixels.push(BitPixel(self.data[i] > 0));
            i = i + 1;
        }
        Image { width, height, data: pixels }
    }
}

} // verus!
