//! Integer square roots and small arithmetic lemmas used by the kernel
//! rasterizer and the sliding-window operators.

use vstd::prelude::*;

verus! {

/// The integer square root of `n`: the largest `r` with `r * r <= n`
/// (`0` for negative `n`).
pub open spec fn isqrt_spec(n: int) -> int
    decreases n,
{
    if n <= 0 {
        0
    } else {
        let p = isqrt_spec(n - 1);
        if (p + 1) * (p + 1) <= n {
            p + 1
        } else {
            p
        }
    }
}

/// `isqrt_spec(n)` is characterized by `r * r <= n < (r + 1) * (r + 1)`.
pub proof fn lemma_isqrt_bounds(n: int)
    requires
        n >= 0,
    ensures
        isqrt_spec(n) >= 0,
        isqrt_spec(n) * isqrt_spec(n) <= n,
        n < (isqrt_spec(n) + 1) * (isqrt_spec(n) + 1),
    decreases n,
{
    if n == 0 {
    } else {
        lemma_isqrt_bounds(n - 1);
        let p = isqrt_spec(n - 1);
        if (p + 1) * (p + 1) <= n {
            assert(n == (p + 1) * (p + 1));
            assert((p + 1) * (p + 1) < (p + 2) * (p + 2)) by (nonlinear_arith)
                requires p >= 0,
            ;
        } else {
        }
    }
}

/// Any `r` in the characteristic range of `n` is `isqrt_spec(n)`.
pub proof fn lemma_isqrt_unique(n: int, r: int)
    requires
        n >= 0,
        r >= 0,
        r * r <= n,
        n < (r + 1) * (r + 1),
    ensures
        r == isqrt_spec(n),
{
    lemma_isqrt_bounds(n);
    let s = isqrt_spec(n);
    if r < s {
        assert((r + 1) * (r + 1) <= s * s) by (nonlinear_arith)
            requires 0 <= r, r < s,
        ;
    }
    if s < r {
        assert((s + 1) * (s + 1) <= r * r) by (nonlinear_arith)
            requires 0 <= s, s < r,
        ;
    }
}

/// Computes the integer square root of `n` by binary search.
pub fn isqrt(n: u128) -> (r: u128)
    requires
        (n as int) < 0x4000_0000_0000_0000_0000_0000_0000_0000,
    ensures
        r == isqrt_spec(n as int),
        r * r <= n,
        (n as int) < (r + 1) * (r + 1),
{
    let mut lo: u128 = 0;
    let mut hi: u128 = 0x8000_0000_0000_0000;
    proof {
        assert((hi as int) * (hi as int) > n as int) by (nonlinear_arith)
            requires
                hi == 0x8000_0000_0000_0000u128,
                (n as int) < 0x4000_0000_0000_0000_0000_0000_0000_0000,
        ;
    }
    while hi - lo > 1
        invariant
            0 <= lo < hi <= 0x8000_0000_0000_0000,
            (lo as int) * (lo as int) <= n as int,
            (n as int) < (hi as int) * (hi as int),
        decreases hi - lo,
    {
        let mid = lo + (hi - lo) / 2;
        if mid <= n / mid {
            proof {
                assert((mid as int) * (mid as int) <= n as int) by (nonlinear_arith)
                    requires
                        mid >= 1,
                        (mid as int) <= (n as int) / (mid as int),
                ;
            }
            lo = mid;
        } else {
            proof {
                assert((n as int) < (mid as int) * (mid as int)) by (nonlinear_arith)
                    requires
                        mid >= 1,
                        (mid as int) > (n as int) / (mid as int),
                ;
            }
            hi = mid;
        }
    }
    proof {
        lemma_isqrt_unique(n as int, lo as int);
    }
    lo
}

/// A quotient is below `b` as soon as the dividend is below `b * c`.
pub proof fn lemma_div_below(a: int, b: int, c: int)
    requires
        c >= 1,
        0 <= a,
        a < b * c,
    ensures
        a / c < b,
{
    assert(a / c < b) by (nonlinear_arith)
        requires c >= 1, 0 <= a, a < b * c,
    ;
}

/// Scaling the operand of a square root by `255^2` scales the root by `255`,
/// up to one quantization step.
pub proof fn lemma_isqrt_scale255(n: int)
    requires
        n >= 0,
    ensures
        255 * isqrt_spec(n) <= isqrt_spec(65025 * n),
        isqrt_spec(65025 * n) < 255 * isqrt_spec(n) + 255,
{
    lemma_isqrt_bounds(n);
    lemma_isqrt_bounds(65025 * n);
    let t = isqrt_spec(n);
    let u = isqrt_spec(65025 * n);
    assert((255 * t) * (255 * t) <= 65025 * n) by (nonlinear_arith)
        requires t * t <= n,
    ;
    if u < 255 * t {
        assert((u + 1) * (u + 1) <= (255 * t) * (255 * t)) by (nonlinear_arith)
            requires 0 <= u, u < 255 * t,
        ;
    }
    assert(65025 * n < (255 * t + 255) * (255 * t + 255)) by (nonlinear_arith)
        requires n < (t + 1) * (t + 1), t >= 0,
    ;
    if u >= 255 * t + 255 {
        assert((255 * t + 255) * (255 * t + 255) <= u * u) by (nonlinear_arith)
            requires 0 <= 255 * t + 255, 255 * t + 255 <= u,
        ;
    }
}

/// The quantized fractional part `floor(255 v) - 255 floor(v)` of a value
/// `v = t / d` known through `t1 = floor(d v)` and `t255 = floor(255 d v)`
/// lies in `0 ..= 254`.
pub proof fn lemma_scaled_floor_fract(t1: int, t255: int, d: int)
    requires
        d >= 1,
        t1 >= 0,
        255 * t1 <= t255,
        t255 < 255 * t1 + 255,
    ensures
        0 <= t255 / d - 255 * (t1 / d) <= 254,
{
    let m = t1 / d;
    vstd::arithmetic::div_mod::lemma_fundamental_div_mod(t1, d);
    assert(m >= 0) by (nonlinear_arith)
        requires d >= 1, t1 >= 0, t1 == d * m + t1 % d, 0 <= t1 % d < d,
    ;
    assert(t255 >= (255 * m) * d) by (nonlinear_arith)
        requires t255 >= 255 * t1, t1 == d * m + t1 % d, 0 <= t1 % d, m >= 0, d >= 1,
    ;
    assert(t255 / d >= 255 * m) by (nonlinear_arith)
        requires d >= 1, t255 >= (255 * m) * d, 255 * m >= 0,
    ;
    assert(t255 < (255 * m + 255) * d) by (nonlinear_arith)
        requires
            t255 < 255 * t1 + 255,
            t1 == d * m + t1 % d,
            t1 % d < d,
            d >= 1,
    ;
    lemma_div_below(t255, 255 * m + 255, d);
}

/// Two row-major indices agree only on identical coordinates.
pub proof fn lemma_row_major_injective(w: int, x1: int, y1: int, x2: int, y2: int)
    requires
        0 <= x1 < w,
        0 <= x2 < w,
        0 <= y1,
        0 <= y2,
        y1 * w + x1 == y2 * w + x2,
    ensures
        x1 == x2,
        y1 == y2,
{
    assert(y1 == y2 && x1 == x2) by (nonlinear_arith)
        requires
            0 <= x1 < w,
            0 <= x2 < w,
            0 <= y1,
            0 <= y2,
            y1 * w + x1 == y2 * w + x2,
    ;
}

/// A row-major index formed from in-range coordinates is in range.
pub proof fn lemma_row_major_in_range(w: int, h: int, x: int, y: int)
    requires
        0 <= x < w,
        0 <= y < h,
    ensures
        0 <= y * w + x < h * w,
        h * w == w * h,
{
    assert(0 <= y * w + x < h * w && h * w == w * h) by (nonlinear_arith)
        requires
            0 <= x < w,
            0 <= y < h,
    ;
}

} // verus!
