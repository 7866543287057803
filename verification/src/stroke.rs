//! The stroke/outline operator: binarizes the alpha channel of a reference
//! image, grows it by dilation with an anti-aliased ellipse kernel sized from
//! the requested stroke width, converts the grown coverage field to the fill
//! color, and composites the result behind the destination's existing
//! content.

use vstd::prelude::*;

use crate::image::Image;
use crate::kernel::{ellipse_weights, KernelImage, KernelShape};
use crate::morph::{dilated, Dilation, Window};
use crate::num::lemma_row_major_in_range;
use crate::pixel::{scale8, Rgba, L};

verus! {

/// Creates a stroke around an [`Image<Rgba>`].
pub struct Stroke {
    /// The alpha channel of the reference image.
    pub alpha: Image<L>,
    /// Stroke size in pixels.
    pub size: u32,
    /// Stroke fill color.
    pub color: Rgba,
    /// The alpha threshold above which a pixel is considered filled.
    pub threshold: u8,
}

impl Stroke {
    /// The stroke state is well-formed when its alpha buffer is.
    pub open spec fn wf(self) -> bool {
        self.alpha.wf()
    }

    /// The binarized occupancy mask: full scale where the alpha sample
    /// strictly exceeds the threshold, zero elsewhere.
    pub open spec fn bin_seq(self) -> Seq<L> {
        Seq::new(
            self.alpha.data@.len(),
            |i: int|
                L(
                    if self.alpha.data@[i].0 > self.threshold {
                        255u8
                    } else {
                        0u8
                    },
                ),
        )
    }

    /// The kernel extent used to grow the mask: `2 * size - 1`.
    pub open spec fn spec_kernel_size(self) -> int {
        2 * self.size as int - 1
    }

    /// The window of the growing dilation: the binarized mask sampled under
    /// a center-anchored anti-aliased ellipse kernel.
    pub open spec fn spec_window(self) -> Window<L> {
        Window {
            src_w: self.alpha.width as int,
            src_h: self.alpha.height as int,
            src: self.bin_seq(),
            ker_w: self.spec_kernel_size(),
            ker_h: self.spec_kernel_size(),
            ker: ellipse_weights(self.spec_kernel_size(), self.spec_kernel_size(), true),
            ax: self.spec_kernel_size() / 2,
            ay: self.spec_kernel_size() / 2,
        }
    }

    /// The grown coverage at `(x, y)`: the dilated occupancy value.
    pub open spec fn spec_coverage(self, x: int, y: int) -> u8 {
        dilated(self.spec_window(), x, y).0
    }

    /// The stroke pixel painted behind the destination at `(x, y)`: the fill
    /// color, its alpha scaled by the grown coverage.
    pub open spec fn spec_stroke_pixel(self, x: int, y: int) -> Rgba {
        Rgba {
            r: self.color.r,
            g: self.color.g,
            b: self.color.b,
            a: scale8(self.color.a, self.spec_coverage(x, y)),
        }
    }

    /// Creates a new image stroke over the alpha band of `image`, with the
    /// threshold defaulting to `0` and the size clamped to at least `1`.
    pub fn new(image: &Image<Rgba>, size: u32, color: Rgba) -> (s: Stroke)
        requires
            image.wf(),
        ensures
            s.wf(),
            s.alpha.width == image.width,
            s.alpha.height == image.height,
            s.alpha.data@.len() == image.data@.len(),
            forall|i: int|
                0 <= i < image.data@.len() ==> s.alpha.data@[i] == L(image.data@[i].a),
            s.size == (if size >= 1 {
                size
            } else {
                1u32
            }),
            s.color == color,
            s.threshold == 0u8,
    {
        Self {
            alpha: image.band(3),
            size: if size >= 1 {
                size
            } else {
                1
            },
            color,
            threshold: 0,
        }
    }

    /// Sets the alpha threshold value above which pixels are considered
    /// filled.
    pub fn with_threshold(self, threshold: u8) -> (s: Stroke)
        ensures
            s.alpha == self.alpha,
            s.size == self.size,
            s.color == self.color,
            s.threshold == threshold,
    {
        Self { threshold, ..self }
    }

    /// Composites the stroke behind the destination: every pixel covered by
    /// the grown outline receives the fill color, scaled by the coverage,
    /// underneath the destination's existing content.
    #[verifier::loop_isolation(false)]
    pub fn draw(&self, image: &mut Image<Rgba>)
        requires
            old(image).wf(),
            self.wf(),
            self.size >= 2,
            self.spec_kernel_size() * self.spec_kernel_size() <= u32::MAX as int,
            old(image).width >= self.alpha.width,
            old(image).height >= self.alpha.height,
        ensures
            final(image).wf(),
            final(image).width == old(image).width,
            final(image).height == old(image).height,
            forall|x: int, y: int|
                old(image).in_bounds(x, y) ==> #[trigger] final(image).at(x, y) == (if x
                    < self.alpha.width && y < self.alpha.height {
                    old(image).at(x, y).spec_underlay(self.spec_stroke_pixel(x, y))
                } else {
                    old(image).at(x, y)
                }),
    {
        let w = self.alpha.width;
        let h = self.alpha.height;
        // Binarize the alpha band into an occupancy mask.
        let n = self.alpha.data.len();
        let mut bin: Vec<L> = Vec::new();
        let mut idx: usize = 0;
        while idx < n
            invariant
                idx <= n,
                bin@.len() == idx,
                forall|q: int| 0 <= q < idx ==> bin@[q] == self.bin_seq()[q],
            decreases n - idx,
        {
            let v: u8 = if self.alpha.data[idx].0 > self.threshold {
                255
            } else {
                0
            };
            bin.push(L(v));
            idx = idx + 1;
        }
        let src_alpha = Image { width: w, height: h, data: bin };
        proof {
            assert(src_alpha.data@ =~= self.bin_seq());
        }
        // Grow the mask with an anti-aliased ellipse kernel.
        proof {
            assert(2 * (self.size as int) - 1 <= 65535) by (nonlinear_arith)
                requires
                    (2 * (self.size as int) - 1) * (2 * (self.size as int) - 1) <= u32::MAX as int,
                    self.size >= 2,
            ;
        }
        let k_size = self.size * 2 - 1;
        let kernel = KernelImage::from_shape(KernelShape::EllipseAa, k_size, k_size);
        let mut stroke_alpha = Image::new(w, h, L(0));
        let dilation = Dilation::new(&src_alpha, &kernel);
        dilation.draw(&mut stroke_alpha);
        proof {
            assert(dilation.spec_window() == self.spec_window());
        }
        // Convert the coverage field to the fill color.
        let mut rgba: Vec<Rgba> = Vec::new();
        let mut idx2: usize = 0;
        let n2 = stroke_alpha.data.len();
        while idx2 < n2
            invariant
                idx2 <= n2,
                n2 == stroke_alpha.data@.len(),
                rgba@.len() == idx2,
                forall|q: int|
                    0 <= q < idx2 ==> rgba@[q] == (Rgba {
                        r: self.color.r,
                        g: self.color.g,
                        b: self.color.b,
                        a: scale8(self.color.a, stroke_alpha.data@[q].0),
                    }),
            decreases n2 - idx2,
        {
            let k: u8 = stroke_alpha.data[idx2].0;
            proof {
                crate::pixel::lemma_scale8_bounds(self.color.a, k);
            }
            let a: u8 = (self.color.a as u32 * k as u32 / 255) as u8;
            rgba.push(Rgba { r: self.color.r, g: self.color.g, b: self.color.b, a });
            idx2 = idx2 + 1;
        }
        let stroke_rgba = Image { width: w, height: h, data: rgba };
        // Composite the stroke behind the destination.
        let mut y: u32 = 0;
        while y < h
            invariant
                y <= h,
                image.wf(),
                image.width == old(image).width,
                image.height == old(image).height,
                forall|a: int, b: int|
                    old(image).in_bounds(a, b) ==> #[trigger] image.at(a, b) == (if a < w && b
                        < y {
                        old(image).at(a, b).spec_underlay(self.spec_stroke_pixel(a, b))
                    } else {
                        old(image).at(a, b)
                    }),
            decreases h - y,
        {
            let mut x: u32 = 0;
            while x < w
                invariant
                    x <= w,
                    y < h,
                    image.wf(),
                    image.width == old(image).width,
                    image.height == old(image).height,
                    forall|a: int, b: int|
                        old(image).in_bounds(a, b) ==> #[trigger] image.at(a, b) == (if (a < w
                            && b < y) || (b == y && a < x) {
                            old(image).at(a, b).spec_underlay(self.spec_stroke_pixel(a, b))
                        } else {
                            old(image).at(a, b)
                        }),
                decreases w - x,
            {
                let p = stroke_rgba.pixel(x, y);
                proof {
                    lemma_row_major_in_range(w as int, h as int, x as int, y as int);
                    assert(stroke_alpha.at(x as int, y as int) == dilated(
                        self.spec_window(),
                        x as int,
                        y as int,
                    ));
                    assert(p == self.spec_stroke_pixel(x as int, y as int));
                }
                let ghost im0 = *image;
                image.underlay_pixel(x, y, p);
                proof {
                    crate::image::lemma_update_preserves_others(
                        im0,
                        *image,
                        x as int,
                        y as int,
                        im0.at(x as int, y as int).spec_underlay(p),
                    );
                    assert forall|a: int, b: int| old(image).in_bounds(a, b) implies #[trigger] image.at(
                        a,
                        b,
                    ) == (if (a < w && b < y) || (b == y && a < x + 1) {
                        old(image).at(a, b).spec_underlay(self.spec_stroke_pixel(a, b))
                    } else {
                        old(image).at(a, b)
                    }) by {
                        assert(im0.at(a, b) == (if (a < w && b < y) || (b == y && a < x) {
                            old(image).at(a, b).spec_underlay(self.spec_stroke_pixel(a, b))
                        } else {
                            old(image).at(a, b)
                        }));
                    }
                }
                x = x + 1;
            }
            y = y + 1;
        }
    }
}

} // verus!
