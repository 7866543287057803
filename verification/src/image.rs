//! A rectangular pixel grid stored as a row-major flat vector, exposing the
//! narrow access surface the morphology operators need: bounds-checked reads,
//! fatal-on-out-of-range writes, channel extraction, and underlay compositing.

use vstd::prelude::*;
use vstd::pervasive::VecAdditionalExecFns;

use crate::num::{lemma_row_major_in_range, lemma_row_major_injective};
use crate::pixel::{Rgba, L};

verus! {

/// An image: `width * height` pixels in row-major order.
pub struct Image<P> {
    /// Width in pixels; always positive.
    pub width: u32,
    /// Height in pixels; always positive.
    pub height: u32,
    /// The pixels, row by row; holds exactly `width * height` entries.
    pub data: Vec<P>,
}

impl<P: Copy> Image<P> {
    /// The container invariant: positive dimensions and a backing vector of
    /// exactly `width * height` pixels.
    pub open spec fn wf(self) -> bool {
        &&& self.width >= 1
        &&& self.height >= 1
        &&& self.data@.len() == (self.width as int) * (self.height as int)
    }

    /// The pixel stored at column `x` of row `y`.
    pub open spec fn at(self, x: int, y: int) -> P {
        self.data@[y * (self.width as int) + x]
    }

    /// Whether `(x, y)` lies inside the image.
    pub open spec fn in_bounds(self, x: int, y: int) -> bool {
        0 <= x < self.width && 0 <= y < self.height
    }

    /// Creates an image of the given dimensions with every pixel set to
    /// `fill`.
    pub fn new(width: u32, height: u32, fill: P) -> (img: Self)
        requires
            width >= 1,
            height >= 1,
            (width as int) * (height as int) <= usize::MAX as int,
        ensures
            img.wf(),
            img.width == width,
            img.height == height,
            forall|i: int| 0 <= i < img.data@.len() ==> img.data@[i] == fill,
    {
        let n: usize = width as usize * height as usize;
        let mut data: Vec<P> = Vec::new();
        let mut i: usize = 0;
        while i < n
            invariant
                i <= n,
                n == (width as int) * (height as int),
                data@.len() == i,
                forall|j: int| 0 <= j < i ==> data@[j] == fill,
            decreases n - i,
        {
            data.push(fill);
            i = i + 1;
        }
        Image { width, height, data }
    }

    /// Assembles an image of the given width from a row-major pixel vector;
    /// the height is the number of complete rows the vector holds.
    pub fn from_pixels(width: u32, pixels: Vec<P>) -> (img: Self)
        requires
            width >= 1,
            pixels@.len() as int >= 1,
            (pixels@.len() as int) % (width as int) == 0,
            (pixels@.len() as int) / (width as int) <= u32::MAX as int,
        ensures
            img.wf(),
            img.width == width,
            img.height == (pixels@.len() as int) / (width as int),
            img.data@ == pixels@,
    {
        let height: u32 = (pixels.len() / width as usize) as u32;
        proof {
            let len = pixels@.len() as int;
            let w = width as int;
            vstd::arithmetic::div_mod::lemma_fundamental_div_mod(len, w);
            assert(len == w * (len / w));
            assert(w * (len / w) == (len / w) * w) by (nonlinear_arith);
            assert(len / w >= 1) by (nonlinear_arith)
                requires len >= 1, w >= 1, len == w * (len / w),
            ;
        }
        Image { width, height, data: pixels }
    }

    /// Returns the width and height of the image.
    pub fn dimensions(&self) -> (d: (u32, u32))
        ensures
            d == (self.width, self.height),
    {
        (self.width, self.height)
    }

    /// Returns the pixel at the given coordinates, or `None` when the
    /// coordinates fall outside the image.
    pub fn get_pixel(&self, x: u32, y: u32) -> (r: Option<P>)
        requires
            self.wf(),
        ensures
            r is Some <==> self.in_bounds(x as int, y as int),
            self.in_bounds(x as int, y as int) ==> r == Some(self.at(x as int, y as int)),
    {
        if x < self.width && y < self.height {
            let n = self.data.len();
            proof {
                lemma_row_major_in_range(
                    self.width as int,
                    self.height as int,
                    x as int,
                    y as int,
                );
            }
            let idx: usize = y as usize * self.width as usize + x as usize;
            Some(self.data[idx])
        } else {
            None
        }
    }

    /// Returns the pixel at the given coordinates, which must lie inside the
    /// image.
    pub fn pixel(&self, x: u32, y: u32) -> (r: P)
        requires
            self.wf(),
            self.in_bounds(x as int, y as int),
        ensures
            r == self.at(x as int, y as int),
    {
        let n = self.data.len();
        proof {
            lemma_row_major_in_range(self.width as int, self.height as int, x as int, y as int);
        }
        let idx: usize = y as usize * self.width as usize + x as usize;
        self.data[idx]
    }

    /// Returns a mutable reference to the pixel at the given coordinates,
    /// which must lie inside the image.
    pub fn pixel_mut(&mut self, x: u32, y: u32) -> (r: &mut P)
        requires
            old(self).wf(),
            old(self).in_bounds(x as int, y as int),
        ensures
            *r == old(self).at(x as int, y as int),
            final(self).width == old(self).width,
            final(self).height == old(self).height,
            final(self).data@ == old(self).data@.update(
                (y as int) * (old(self).width as int) + x as int,
                *final(r),
            ),
    {
        let n = self.data.len();
        proof {
            lemma_row_major_in_range(self.width as int, self.height as int, x as int, y as int);
        }
        let idx: usize = y as usize * self.width as usize + x as usize;
        &mut self.data[idx]
    }

    /// Overwrites the pixel at the given coordinates, which must lie inside
    /// the image.
    pub fn set_pixel(&mut self, x: u32, y: u32, p: P)
        requires
            old(self).wf(),
            old(self).in_bounds(x as int, y as int),
        ensures
            final(self).wf(),
            final(self).width == old(self).width,
            final(self).height == old(self).height,
            final(self).data@ == old(self).data@.update(
                (y as int) * (old(self).width as int) + x as int,
                p,
            ),
    {
        let n = self.data.len();
        proof {
            lemma_row_major_in_range(self.width as int, self.height as int, x as int, y as int);
        }
        let idx: usize = y as usize * self.width as usize + x as usize;
        self.data.set(idx, p);
    }
}

/// The channel of an RGBA pixel selected by a band index: red, green, blue
/// and alpha in that order.
pub open spec fn rgba_band(p: Rgba, index: int) -> u8 {
    if index == 0 {
        p.r
    } else if index == 1 {
        p.g
    } else if index == 2 {
        p.b
    } else {
        p.a
    }
}

impl Image<Rgba> {
    /// Extracts one channel (`0` red, `1` green, `2` blue, `3` alpha) as a
    /// standalone single-channel image of the same dimensions.
    pub fn band(&self, index: u32) -> (r: Image<L>)
        requires
            self.wf(),
            index < 4,
        ensures
            r.wf(),
            r.width == self.width,
            r.height == self.height,
            r.data@.len() == self.data@.len(),
            forall|i: int|
                0 <= i < self.data@.len() ==> r.data@[i] == L(
                    rgba_band(self.data@[i], index as int),
                ),
    {
        let mut data: Vec<L> = Vec::new();
        let n = self.data.len();
        let mut i: usize = 0;
        while i < n
            invariant
                i <= n,
                n == self.data@.len(),
                index < 4,
                data@.len() == i,
                forall|j: int|
                    0 <= j < i ==> data@[j] == L(rgba_band(self.data@[j], index as int)),
            decreases n - i,
        {
            let p = self.data[i];
            let c = if index == 0 {
                p.r
            } else if index == 1 {
                p.g
            } else if index == 2 {
                p.b
            } else {
                p.a
            };
            data.push(L(c));
            i = i + 1;
        }
        Image { width: self.width, height: self.height, data }
    }

    /// Composites `p` behind the pixel at the given coordinates, which must
    /// lie inside the image: the existing content keeps priority.
    pub fn underlay_pixel(&mut self, x: u32, y: u32, p: Rgba)
        requires
            old(self).wf(),
            old(self).in_bounds(x as int, y as int),
        ensures
            final(self).wf(),
            final(self).width == old(self).width,
            final(self).height == old(self).height,
            final(self).data@ == old(self).data@.update(
                (y as int) * (old(self).width as int) + x as int,
                old(self).at(x as int, y as int).spec_underlay(p),
            ),
    {
        let cur = self.pixel(x, y);
        self.set_pixel(x, y, cur.underlay(p));
    }
}

/// Updating one cell leaves every other coordinate of the grid unchanged.
pub proof fn lemma_update_preserves_others<P: Copy>(
    img: Image<P>,
    upd: Image<P>,
    x: int,
    y: int,
    p: P,
)
    requires
        img.wf(),
        upd.wf(),
        upd.width == img.width,
        upd.height == img.height,
        img.in_bounds(x, y),
        upd.data@ == img.data@.update(y * (img.width as int) + x, p),
    ensures
        upd.at(x, y) == p,
        forall|i: int, j: int|
            img.in_bounds(i, j) && (i != x || j != y) ==> upd.at(i, j) == img.at(i, j),
{
    lemma_row_major_in_range(img.width as int, img.height as int, x, y);
    assert forall|i: int, j: int|
        img.in_bounds(i, j) && (i != x || j != y) implies upd.at(i, j) == img.at(i, j) by {
        let w = img.width as int;
        lemma_row_major_in_range(w, img.height as int, i, j);
        if j * w + i == y * w + x {
            lemma_row_major_injective(w, x, y, i, j);
        }
    }
}

} // verus!
