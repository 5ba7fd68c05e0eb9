//! The framebuffer: a width-by-height grid of accumulated radiance.
//!
//! The estimator writes one accumulated colour per pixel; clamping, scaling,
//! gamma and file encoding happen downstream.  What this module verifies is
//! the grid's indexing and the quantisation pass.

use crate::color::{quantise_channel, Color};
use vstd::prelude::*;

verus! {

/// A framebuffer of unclamped linear colours, row-major.
#[derive(Clone, Debug)]
pub struct Rendering {
    pub width: usize,
    pub height: usize,
    pub pixels: Vec<Color>,
}

/// The grid holds exactly one colour per pixel.
pub open spec fn wf_rendering(r: &Rendering) -> bool {
    r.pixels@.len() == r.width * r.height
}

impl Rendering {
    /// A black framebuffer of the given size.
    pub fn rendering(width: usize, height: usize) -> (r: Rendering)
        requires
            width * height <= usize::MAX,
        ensures
            wf_rendering(&r),
            r.width == width,
            r.height == height,
            forall|i: int|
                0 <= i < r.pixels@.len() ==> r.pixels@[i] == (Color { r: 0, g: 0, b: 0 }),
    {
        let n: usize = width * height;
        let mut pixels: Vec<Color> = Vec::new();
        let mut i: usize = 0;
        while i < n
            invariant
                i <= n,
                pixels@.len() == i,
                forall|j: int| 0 <= j < i ==> pixels@[j] == (Color { r: 0, g: 0, b: 0 }),
            decreases n - i,
        {
            pixels.push(Color::black());
            i = i + 1;
        }
        Rendering { width, height, pixels }
    }

    /// A mutable borrow of the pixel at `(px, py)`.
    pub fn get_mut_pixel(&mut self, px: usize, py: usize) -> (pixel: &mut Color)
        requires
            wf_rendering(old(self)),
            px < old(self).width,
            py < old(self).height,
        ensures
            *pixel == old(self).pixels@[px + py * old(self).width],
            final(self).pixels@ == old(self).pixels@.update(
                px + py * old(self).width,
                *final(pixel),
            ),
            final(self).width == old(self).width,
            final(self).height == old(self).height,
    {
        let len: usize = self.pixels.len();
        proof {
            lemma_grid_index(px as int, py as int, self.width as int, self.height as int);
        }
        let n: usize = px + py * self.width;
        assert(n < len);
        &mut self.pixels[n]
    }

    /// The 8-bit bytes of the grid, three per pixel, row-major: the
    /// computational half of saving an image (the encoding itself is the
    /// caller's business).
    pub fn quantised_bytes(&self) -> (bytes: Vec<u8>)
        requires
            wf_rendering(self),
        ensures
            bytes@.len() == 3 * self.pixels@.len(),
            forall|i: int|
                0 <= i < self.pixels@.len() ==> {
                    &&& bytes@[3 * i] == quantise_channel(#[trigger] self.pixels@[i].r as int)
                    &&& bytes@[3 * i + 1] == quantise_channel(self.pixels@[i].g as int)
                    &&& bytes@[3 * i + 2] == quantise_channel(self.pixels@[i].b as int)
                },
    {
        let mut bytes: Vec<u8> = Vec::new();
        let mut i: usize = 0;
        while i < self.pixels.len()
            invariant
                i <= self.pixels@.len(),
                bytes@.len() == 3 * i,
                forall|j: int|
                    0 <= j < i ==> {
                        &&& bytes@[3 * j] == quantise_channel(#[trigger] self.pixels@[j].r as int)
                        &&& bytes@[3 * j + 1] == quantise_channel(self.pixels@[j].g as int)
                        &&& bytes@[3 * j + 2] == quantise_channel(self.pixels@[j].b as int)
                    },
            decreases self.pixels@.len() - i,
        {
            let (r, g, b) = self.pixels[i].quantise();
            bytes.push(r);
            bytes.push(g);
            bytes.push(b);
            i = i + 1;
        }
        bytes
    }
}

/// Row-major indexing stays inside the grid.
proof fn lemma_grid_index(px: int, py: int, width: int, height: int)
    requires
        0 <= px < width,
        0 <= py < height,
    ensures
        0 <= px + py * width < width * height,
{
    assert(px + py * width < width * height) by (nonlinear_arith)
        requires
            0 <= px < width,
            0 <= py < height,
    ;
    assert(py * width >= 0) by (nonlinear_arith)
        requires
            py >= 0,
            width > 0,
    ;
}

} // verus!
