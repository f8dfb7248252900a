//! An owned framebuffer addressed by pixel coordinates.

use vstd::prelude::*;
use crate::color::Color;
use crate::vec3::{V3, Vec3};

verus! {

/// A `width` by `height` grid of colors, stored row-major.
pub struct BufferedImage {
    pub width: usize,
    pub height: usize,
    pub pixels: Vec<Color>,
}

/// The row-major position of column `x` in row `y`.
pub open spec fn pixel_index(x: int, y: int, width: int) -> int {
    y * width + x
}

/// A coordinate pair within the grid addresses a cell of it.
proof fn lemma_pixel_index_in_grid(x: int, y: int, width: int, height: int)
    requires
        0 <= x < width,
        0 <= y < height,
    ensures
        0 <= pixel_index(x, y, width) < width * height,
{
    assert(0 <= y * width + x < width * height) by (nonlinear_arith)
        requires
            0 <= x < width,
            0 <= y < height;
}

impl BufferedImage {
    /// The pixel store covers the whole grid.
    pub open spec fn wf(self) -> bool {
        self.pixels@.len() == (self.width as int) * (self.height as int)
    }

    /// A black image of the given dimensions.
    pub fn new(width: usize, height: usize) -> (img: BufferedImage)
        requires
            (width as int) * (height as int) <= usize::MAX,
        ensures
            img.width == width,
            img.height == height,
            img.wf(),
            forall|k: int|
                0 <= k < img.pixels@.len() ==> (#[trigger] img.pixels@[k]).v() == (V3 {
                    x: 0,
                    y: 0,
                    z: 0,
                }),
    {
        proof {
            assert((width as int) * (height as int) >= 0) by (nonlinear_arith)
                requires
                    width as int >= 0,
                    height as int >= 0;
        }
        let n: usize = width * height;
        let mut pixels: Vec<Color> = Vec::new();
        let mut k: usize = 0;
        while k < n
            invariant
                0 <= k <= n,
                pixels@.len() == k as int,
                forall|q: int|
                    0 <= q < k as int ==> (#[trigger] pixels@[q]).v() == (V3 {
                        x: 0,
                        y: 0,
                        z: 0,
                    }),
            decreases n - k,
        {
            pixels.push(Vec3::zero());
            k = k + 1;
        }
        BufferedImage { width, height, pixels }
    }

    pub fn get_width(&self) -> (w: usize)
        ensures
            w == self.width,
    {
        self.width
    }

    pub fn get_height(&self) -> (h: usize)
        ensures
            h == self.height,
    {
        self.height
    }

    /// The color at column `x` of row `y`; both must lie in the grid.
    pub fn get_pixel(&self, x: usize, y: usize) -> (c: Color)
        requires
            self.wf(),
            x < self.width,
            y < self.height,
        ensures
            c == self.pixels@[pixel_index(x as int, y as int, self.width as int)],
    {
        proof {
            lemma_pixel_index_in_grid(x as int, y as int, self.width as int, self.height as int);
        }
        let n: usize = self.pixels.len();
        let idx: usize = y * self.width + x;
        assert(idx < n);
        self.pixels[idx]
    }

    /// Replaces the color at column `x` of row `y`.
    pub fn set_pixel(&mut self, x: usize, y: usize, color: Color)
        requires
            old(self).wf(),
            x < old(self).width,
            y < old(self).height,
        ensures
            final(self).width == old(self).width,
            final(self).height == old(self).height,
            final(self).wf(),
            final(self).pixels@ == old(self).pixels@.update(
                pixel_index(x as int, y as int, old(self).width as int),
                color,
            ),
    {
        proof {
            lemma_pixel_index_in_grid(x as int, y as int, self.width as int, self.height as int);
        }
        let n: usize = self.pixels.len();
        let idx: usize = y * self.width + x;
        assert(idx < n);
        self.pixels.set(idx, color);
    }
}

} // verus!
