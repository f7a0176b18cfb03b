//! Image-sampled texture: nearest-neighbour lookup into a loaded raster.
//!
//! The raster is plain data — width, height and a row-major pixel array —
//! so decoding an image file is the loader's concern. Sampling clamps the
//! texture coordinates to the unit square, flips the vertical coordinate
//! and scales to pixel indices; here the coordinates arrive as exact
//! fractions and the whole lookup is exact.

use vstd::prelude::*;

verus! {

/// One 8-bit pixel.
#[derive(Clone, Copy, Debug, PartialEq, Eq, Structural)]
pub struct Rgb8 {
    pub r: u8,
    pub g: u8,
    pub b: u8,
}

/// A row-major raster of 8-bit pixels.
#[derive(Clone, Debug)]
pub struct UVImage {
    pub width: usize,
    pub height: usize,
    pub pixels: Vec<Rgb8>,
}

/// The pixel index a clamped coordinate fraction selects on an axis of
/// `size` pixels: `min(floor(min(num/den, 1) * size), size - 1)`.
pub open spec fn spec_texel_coord(num: int, den: int, size: int) -> int {
    let clamped = if num <= den {
        num
    } else {
        den
    };
    let scaled = clamped * size / den;
    if scaled >= size {
        size - 1
    } else {
        scaled
    }
}

impl UVImage {
    /// The raster is non-degenerate and the pixel array covers it.
    pub open spec fn spec_wf(self) -> bool {
        &&& self.width >= 1
        &&& self.height >= 1
        &&& self.pixels@.len() == self.width * self.height
    }

    /// Builds the texture from a decoded raster.
    pub fn new(width: usize, height: usize, pixels: Vec<Rgb8>) -> (r: UVImage)
        requires
            width >= 1,
            height >= 1,
            pixels@.len() == width * height,
        ensures
            r.spec_wf(),
            r.width == width,
            r.height == height,
            r.pixels@ == pixels@,
    {
        UVImage { width, height, pixels }
    }

    /// The pixel at column `i` of row `j`.
    pub fn texel(&self, i: usize, j: usize) -> (c: Rgb8)
        requires
            self.spec_wf(),
            i < self.width,
            j < self.height,
        ensures
            c == self.pixels@[j * self.width + i],
    {
        let total = self.pixels.len();
        proof {
            assert(j * self.width + i < self.pixels@.len()) by (nonlinear_arith)
                requires
                    (i as int) < self.width,
                    (j as int) < self.height,
                    self.pixels@.len() == (self.width as int) * (self.height as int),
            ;
        }
        self.pixels[j * self.width + i]
    }

    /// Nearest-neighbour sample at the texture coordinates
    /// `(u_num / u_den, v_num / v_den)`: both fractions are clamped to
    /// the unit interval, the vertical one is flipped, and each is scaled
    /// to a pixel index clamped to the raster.
    pub fn sample(&self, u_num: u64, u_den: u64, v_num: u64, v_den: u64) -> (c: Rgb8)
        requires
            self.spec_wf(),
            u_den > 0,
            v_den > 0,
            self.width <= 0x100000000,
            self.height <= 0x100000000,
        ensures
            ({
                let col = spec_texel_coord(u_num as int, u_den as int, self.width as int);
                let row = spec_texel_coord(
                    (v_den - (if v_num <= v_den {
                        v_num
                    } else {
                        v_den
                    })) as int,
                    v_den as int,
                    self.height as int,
                );
                c == self.pixels@[row * self.width + col]
            }),
    {
        let cu = if u_num <= u_den {
            u_num
        } else {
            u_den
        };
        let flipped = v_den - (if v_num <= v_den {
            v_num
        } else {
            v_den
        });
        let i = texel_coord(cu, u_den, self.width);
        let j = texel_coord(flipped, v_den, self.height);
        proof {
            assert(spec_texel_coord(u_num as int, u_den as int, self.width as int) == i as int);
        }
        self.texel(i, j)
    }
}

/// Scales the already-clamped fraction `num / den` (`num <= den`) to an
/// index below `size`.
fn texel_coord(num: u64, den: u64, size: usize) -> (r: usize)
    requires
        den > 0,
        num <= den,
        1 <= size <= 0x100000000,
    ensures
        r as int == spec_texel_coord(num as int, den as int, size as int),
        r < size,
{
    proof {
        assert(num as int * size as int <= 0x1000000000000000000000000) by (nonlinear_arith)
            requires
                num as int <= 0xffffffffffffffff,
                size as int <= 0x100000000,
                num >= 0,
                size >= 0,
        ;
    }
    let scaled = (num as u128 * size as u128) / den as u128;
    if scaled >= size as u128 {
        size - 1
    } else {
        scaled as usize
    }
}

} // verus!
