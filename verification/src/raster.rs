//! The mathematical picture of an image: its size and its pixels in reading
//! order, with the transforms as functions from picture to picture.

use vstd::prelude::*;
use crate::factor::{brightness_levels, contrast_levels, Factor};
use crate::pixel::{luma, Pixel};

verus! {

/// An image as a value of mathematics: `width * height` pixels, row after row
/// from the top, each row from the left.
pub struct Raster {
    pub width: nat,
    pub height: nat,
    pub pixels: Seq<Pixel>,
}

impl Raster {
    /// There is exactly one pixel for every cell.
    pub open spec fn well_formed(self) -> bool {
        self.pixels.len() == self.width * self.height
    }

    /// Whether column `x` of row `y` lies inside the image.
    pub open spec fn contains(self, x: int, y: int) -> bool {
        0 <= x < self.width && 0 <= y < self.height
    }

    /// The pixel in column `x` of row `y`.
    pub open spec fn at(self, x: int, y: int) -> Pixel
        recommends
            self.contains(x, y),
    {
        self.pixels[y * self.width + x]
    }

    /// The image of the given size whose pixel in column `x` of row `y` is `paint(x, y)`.
    pub open spec fn painted(width: nat, height: nat, paint: spec_fn(int, int) -> Pixel) -> Raster {
        Raster {
            width,
            height,
            pixels: Seq::new(
                width * height,
                |k: int| paint(k % (width as int), k / (width as int)),
            ),
        }
    }

    /// The image with `change` applied to every pixel.
    pub open spec fn each(self, change: spec_fn(Pixel) -> Pixel) -> Raster {
        Raster { width: self.width, height: self.height, pixels: self.pixels.map_values(change) }
    }

    /// Whether the rectangle `width` by `height` with its top left corner in
    /// column `x` of row `y` lies inside the image.
    pub open spec fn holds(self, x: int, y: int, width: int, height: int) -> bool {
        x + width <= self.width && y + height <= self.height
    }

    /// The part of the image inside that rectangle.
    pub open spec fn cropped(self, x: nat, y: nat, width: nat, height: nat) -> Raster {
        Raster::painted(width, height, |i: int, j: int| self.at(x + i, y + j))
    }

    /// The pixel in column `i` of row `j` once `top` lies on the image with its
    /// top left corner in column `x` of row `y`.
    pub open spec fn overlaid_at(self, top: Raster, x: nat, y: nat, i: int, j: int) -> Pixel {
        if top.contains(i - x, j - y) {
            self.at(i, j).covered_by(top.at(i - x, j - y))
        } else {
            self.at(i, j)
        }
    }

    /// The image with `top` laid on it, top left corner in column `x` of row `y`.
    pub open spec fn overlaid(self, top: Raster, x: nat, y: nat) -> Raster {
        Raster::painted(self.width, self.height, |i: int, j: int| self.overlaid_at(top, x, y, i, j))
    }

    /// The color negative of the image.
    pub open spec fn inverted(self) -> Raster {
        self.each(|p: Pixel| p.inverted())
    }

    /// The image in shades of gray.
    pub open spec fn grayed(self) -> Raster {
        self.each(|p: Pixel| p.grayed())
    }

    /// The image with every color channel looked up in `table`.
    pub open spec fn recolored(self, table: Seq<u8>) -> Raster {
        self.each(|p: Pixel| p.recolored(table))
    }

    /// The image with every color channel scaled by `by`.
    pub open spec fn brightened(self, by: Factor) -> Raster {
        self.recolored(brightness_levels(by))
    }

    /// The image with every color channel stretched about mid-gray by `by`.
    pub open spec fn contrasted(self, by: Factor) -> Raster {
        self.recolored(contrast_levels(by))
    }

    /// The image that `4 * width * height` bytes spell out, four to a pixel in
    /// the order red, green, blue, alpha.
    pub open spec fn from_bytes(width: nat, height: nat, bytes: Seq<u8>) -> Raster {
        Raster {
            width,
            height,
            pixels: Seq::new(
                width * height,
                |k: int|
                    Pixel {
                        r: bytes[4 * k],
                        g: bytes[4 * k + 1],
                        b: bytes[4 * k + 2],
                        a: bytes[4 * k + 3],
                    },
            ),
        }
    }

    /// The bytes that spell the image out; see [`Raster::from_bytes`].
    pub open spec fn to_bytes(self) -> Seq<u8> {
        Seq::new(4 * self.pixels.len(), |n: int| self.pixels[n / 4].channel(n % 4))
    }
}

/// What the gray rendering of RGBA bytes holds, two bytes to a pixel: the luma
/// of the three colors, then the alpha as it was.
pub open spec fn luma_alpha_bytes(rgba: Seq<u8>) -> Seq<u8> {
    Seq::new(
        rgba.len() / 2,
        |n: int|
            {
                let k = n / 2;
                if n % 2 == 0 {
                    luma(rgba[4 * k], rgba[4 * k + 1], rgba[4 * k + 2]) as u8
                } else {
                    rgba[4 * k + 3]
                }
            },
    )
}

} // verus!
