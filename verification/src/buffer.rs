//! The image as it is held in memory.

use vstd::prelude::*;
use crate::arith::{lemma_grid_bound, lemma_grid_index};
use crate::gray::luma_alpha;
use crate::pixel::Pixel;
use crate::raster::{luma_alpha_bytes, Raster};

verus! {

/// An owned grid of RGBA pixels. Its view is the [`Raster`] it holds, which is
/// always well formed.
#[derive(Debug)]
pub struct RasterImage {
    width: u32,
    height: u32,
    pixels: Vec<Pixel>,
}

impl View for RasterImage {
    type V = Raster;

    closed spec fn view(&self) -> Raster {
        Raster { width: self.width as nat, height: self.height as nat, pixels: self.pixels@ }
    }
}

impl RasterImage {
    /// Every image holds a well-formed raster.
    #[verifier::type_invariant]
    pub open spec fn sized(&self) -> bool {
        self@.well_formed()
    }

    /// Builds the image that `data` spells out, four bytes to a pixel, row
    /// after row. There is an image exactly when `data` has four bytes for
    /// every cell and no more.
    pub fn from_raw(width: u32, height: u32, data: Vec<u8>) -> (out: Option<RasterImage>)
        ensures
            out is Some <==> data@.len() == 4 * width * height,
            out matches Some(image) ==> {
                &&& image@ == Raster::from_bytes(width as nat, height as nat, data@)
                &&& image@.well_formed()
            },
    {
        assert(width * height <= 0xffff_ffff * 0xffff_ffff) by (nonlinear_arith)
            requires 0 <= width <= 0xffff_ffff, 0 <= height <= 0xffff_ffff;
        assert(4 * width * height == 4 * (width * height)) by (nonlinear_arith);
        let cells: u64 = width as u64 * height as u64;
        let len: u64 = data.len() as u64;
        if len % 4 != 0 || len / 4 != cells {
            return None;
        }
        let count: usize = data.len() / 4;
        let mut pixels: Vec<Pixel> = Vec::with_capacity(count);
        let mut k: usize = 0;
        while k < count
            invariant
                k <= count,
                data@.len() == 4 * count,
                4 * count <= usize::MAX,
                pixels@.len() == k,
                forall|i: int| 0 <= i < k ==> pixels@[i] == (Pixel {
                    r: data@[4 * i],
                    g: data@[4 * i + 1],
                    b: data@[4 * i + 2],
                    a: data@[4 * i + 3],
                }),
            decreases count - k,
        {
            let at: usize = 4 * k;
            pixels.push(Pixel { r: data[at], g: data[at + 1], b: data[at + 2], a: data[at + 3] });
            k = k + 1;
        }
        let image = RasterImage { width, height, pixels };
        assert(image@.pixels =~= Raster::from_bytes(width as nat, height as nat, data@).pixels);
        Some(image)
    }

    /// The bytes that spell the image out, four to a pixel, row after row.
    pub fn to_raw(&self) -> (bytes: Vec<u8>)
        ensures
            bytes@ == self@.to_bytes(),
            bytes@.len() == 4 * self@.width * self@.height,
    {
        proof {
            use_type_invariant(self);
        }
        let mut bytes: Vec<u8> = Vec::new();
        let mut k: usize = 0;
        while k < self.pixels.len()
            invariant
                k <= self.pixels@.len(),
                bytes@.len() == 4 * k,
                forall|n: int| 0 <= n < 4 * k ==> bytes@[n] == self.pixels@[n / 4].channel(n % 4),
            decreases self.pixels@.len() - k,
        {
            let p: Pixel = self.pixels[k];
            bytes.push(p.r);
            bytes.push(p.g);
            bytes.push(p.b);
            bytes.push(p.a);
            k = k + 1;
        }
        assert(bytes@ =~= self@.to_bytes());
        assert(4 * (self@.width * self@.height) == 4 * self@.width * self@.height)
            by (nonlinear_arith);
        bytes
    }

    /// The number of columns.
    pub fn width(&self) -> (w: u32)
        ensures
            w == self@.width,
    {
        self.width
    }

    /// The number of rows.
    pub fn height(&self) -> (h: u32)
        ensures
            h == self@.height,
    {
        self.height
    }

    /// Whether the image has no pixels: no columns or no rows. There is then
    /// nothing for a filter to work on.
    pub fn is_empty(&self) -> (out: bool)
        ensures
            out == (self@.width == 0 || self@.height == 0),
            out == (self@.pixels.len() == 0),
    {
        proof {
            use_type_invariant(self);
            assert((self.width == 0 || self.height == 0) <==> self.width * self.height == 0)
                by (nonlinear_arith);
        }
        self.width == 0 || self.height == 0
    }

    /// The pixel in column `x` of row `y`, where the image has one.
    pub fn pixel(&self, x: u32, y: u32) -> (out: Option<Pixel>)
        ensures
            out == (if self@.contains(x as int, y as int) {
                Some(self@.at(x as int, y as int))
            } else {
                None
            }),
    {
        if x < self.width && y < self.height {
            proof {
                use_type_invariant(self);
                lemma_grid_bound(x as int, y as int, self.width as int, self.height as int);
                assert(self.pixels@.len() == self.pixels.len());
            }
            Some(self.pixels[y as usize * self.width as usize + x as usize])
        } else {
            None
        }
    }

    /// The part of the image inside the rectangle `width` by `height` whose top
    /// left corner is in column `x` of row `y`.
    pub(crate) fn crop(&self, x: u32, y: u32, width: u32, height: u32) -> (out: RasterImage)
        requires
            self@.holds(x as int, y as int, width as int, height as int),
        ensures
            out@ == self@.cropped(x as nat, y as nat, width as nat, height as nat),
    {
        proof {
            use_type_invariant(self);
        }
        let ghost goal = self@.cropped(x as nat, y as nat, width as nat, height as nat);
        let mut pixels: Vec<Pixel> = Vec::new();
        if width == 0 {
            assert(width * height == 0) by (nonlinear_arith)
                requires width == 0;
            let out = RasterImage { width, height, pixels };
            assert(out@.pixels =~= goal.pixels);
            return out;
        }
        let mut j: u32 = 0;
        while j < height
            invariant
                j <= height,
                width > 0,
                self@.holds(x as int, y as int, width as int, height as int),
                self.pixels@.len() == self.width * self.height,
                pixels@.len() == j * width,
                forall|k: int| 0 <= k < j * width ==> pixels@[k] == self@.at(
                    x + k % (width as int),
                    y + k / (width as int),
                ),
            decreases height - j,
        {
            proof {
                lemma_grid_bound(x as int, y + j, self.width as int, self.height as int);
                assert(self.pixels@.len() == self.pixels.len());
            }
            let from: usize = (y + j) as usize * self.width as usize + x as usize;
            let mut i: u32 = 0;
            while i < width
                invariant
                    i <= width,
                    j < height,
                    self@.holds(x as int, y as int, width as int, height as int),
                    self.pixels@.len() == self.width * self.height,
                    from == (y + j) * self.width + x,
                    from + width <= self.pixels@.len(),
                    pixels@.len() == j * width + i,
                    self.pixels@.len() <= usize::MAX,
                    forall|k: int| 0 <= k < j * width + i ==> pixels@[k] == self@.at(
                        x + k % (width as int),
                        y + k / (width as int),
                    ),
                decreases width - i,
            {
                proof {
                    lemma_grid_index(i as int, j as int, width as int);
                    assert(self.pixels@[from + i] == self@.at(x + i, y + j));
                }
                pixels.push(self.pixels[from + i as usize]);
                i = i + 1;
            }
            proof {
                assert(j * width + width == (j + 1) * width) by (nonlinear_arith);
            }
            j = j + 1;
        }
        proof {
            assert(height * width == width * height) by (nonlinear_arith);
        }
        let out = RasterImage { width, height, pixels };
        assert(out@.pixels =~= goal.pixels);
        out
    }

    /// The image with `top` laid on it, top left corner in column `x` of row `y`.
    pub(crate) fn overlay(&self, top: &RasterImage, x: u32, y: u32) -> (out: RasterImage)
        requires
            self@.holds(x as int, y as int, top@.width as int, top@.height as int),
        ensures
            out@ == self@.overlaid(top@, x as nat, y as nat),
    {
        proof {
            use_type_invariant(self);
            use_type_invariant(top);
            assert(top.pixels@.len() == top.pixels.len());
        }
        let mut pixels: Vec<Pixel> = Vec::with_capacity(self.pixels.len());
        let mut j: u32 = 0;
        while j < self.height
            invariant
                j <= self.height,
                self@.holds(x as int, y as int, top@.width as int, top@.height as int),
                self.pixels@.len() == self.width * self.height,
                self.pixels@.len() <= usize::MAX,
                top.pixels@.len() == top.width * top.height,
                top.pixels@.len() <= usize::MAX,
                pixels@.len() == j * self.width,
                forall|k: int| 0 <= k < j * self.width ==> pixels@[k] == self@.overlaid_at(
                    top@,
                    x as nat,
                    y as nat,
                    k % (self.width as int),
                    k / (self.width as int),
                ),
            decreases self.height - j,
        {
            let mut i: u32 = 0;
            while i < self.width
                invariant
                    i <= self.width,
                    j < self.height,
                    self@.holds(x as int, y as int, top@.width as int, top@.height as int),
                    self.pixels@.len() == self.width * self.height,
                    self.pixels@.len() <= usize::MAX,
                    top.pixels@.len() == top.width * top.height,
                    top.pixels@.len() <= usize::MAX,
                    pixels@.len() == j * self.width + i,
                    forall|k: int| 0 <= k < j * self.width + i ==> pixels@[k] == self@.overlaid_at(
                        top@,
                        x as nat,
                        y as nat,
                        k % (self.width as int),
                        k / (self.width as int),
                    ),
                decreases self.width - i,
            {
                proof {
                    lemma_grid_index(i as int, j as int, self.width as int);
                    lemma_grid_bound(i as int, j as int, self.width as int, self.height as int);
                }
                let below: Pixel = self.pixels[j as usize * self.width as usize + i as usize];
                let shown: Pixel = if x <= i && i - x < top.width && y <= j && j - y < top.height {
                    proof {
                        lemma_grid_bound(i - x, j - y, top.width as int, top.height as int);
                    }
                    let row: usize = (j - y) as usize * top.width as usize;
                    below.cover_with(top.pixels[row + (i - x) as usize])
                } else {
                    below
                };
                pixels.push(shown);
                i = i + 1;
            }
            proof {
                assert(j * self.width + self.width == (j + 1) * self.width) by (nonlinear_arith);
            }
            j = j + 1;
        }
        proof {
            assert(self.height * self.width == self.width * self.height) by (nonlinear_arith);
        }
        let out = RasterImage { width: self.width, height: self.height, pixels };
        assert(out@.pixels =~= self@.overlaid(top@, x as nat, y as nat).pixels);
        out
    }

    /// The color negative of the image.
    pub(crate) fn invert(&self) -> (out: RasterImage)
        ensures
            out@ == self@.inverted(),
    {
        proof {
            use_type_invariant(self);
        }
        let mut pixels: Vec<Pixel> = Vec::with_capacity(self.pixels.len());
        let mut k: usize = 0;
        while k < self.pixels.len()
            invariant
                k <= self.pixels@.len(),
                pixels@.len() == k,
                forall|n: int| 0 <= n < k ==> pixels@[n] == self.pixels@[n].inverted(),
            decreases self.pixels@.len() - k,
        {
            pixels.push(self.pixels[k].invert());
            k = k + 1;
        }
        let out = RasterImage { width: self.width, height: self.height, pixels };
        assert(out@.pixels =~= self@.inverted().pixels);
        out
    }

    /// The image with every color channel looked up in `table`.
    pub(crate) fn recolor(&self, table: &Vec<u8>) -> (out: RasterImage)
        requires
            table@.len() == 256,
        ensures
            out@ == self@.recolored(table@),
    {
        proof {
            use_type_invariant(self);
        }
        let mut pixels: Vec<Pixel> = Vec::with_capacity(self.pixels.len());
        let mut k: usize = 0;
        while k < self.pixels.len()
            invariant
                k <= self.pixels@.len(),
                table@.len() == 256,
                pixels@.len() == k,
                forall|n: int| 0 <= n < k ==> pixels@[n] == self.pixels@[n].recolored(table@),
            decreases self.pixels@.len() - k,
        {
            pixels.push(self.pixels[k].recolor(table));
            k = k + 1;
        }
        let out = RasterImage { width: self.width, height: self.height, pixels };
        assert(out@.pixels =~= self@.recolored(table@).pixels);
        out
    }

    /// The image in shades of gray.
    pub(crate) fn gray(&self) -> (out: RasterImage)
        ensures
            out@ == self@.grayed(),
    {
        proof {
            use_type_invariant(self);
        }
        if self.is_empty() {
            let out = RasterImage { width: self.width, height: self.height, pixels: Vec::new() };
            assert(out@.pixels =~= self@.grayed().pixels);
            return out;
        }
        let rendered: Vec<u8> = luma_alpha(self.width, self.height, self.to_raw());
        proof {
            assert(rendered@.len() == rendered.len());
        }
        let mut pixels: Vec<Pixel> = Vec::with_capacity(self.pixels.len());
        let mut k: usize = 0;
        while k < self.pixels.len()
            invariant
                k <= self.pixels@.len(),
                rendered@ == luma_alpha_bytes(self@.to_bytes()),
                rendered@.len() == 2 * self.pixels@.len(),
                rendered@.len() <= usize::MAX,
                pixels@.len() == k,
                forall|n: int| 0 <= n < k ==> pixels@[n] == self.pixels@[n].grayed(),
            decreases self.pixels@.len() - k,
        {
            let level: u8 = rendered[2 * k];
            let alpha: u8 = rendered[2 * k + 1];
            pixels.push(Pixel { r: level, g: level, b: level, a: alpha });
            k = k + 1;
        }
        let out = RasterImage { width: self.width, height: self.height, pixels };
        assert(out@.pixels =~= self@.grayed().pixels);
        out
    }
}

} // verus!
