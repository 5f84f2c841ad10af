//! One RGBA pixel and the per-pixel arithmetic of the transforms.

use vstd::prelude::*;

verus! {

/// Four 8-bit channels: red, green, blue and alpha (0 is transparent, 255 opaque).
#[derive(Clone, Copy, Debug, PartialEq, Eq, Structural)]
pub struct Pixel {
    pub r: u8,
    pub g: u8,
    pub b: u8,
    pub a: u8,
}

/// A color channel of `base` moved toward `top` by the weight `alpha / 255`:
/// `((255 - alpha) * base + alpha * top) / 255`, rounded down.
pub open spec fn blended(base: u8, top: u8, alpha: u8) -> int {
    ((255 - alpha) * base + alpha * top) / 255
}

/// Perceptual brightness of a color: `(2126 r + 7152 g + 722 b) / 10000`, rounded down.
pub open spec fn luma(r: u8, g: u8, b: u8) -> int {
    (2126 * r + 7152 * g + 722 * b) / 10000
}

impl Pixel {
    /// Channel `c` in the order red, green, blue, alpha.
    pub open spec fn channel(self, c: int) -> u8 {
        if c == 0 {
            self.r
        } else if c == 1 {
            self.g
        } else if c == 2 {
            self.b
        } else {
            self.a
        }
    }

    /// The color negative: each of red, green and blue becomes `255 - value`.
    pub open spec fn inverted(self) -> Pixel {
        Pixel {
            r: (255 - self.r) as u8,
            g: (255 - self.g) as u8,
            b: (255 - self.b) as u8,
            a: self.a,
        }
    }

    /// What is seen where `top` is laid over `self`.
    ///
    /// A transparent `top` leaves `self`; an opaque one replaces it. Anything in
    /// between blends the three colors by `top.a / 255` and makes the result
    /// opaque, whatever the alpha of `self` was.
    pub open spec fn covered_by(self, top: Pixel) -> Pixel {
        if top.a == 0 {
            self
        } else if top.a == 255 {
            top
        } else {
            Pixel {
                r: blended(self.r, top.r, top.a) as u8,
                g: blended(self.g, top.g, top.a) as u8,
                b: blended(self.b, top.b, top.a) as u8,
                a: 255,
            }
        }
    }

    /// The gray pixel that stands for an amount of light, with the alpha given.
    pub open spec fn gray(level: u8, alpha: u8) -> Pixel {
        Pixel { r: level, g: level, b: level, a: alpha }
    }

    /// The pixel in shades of gray: all three colors become its luma, alpha stays.
    pub open spec fn grayed(self) -> Pixel {
        Pixel::gray(luma(self.r, self.g, self.b) as u8, self.a)
    }

    /// The pixel with each color looked up in `table`, alpha untouched.
    pub open spec fn recolored(self, table: Seq<u8>) -> Pixel {
        Pixel {
            r: table[self.r as int],
            g: table[self.g as int],
            b: table[self.b as int],
            a: self.a,
        }
    }

    /// Computes [`Pixel::inverted`].
    pub fn invert(self) -> (out: Pixel)
        ensures
            out == self.inverted(),
    {
        Pixel { r: 255 - self.r, g: 255 - self.g, b: 255 - self.b, a: self.a }
    }

    /// Computes [`Pixel::covered_by`].
    pub fn cover_with(self, top: Pixel) -> (out: Pixel)
        ensures
            out == self.covered_by(top),
    {
        if top.a == 0 {
            self
        } else if top.a == 255 {
            top
        } else {
            Pixel {
                r: blend(self.r, top.r, top.a),
                g: blend(self.g, top.g, top.a),
                b: blend(self.b, top.b, top.a),
                a: 255,
            }
        }
    }

    /// Computes [`Pixel::recolored`].
    pub(crate) fn recolor(self, table: &Vec<u8>) -> (out: Pixel)
        requires
            table@.len() == 256,
        ensures
            out == self.recolored(table@),
    {
        Pixel {
            r: table[self.r as usize],
            g: table[self.g as usize],
            b: table[self.b as usize],
            a: self.a,
        }
    }
}

/// The weighted mean never leaves the range of a channel.
pub proof fn lemma_blended_in_range(base: u8, top: u8, alpha: u8)
    ensures
        0 <= blended(base, top, alpha) <= 255,
        base <= top ==> base <= blended(base, top, alpha) <= top,
        top <= base ==> top <= blended(base, top, alpha) <= base,
{
    let w: int = 255 - alpha;
    assert(w * base + alpha * top <= 255 * 255 && 0 <= w * base + alpha * top) by (nonlinear_arith)
        requires
            0 <= w <= 255,
            0 <= base <= 255,
            0 <= alpha <= 255,
            0 <= top <= 255,
            w + alpha == 255,
    ;
    if base <= top {
        assert(255 * base <= w * base + alpha * top <= 255 * top) by (nonlinear_arith)
            requires 0 <= w, 0 <= alpha, w + alpha == 255, base <= top;
    }
    if top <= base {
        assert(255 * top <= w * base + alpha * top <= 255 * base) by (nonlinear_arith)
            requires 0 <= w, 0 <= alpha, w + alpha == 255, top <= base;
    }
}

/// Computes [`blended`].
pub fn blend(base: u8, top: u8, alpha: u8) -> (out: u8)
    ensures
        out == blended(base, top, alpha),
{
    proof {
        lemma_blended_in_range(base, top, alpha);
    }
    let keep: u32 = 255 - alpha as u32;
    assert(keep * base + alpha * top <= 255 * 255) by (nonlinear_arith)
        requires
            0 <= keep <= 255,
            0 <= base <= 255,
            0 <= alpha <= 255,
            0 <= top <= 255,
            keep + alpha == 255,
    ;
    assert(keep * base <= 255 * 255) by (nonlinear_arith)
        requires 0 <= keep <= 255, 0 <= base <= 255;
    assert(alpha * top <= 255 * 255) by (nonlinear_arith)
        requires 0 <= alpha <= 255, 0 <= top <= 255;
    let sum: u32 = keep * base as u32 + alpha as u32 * top as u32;
    (sum / 255) as u8
}

} // verus!
