//! What holds of the transforms whatever the image: the facts a caller may
//! rely on without looking at a single pixel.

use vstd::prelude::*;
use crate::arith::{lemma_floor_is, lemma_grid_bound, lemma_grid_cell, lemma_grid_index};
use crate::factor::{brightened, brightness_levels, clamped, contrast_levels, contrasted, Factor};
use crate::pixel::{luma, Pixel};
use crate::raster::Raster;

verus! {

/// A painted image shows in every cell what was painted there.
pub proof fn lemma_painted_at(
    width: nat,
    height: nat,
    paint: spec_fn(int, int) -> Pixel,
    i: int,
    j: int,
)
    requires
        0 <= i < width,
        0 <= j < height,
    ensures
        Raster::painted(width, height, paint).well_formed(),
        Raster::painted(width, height, paint).at(i, j) == paint(i, j),
{
    lemma_grid_index(i, j, width as int);
    lemma_grid_bound(i, j, width as int, height as int);
}

/// Two well-formed images of one size that agree in every cell are the same image.
pub proof fn lemma_equal_by_cells(a: Raster, b: Raster)
    requires
        a.well_formed(),
        b.well_formed(),
        a.width == b.width,
        a.height == b.height,
        forall|i: int, j: int| a.contains(i, j) ==> a.at(i, j) == b.at(i, j),
    ensures
        a == b,
{
    assert forall|k: int| 0 <= k < a.pixels.len() implies a.pixels[k] == b.pixels[k] by {
        lemma_grid_cell(k, a.width as int, a.height as int);
        let i = k % (a.width as int);
        let j = k / (a.width as int);
        assert(a.contains(i, j));
        assert(a.at(i, j) == b.at(i, j));
    }
    assert(a.pixels =~= b.pixels);
}

/// A crop has the size asked for, and its cell `(i, j)` is cell `(x + i, y + j)`
/// of the image it was cut from; so its top left pixel is the pixel at `(x, y)`.
pub proof fn lemma_crop_cells(
    image: Raster,
    x: nat,
    y: nat,
    width: nat,
    height: nat,
    i: int,
    j: int,
)
    requires
        0 <= i < width,
        0 <= j < height,
    ensures
        image.cropped(x, y, width, height).width == width,
        image.cropped(x, y, width, height).height == height,
        image.cropped(x, y, width, height).well_formed(),
        image.cropped(x, y, width, height).at(i, j) == image.at(x + i, y + j),
{
    lemma_painted_at(width, height, |i: int, j: int| image.at(x + i, y + j), i, j);
}

/// Cutting out the whole image changes nothing.
pub proof fn lemma_crop_whole(image: Raster)
    requires
        image.well_formed(),
    ensures
        image.cropped(0, 0, image.width, image.height) == image,
{
    let whole = image.cropped(0, 0, image.width, image.height);
    assert forall|i: int, j: int| whole.contains(i, j) implies whole.at(i, j) == image.at(i, j) by {
        lemma_crop_cells(image, 0, 0, image.width, image.height, i, j);
    }
    lemma_equal_by_cells(whole, image);
}

/// Spelling an image out in bytes and reading the bytes back gives the image.
pub proof fn lemma_bytes_read_back(image: Raster)
    requires
        image.well_formed(),
    ensures
        image.to_bytes().len() == 4 * image.width * image.height,
        Raster::from_bytes(image.width, image.height, image.to_bytes()) == image,
{
    let back = Raster::from_bytes(image.width, image.height, image.to_bytes());
    assert(4 * (image.width * image.height) == 4 * image.width * image.height) by (nonlinear_arith);
    assert forall|k: int| 0 <= k < image.pixels.len() implies back.pixels[k] == image.pixels[k] by {
        let p = image.pixels[k];
        assert(image.to_bytes()[4 * k] == p.channel(0));
        assert(image.to_bytes()[4 * k + 1] == p.channel(1));
        assert(image.to_bytes()[4 * k + 2] == p.channel(2));
        assert(image.to_bytes()[4 * k + 3] == p.channel(3));
    }
    assert(back.pixels =~= image.pixels);
}

/// Reading bytes as an image and spelling the image out gives the bytes.
pub proof fn lemma_bytes_spelled_back(width: nat, height: nat, bytes: Seq<u8>)
    requires
        bytes.len() == 4 * width * height,
    ensures
        Raster::from_bytes(width, height, bytes).well_formed(),
        Raster::from_bytes(width, height, bytes).to_bytes() == bytes,
{
    let image = Raster::from_bytes(width, height, bytes);
    assert(4 * (width * height) == 4 * width * height) by (nonlinear_arith);
    assert forall|n: int| 0 <= n < bytes.len() implies image.to_bytes()[n] == bytes[n] by {
        let k = n / 4;
        assert(image.pixels[k].channel(n % 4) == bytes[4 * k + n % 4]);
    }
    assert(image.to_bytes() =~= bytes);
}

/// A gray image stays as it is when it is turned gray again.
pub proof fn lemma_gray_twice(image: Raster)
    ensures
        image.grayed().grayed() == image.grayed(),
{
    let once = image.grayed();
    assert forall|k: int| 0 <= k < image.pixels.len() implies once.grayed().pixels[k]
        == once.pixels[k] by {
        let p = image.pixels[k];
        let level = luma(p.r, p.g, p.b);
        assert(0 <= level <= 255);
        assert(luma(level as u8, level as u8, level as u8) == level);
    }
    assert(once.grayed().pixels =~= once.pixels);
}

/// Inverting twice gives the image back, colors and alpha alike.
pub proof fn lemma_invert_twice(image: Raster)
    ensures
        image.inverted().inverted() == image,
{
    let twice = image.inverted().inverted();
    assert forall|k: int| 0 <= k < image.pixels.len() implies twice.pixels[k]
        == image.pixels[k] by {
        let p = image.pixels[k];
        assert(p.inverted().inverted() == p);
    }
    assert(twice.pixels =~= image.pixels);
}

/// Inverting leaves the size and every alpha as they were.
pub proof fn lemma_invert_keeps_alpha(image: Raster, k: int)
    requires
        0 <= k < image.pixels.len(),
    ensures
        image.inverted().width == image.width,
        image.inverted().height == image.height,
        image.inverted().pixels.len() == image.pixels.len(),
        image.inverted().pixels[k].a == image.pixels[k].a,
{
}

/// Scaling a channel by a whole number is multiplying by it, up to the clamp:
/// by one it stays, by two `10` becomes `20`, and nothing goes above 255.
pub proof fn lemma_brightened_by_whole(value: u8, by: Factor, n: int)
    requires
        by.is_whole(n),
    ensures
        brightened(value, by) == clamped(n * value),
        0 <= brightened(value, by) <= 255,
{
    lemma_denominator_positive(by);
    let d = by.denominator();
    assert(value * by.numerator() == (n * value) * d) by (nonlinear_arith)
        requires by.numerator() == n * d;
    lemma_floor_is(value * by.numerator(), d, n * value);
}

/// Stretching a channel by a whole number `n` gives `((2 value - 255) n + 255) / 2`,
/// up to the clamp: by one the channel stays, by zero it becomes 127.
pub proof fn lemma_contrasted_by_whole(value: u8, by: Factor, n: int)
    requires
        by.is_whole(n),
    ensures
        contrasted(value, by) == clamped(((2 * value - 255) * n + 255) / 2),
        n == 1 ==> contrasted(value, by) == value,
        n == 0 ==> contrasted(value, by) == 127,
{
    lemma_denominator_positive(by);
    let d = by.denominator();
    let top = (2 * value - 255) * n + 255;
    let q = top / 2;
    let r = top % 2;
    assert((2 * value - 255) * by.numerator() + 255 * d == q * (2 * d) + r * d) by (nonlinear_arith)
        requires by.numerator() == n * d, top == (2 * value - 255) * n + 255, top == 2 * q + r;
    assert(0 <= r * d < 2 * d) by (nonlinear_arith)
        requires 0 <= r <= 1, d > 0;
    lemma_floor_is((2 * value - 255) * by.numerator() + 255 * d, 2 * d, q);
    if n == 1 {
        assert((2 * value - 255) * 1 + 255 == 2 * value);
    }
    if n == 0 {
        assert((2 * value - 255) * 0 + 255 == 255);
    }
}

/// The denominator of a factor is a power of two, hence positive.
pub proof fn lemma_denominator_positive(by: Factor)
    ensures
        by.denominator() > 0,
{
    if by.exponent < 0 {
        vstd::arithmetic::power2::lemma_pow2_pos((-by.exponent) as nat);
    }
}

/// The single-precision patterns of zero, minus zero, one and two read as the
/// whole numbers they stand for.
pub proof fn lemma_small_whole_patterns()
    ensures
        Factor::of_bits(0x0000_0000) matches Some(f) && f.is_whole(0),
        Factor::of_bits(0x8000_0000) matches Some(f) && f.is_whole(0),
        Factor::of_bits(0x3f80_0000) matches Some(f) && f.is_whole(1),
        Factor::of_bits(0x4000_0000) matches Some(f) && f.is_whole(2),
{
    vstd::arithmetic::power2::lemma2_to64();
}

/// Looking colors up in a table leaves the size and every alpha as they were.
/// This is what brightness and contrast do to an image.
pub proof fn lemma_recolor_keeps_alpha(image: Raster, table: Seq<u8>, k: int)
    requires
        0 <= k < image.pixels.len(),
    ensures
        image.recolored(table).width == image.width,
        image.recolored(table).height == image.height,
        image.recolored(table).pixels.len() == image.pixels.len(),
        image.recolored(table).pixels[k].a == image.pixels[k].a,
{
}

/// Brightness by a factor that is one leaves the whole image as it was.
pub proof fn lemma_brightness_one(image: Raster, by: Factor)
    requires
        by.is_whole(1),
    ensures
        image.brightened(by) == image,
{
    let table = brightness_levels(by);
    assert forall|k: int| 0 <= k < image.pixels.len() implies image.brightened(by).pixels[k]
        == image.pixels[k] by {
        let p = image.pixels[k];
        lemma_brightened_by_whole(p.r, by, 1);
        lemma_brightened_by_whole(p.g, by, 1);
        lemma_brightened_by_whole(p.b, by, 1);
        assert(p.recolored(table) == p);
    }
    assert(image.brightened(by).pixels =~= image.pixels);
}

/// Brightness by a whole number multiplies every color by it, up to the clamp.
pub proof fn lemma_brightness_whole(image: Raster, by: Factor, n: int, k: int)
    requires
        by.is_whole(n),
        0 <= k < image.pixels.len(),
    ensures
        image.brightened(by).pixels[k] == (Pixel {
            r: clamped(n * image.pixels[k].r) as u8,
            g: clamped(n * image.pixels[k].g) as u8,
            b: clamped(n * image.pixels[k].b) as u8,
            a: image.pixels[k].a,
        }),
{
    let p = image.pixels[k];
    lemma_brightened_by_whole(p.r, by, n);
    lemma_brightened_by_whole(p.g, by, n);
    lemma_brightened_by_whole(p.b, by, n);
}

/// Contrast by a factor that is one leaves the whole image as it was.
pub proof fn lemma_contrast_one(image: Raster, by: Factor)
    requires
        by.is_whole(1),
    ensures
        image.contrasted(by) == image,
{
    let table = contrast_levels(by);
    assert forall|k: int| 0 <= k < image.pixels.len() implies image.contrasted(by).pixels[k]
        == image.pixels[k] by {
        let p = image.pixels[k];
        lemma_contrasted_by_whole(p.r, by, 1);
        lemma_contrasted_by_whole(p.g, by, 1);
        lemma_contrasted_by_whole(p.b, by, 1);
        assert(p.recolored(table) == p);
    }
    assert(image.contrasted(by).pixels =~= image.pixels);
}

/// Contrast by a factor that is zero turns every color to the mid-gray 127.
pub proof fn lemma_contrast_zero(image: Raster, by: Factor, k: int)
    requires
        by.is_whole(0),
        0 <= k < image.pixels.len(),
    ensures
        image.contrasted(by).pixels[k] == (Pixel { r: 127, g: 127, b: 127, a: image.pixels[k].a }),
{
    let p = image.pixels[k];
    lemma_contrasted_by_whole(p.r, by, 0);
    lemma_contrasted_by_whole(p.g, by, 0);
    lemma_contrasted_by_whole(p.b, by, 0);
}

/// An overlay keeps the size of the image, and every cell shows what
/// [`Raster::overlaid_at`] says: outside the overlay the image itself.
pub proof fn lemma_overlay_cells(image: Raster, top: Raster, x: nat, y: nat, i: int, j: int)
    requires
        image.contains(i, j),
    ensures
        image.overlaid(top, x, y).width == image.width,
        image.overlaid(top, x, y).height == image.height,
        image.overlaid(top, x, y).well_formed(),
        image.overlaid(top, x, y).at(i, j) == image.overlaid_at(top, x, y, i, j),
        !top.contains(i - x, j - y) ==> image.overlaid(top, x, y).at(i, j) == image.at(i, j),
{
    lemma_painted_at(
        image.width,
        image.height,
        |i: int, j: int| image.overlaid_at(top, x, y, i, j),
        i,
        j,
    );
}

/// An overlay without any transparency replaces exactly the cells it lies on:
/// there the image shows the overlay's pixel, alpha 255 with it, and everywhere
/// else it is as it was.
pub proof fn lemma_overlay_opaque(image: Raster, top: Raster, x: nat, y: nat, i: int, j: int)
    requires
        top.well_formed(),
        forall|k: int| 0 <= k < top.pixels.len() ==> top.pixels[k].a == 255,
        image.contains(i, j),
    ensures
        image.overlaid(top, x, y).at(i, j) == (if top.contains(i - x, j - y) {
            top.at(i - x, j - y)
        } else {
            image.at(i, j)
        }),
        top.contains(i - x, j - y) ==> image.overlaid(top, x, y).at(i, j).a == 255,
{
    lemma_overlay_cells(image, top, x, y, i, j);
    if top.contains(i - x, j - y) {
        lemma_grid_bound(i - x, j - y, top.width as int, top.height as int);
    }
}

/// An overlay that is transparent throughout leaves the image as it was.
pub proof fn lemma_overlay_transparent(image: Raster, top: Raster, x: nat, y: nat)
    requires
        image.well_formed(),
        top.well_formed(),
        forall|k: int| 0 <= k < top.pixels.len() ==> top.pixels[k].a == 0,
    ensures
        image.overlaid(top, x, y) == image,
{
    let after = image.overlaid(top, x, y);
    assert forall|i: int, j: int| after.contains(i, j) implies after.at(i, j) == image.at(i, j) by {
        lemma_overlay_cells(image, top, x, y, i, j);
        if top.contains(i - x, j - y) {
            lemma_grid_bound(i - x, j - y, top.width as int, top.height as int);
        }
    }
    lemma_equal_by_cells(after, image);
}

} // verus!
