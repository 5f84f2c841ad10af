//! The gray rendering, which the `image` crate computes.

use vstd::prelude::*;
use crate::raster::luma_alpha_bytes;

verus! {

/// Renders 8-bit RGBA pixels in gray with `image::DynamicImage::grayscale` and
/// hands back the luma-alpha buffer it produced.
///
/// Taken on trust from that crate: for an RGBA image with at least one pixel
/// `grayscale` gives one luma-alpha pixel per pixel, in the same order; the
/// luma is `(2126 r + 7152 g + 722 b) / 10000` in whole numbers and the alpha
/// is carried over unchanged. An image without pixels is kept away from it:
/// its walk over the pixels steps into a row that has no columns.
#[verifier::external_body]
pub(crate) fn luma_alpha(width: u32, height: u32, rgba: Vec<u8>) -> (out: Vec<u8>)
    requires
        width > 0,
        height > 0,
        rgba@.len() == 4 * width * height,
    ensures
        out@ == luma_alpha_bytes(rgba@),
{
    let buffer = image::RgbaImage::from_raw(width, height, rgba).expect("four bytes a pixel");
    image::DynamicImage::ImageRgba8(buffer).grayscale().into_luma_alpha8().into_raw()
}

} // verus!
