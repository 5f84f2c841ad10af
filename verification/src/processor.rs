//! The editor: one image, and the operations that replace it.

use vstd::prelude::*;
use crate::buffer::RasterImage;
use crate::error::ImageError;
use crate::factor::Factor;
use crate::raster::Raster;

verus! {

/// An editor that owns one image. Each operation either replaces the image by
/// the transformed one and hands the editor back, so that calls can be chained,
/// or fails and leaves the image as it was.
pub struct ImageProcessor {
    image: RasterImage,
}

impl View for ImageProcessor {
    type V = Raster;

    closed spec fn view(&self) -> Raster {
        self.image@
    }
}

impl ImageProcessor {
    /// Takes up freshly decoded pixels, `data` holding four bytes for each
    /// pixel, row after row. A loaded image has at least one pixel, and
    /// `data` must spell out exactly `width * height` of them.
    pub fn new(width: u32, height: u32, data: Vec<u8>) -> (out: Result<ImageProcessor, ImageError>)
        ensures
            match out {
                Ok(editor) => {
                    &&& width > 0 && height > 0
                    &&& data@.len() == 4 * width * height
                    &&& editor@ == Raster::from_bytes(width as nat, height as nat, data@)
                    &&& editor@.well_formed()
                },
                Err(e) => {
                    &&& e is LoadError
                    &&& if width == 0 || height == 0 {
                        e.text() == "Image has no pixels"@
                    } else {
                        data@.len() != 4 * width * height && e.text()
                            == "Pixel data does not match the image dimensions"@
                    }
                },
            },
    {
        if width == 0 || height == 0 {
            return Err(ImageError::LoadError("Image has no pixels".to_string()));
        }
        match RasterImage::from_raw(width, height, data) {
            Some(image) => Ok(ImageProcessor { image }),
            None => Err(
                ImageError::LoadError("Pixel data does not match the image dimensions".to_string()),
            ),
        }
    }

    /// An editor for an image that is already in memory.
    pub fn from_dynamic_image(image: RasterImage) -> (out: ImageProcessor)
        ensures
            out@ == image@,
            out@.well_formed(),
    {
        proof {
            use_type_invariant(&image);
        }
        ImageProcessor { image }
    }

    /// The image as it stands, for reading.
    pub fn get_image(&self) -> (image: &RasterImage)
        ensures
            image@ == self@,
            image@.well_formed(),
    {
        proof {
            use_type_invariant(&self.image);
        }
        &self.image
    }

    /// Puts new pixels in place of the old ones on a canvas of the same size;
    /// `data` holds four bytes for each pixel, row after row. This is how the
    /// result of a filter that was run elsewhere comes back into the editor.
    /// Data for a canvas of another size is refused.
    pub fn replace_pixels(&mut self, data: Vec<u8>) -> (out: Result<&mut Self, ImageError>)
        ensures
            match out {
                Ok(editor) => {
                    &&& data@.len() == 4 * old(self)@.width * old(self)@.height
                    &&& editor@ == Raster::from_bytes(old(self)@.width, old(self)@.height, data@)
                    &&& *final(self) == *final(editor)
                },
                Err(e) => {
                    &&& data@.len() != 4 * old(self)@.width * old(self)@.height
                    &&& *final(self) == *old(self)
                    &&& e is OperationError
                    &&& e.text() == "Pixel data does not match the image dimensions"@
                },
            },
    {
        match RasterImage::from_raw(self.image.width(), self.image.height(), data) {
            Some(image) => {
                self.image = image;
                Ok(self)
            },
            None => Err(
                ImageError::OperationError(
                    "Pixel data does not match the image dimensions".to_string(),
                ),
            ),
        }
    }

    /// Cuts the image down to the rectangle `width` by `height` whose top left
    /// corner is in column `x` of row `y`. A rectangle that reaches beyond the
    /// image is refused. One without pixels is accepted and leaves an image
    /// without pixels.
    pub fn crop(&mut self, x: u32, y: u32, width: u32, height: u32) -> (out: Result<
        &mut Self,
        ImageError,
    >)
        ensures
            match out {
                Ok(editor) => {
                    &&& old(self)@.holds(x as int, y as int, width as int, height as int)
                    &&& editor@ == old(self)@.cropped(
                        x as nat,
                        y as nat,
                        width as nat,
                        height as nat,
                    )
                    &&& *final(self) == *final(editor)
                },
                Err(e) => {
                    &&& !old(self)@.holds(x as int, y as int, width as int, height as int)
                    &&& *final(self) == *old(self)
                    &&& e is OperationError
                    &&& e.text() == "Crop dimensions exceed image bounds"@
                },
            },
    {
        if x as u64 + width as u64 > self.image.width() as u64 || y as u64 + height as u64
            > self.image.height() as u64 {
            return Err(
                ImageError::OperationError("Crop dimensions exceed image bounds".to_string()),
            );
        }
        self.image = self.image.crop(x, y, width, height);
        Ok(self)
    }

    /// Multiplies red, green and blue of every pixel by `factor`, rounding down
    /// and keeping each within 0 to 255. Alpha is left alone. Never fails.
    ///
    /// The product is exact before it is rounded down: a factor a hair below
    /// nine tenths takes 10 down to 8, not to 9.
    pub fn adjust_brightness(&mut self, factor: Factor) -> (out: Result<&mut Self, ImageError>)
        ensures
            match out {
                Ok(editor) => {
                    &&& editor@ == old(self)@.brightened(factor)
                    &&& *final(self) == *final(editor)
                },
                Err(_) => false,
            },
    {
        let table: Vec<u8> = factor.brightness_table();
        self.image = self.image.recolor(&table);
        Ok(self)
    }

    /// Stretches red, green and blue of every pixel about mid-gray by `factor`,
    /// rounding down and keeping each within 0 to 255. Alpha is left alone.
    /// Never fails.
    pub fn adjust_contrast(&mut self, factor: Factor) -> (out: Result<&mut Self, ImageError>)
        ensures
            match out {
                Ok(editor) => {
                    &&& editor@ == old(self)@.contrasted(factor)
                    &&& *final(self) == *final(editor)
                },
                Err(_) => false,
            },
    {
        let table: Vec<u8> = factor.contrast_table();
        self.image = self.image.recolor(&table);
        Ok(self)
    }

    /// Turns the image to shades of gray: red, green and blue of every pixel
    /// become its luma, alpha is left alone. Never fails.
    pub fn grayscale(&mut self) -> (out: Result<&mut Self, ImageError>)
        ensures
            match out {
                Ok(editor) => editor@ == old(self)@.grayed() && *final(self) == *final(editor),
                Err(_) => false,
            },
    {
        self.image = self.image.gray();
        Ok(self)
    }

    /// Replaces red, green and blue of every pixel by `255 - value`. Alpha is
    /// left alone. Never fails.
    pub fn invert(&mut self) -> (out: Result<&mut Self, ImageError>)
        ensures
            match out {
                Ok(editor) => editor@ == old(self)@.inverted() && *final(self) == *final(editor),
                Err(_) => false,
            },
    {
        self.image = self.image.invert();
        Ok(self)
    }

    /// Lays `overlay` on the image with its top left corner in column `x` of
    /// row `y`. An overlay that reaches beyond the image is refused.
    ///
    /// Under a transparent overlay pixel the image stays; an opaque one takes
    /// its place; any other is blended in by its alpha, and the blended pixel
    /// is made opaque.
    pub fn overlay_image(&mut self, overlay: &RasterImage, x: u32, y: u32) -> (out: Result<
        &mut Self,
        ImageError,
    >)
        ensures
            match out {
                Ok(editor) => {
                    &&& old(self)@.holds(
                        x as int,
                        y as int,
                        overlay@.width as int,
                        overlay@.height as int,
                    )
                    &&& editor@ == old(self)@.overlaid(overlay@, x as nat, y as nat)
                    &&& *final(self) == *final(editor)
                },
                Err(e) => {
                    &&& !old(self)@.holds(
                        x as int,
                        y as int,
                        overlay@.width as int,
                        overlay@.height as int,
                    )
                    &&& *final(self) == *old(self)
                    &&& e is OperationError
                    &&& e.text() == "Overlay image exceeds base image bounds"@
                },
            },
    {
        if x as u64 + overlay.width() as u64 > self.image.width() as u64 || y as u64
            + overlay.height() as u64 > self.image.height() as u64 {
            return Err(
                ImageError::OperationError("Overlay image exceeds base image bounds".to_string()),
            );
        }
        self.image = self.image.overlay(overlay, x, y);
        Ok(self)
    }
}

} // verus!
