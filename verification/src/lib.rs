//! An in-memory image editor: one RGBA raster, edited by a chain of validated
//! transforms.
//!
//! [`ImageProcessor`] owns a [`RasterImage`] and offers crop, brightness,
//! contrast, grayscale, inversion and overlay. Every operation is stated
//! against the mathematical picture of the image, a [`Raster`]: what a
//! transform leaves behind is given pixel by pixel, and an operation that is
//! refused leaves the image as it was. The module [`laws`] holds what follows
//! for every image: an inversion undoes itself, a factor of one changes
//! nothing, an opaque overlay replaces exactly what it covers.
//!
//! Brightness and contrast take a [`Factor`], an exact binary fraction, and
//! compute without rounding until the last step, which rounds down. Every
//! finite single-precision number is such a fraction; [`Factor::from_bits`]
//! reads one from its bit pattern.
//!
//! Decoding and encoding of files, rotation and blurring are not part of this
//! crate. Their results come in as plain pixel data, through
//! [`ImageProcessor::new`] and [`ImageProcessor::replace_pixels`].

mod arith;
pub mod buffer;
pub mod error;
pub mod factor;
mod gray;
pub mod laws;
pub mod pixel;
pub mod processor;
pub mod raster;

pub use buffer::RasterImage;
pub use error::ImageError;
pub use factor::Factor;
pub use pixel::Pixel;
pub use processor::ImageProcessor;
pub use raster::Raster;
