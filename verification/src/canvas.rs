//! The image that a receipt is rendered into, made by the `image` crate.
//!
//! The RGB image is held in a private field of `ReceiptImage`; the names
//! below describe its size and its pixels.
use vstd::prelude::*;

use image::{ImageBuffer, Rgb, RgbImage};

verus! {

/// An RGB image (an `image::RgbImage`) holding a rendered receipt.
#[verifier::external_body]
pub struct ReceiptImage {
    image: RgbImage,
}

/// The pixels of an image as (red, green, blue) triples, row by row.
pub uninterp spec fn image_pixels(image: ReceiptImage) -> Seq<(u8, u8, u8)>;

/// The (width, height) that an image was made with.
pub uninterp spec fn image_size(image: ReceiptImage) -> (u32, u32);

/// Calls `ImageBuffer::from_pixel`, which makes a `width` x `height` image
/// (a zeroed buffer of `3 * width * height` bytes) and sets every pixel to the
/// given colour. Trusted: the image has that size and `width * height` pixels,
/// all of that colour. `from_pixel` panics when `3 * width * height`
/// overflows `usize`, and the buffer's allocation when it exceeds
/// `isize::MAX` bytes; the precondition rules both out.
#[verifier::external_body]
pub(crate) fn filled_image(width: u32, height: u32, red: u8, green: u8, blue: u8) -> (image: ReceiptImage)
    requires
        3 * width * height <= isize::MAX,
    ensures
        image_size(image) == (width, height),
        image_pixels(image) == Seq::new((width * height) as nat, |k: int| (red, green, blue)),
{
    ReceiptImage { image: ImageBuffer::from_pixel(width, height, Rgb([red, green, blue])) }
}

/// Calls `ImageBuffer::width`. Trusted: it returns the width the image was made with.
#[verifier::external_body]
fn image_width(image: &ReceiptImage) -> (width: u32)
    ensures
        width == image_size(*image).0,
{
    image.image.width()
}

/// Calls `ImageBuffer::height`. Trusted: it returns the height the image was made with.
#[verifier::external_body]
fn image_height(image: &ReceiptImage) -> (height: u32)
    ensures
        height == image_size(*image).1,
{
    image.image.height()
}

/// Calls `ImageBuffer::get_pixel`, which reads the three bytes at
/// `3 * (y * width + x)` and panics outside the image. Trusted: it returns
/// pixel `y * width + x`.
#[verifier::external_body]
fn image_pixel(image: &ReceiptImage, x: u32, y: u32) -> (pixel: (u8, u8, u8))
    requires
        x < image_size(*image).0,
        y < image_size(*image).1,
    ensures
        pixel == image_pixels(*image)[y * image_size(*image).0 + x],
{
    let Rgb([red, green, blue]) = *image.image.get_pixel(x, y);
    (red, green, blue)
}

/// The bytes of a row-major RGB pixel buffer: red, green and blue of each
/// pixel in turn.
pub open spec fn pixel_bytes(pixels: Seq<(u8, u8, u8)>) -> Seq<u8> {
    Seq::new(
        3 * pixels.len(),
        |k: int|
            {
                let p = pixels[k / 3];
                if k % 3 == 0 {
                    p.0
                } else if k % 3 == 1 {
                    p.1
                } else {
                    p.2
                }
            },
    )
}

/// Calls `ImageBuffer::into_raw`, which hands back the image's buffer: for
/// an image made by `from_pixel`, exactly three bytes per pixel, row by row.
/// Trusted: the bytes are the channels of the image's pixels.
#[verifier::external_body]
fn image_into_raw(image: ReceiptImage) -> (bytes: Vec<u8>)
    ensures
        bytes@ == pixel_bytes(image_pixels(image)),
{
    image.image.into_raw()
}

impl ReceiptImage {
    /// The RGB bytes of the image, row by row (an `image::RgbImage` can be
    /// made again from them with `ImageBuffer::from_raw`).
    pub fn into_raw(self) -> (bytes: Vec<u8>)
        ensures
            bytes@ == pixel_bytes(image_pixels(self)),
    {
        image_into_raw(self)
    }

    /// Width in pixels.
    pub fn width(&self) -> (width: u32)
        ensures
            width == image_size(*self).0,
    {
        image_width(self)
    }

    /// Height in pixels.
    pub fn height(&self) -> (height: u32)
        ensures
            height == image_size(*self).1,
    {
        image_height(self)
    }

    /// The (red, green, blue) pixel in column `x` of row `y`.
    pub fn pixel(&self, x: u32, y: u32) -> (pixel: (u8, u8, u8))
        requires
            x < image_size(*self).0,
            y < image_size(*self).1,
        ensures
            pixel == image_pixels(*self)[y * image_size(*self).0 + x],
    {
        image_pixel(self, x, y)
    }
}

} // verus!
