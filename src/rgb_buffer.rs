//! The `image` crate's RGB pixel buffer, as this library relies on it.

use vstd::prelude::*;

verus! {

/// An `image::RgbImage`. Verus refuses a declaration of `image::ImageBuffer`
/// (its `Pixel` bound), so the buffer is held here, opaque, and every use of it
/// goes through the functions below.
#[verifier::external_body]
pub struct RgbBuffer {
    img: image::RgbImage,
}

/// The pixels that the buffer holds, by `(column, row)`; its domain is exactly
/// the positions inside the image's bounds.
pub uninterp spec fn rgb_pixels(b: RgbBuffer) -> Map<(u32, u32), [u8; 3]>;

/// The pixel positions of a `width` x `height` image.
pub open spec fn grid(width: int, height: int) -> Set<(u32, u32)> {
    Set::new(|p: (u32, u32)| p.0 < width && p.1 < height)
}

/// Relies on `image::ImageBuffer::new`: a `width` x `height` buffer whose every
/// subpixel is zero. It panics when `3 * width * height` overflows `usize`, and the
/// allocation fails beyond `isize::MAX` bytes.
#[verifier::external_body]
pub(crate) fn new_rgb_buffer(width: u32, height: u32) -> (r: RgbBuffer)
    requires
        3 * width * height <= isize::MAX,
    ensures
        rgb_pixels(r).dom() == grid(width as int, height as int),
        forall|p: (u32, u32)| #[trigger]
            rgb_pixels(r).contains_key(p) ==> rgb_pixels(r)[p] == [0u8, 0u8, 0u8],
{
    RgbBuffer { img: image::RgbImage::new(width, height) }
}

/// Relies on `image::ImageBuffer::put_pixel`: it replaces the pixel at `(x, y)`
/// and leaves every other one; it panics outside the image's bounds.
#[verifier::external_body]
pub(crate) fn put_rgb_pixel(b: &mut RgbBuffer, x: u32, y: u32, rgb: [u8; 3])
    requires
        rgb_pixels(*old(b)).contains_key((x, y)),
    ensures
        rgb_pixels(*final(b)) == rgb_pixels(*old(b)).insert((x, y), rgb),
{
    b.img.put_pixel(x, y, image::Rgb(rgb))
}

/// Relies on `image::ImageBuffer::get_pixel`: the pixel at `(x, y)`; it panics
/// outside the image's bounds.
#[verifier::external_body]
pub(crate) fn get_rgb_pixel(b: &RgbBuffer, x: u32, y: u32) -> (r: [u8; 3])
    requires
        rgb_pixels(*b).contains_key((x, y)),
    ensures
        r == rgb_pixels(*b)[(x, y)],
{
    b.img.get_pixel(x, y).0
}

/// Relies on `image::ImageBuffer::into_raw`: the buffer's subpixels, row by row
/// from the top, each row from the left, three (red, green, blue) per pixel.
#[verifier::external_body]
pub(crate) fn rgb_into_raw(b: RgbBuffer, width: u32, height: u32) -> (r: Vec<u8>)
    requires
        rgb_pixels(b).dom() == grid(width as int, height as int),
    ensures
        r@.len() == 3 * width * height,
        forall|x: u32, y: u32, c: int|
            x < width && y < height && 0 <= c < 3 ==> #[trigger] r@[3 * (y * width + x) + c]
                == rgb_pixels(b)[(x, y)][c],
{
    b.img.into_raw()
}

} // verus!
