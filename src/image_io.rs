//! The calls into the `image` crate that the renderer makes.
use vstd::prelude::*;

verus! {

#[verifier::external_type_specification]
#[verifier::external_body]
pub struct ExDynamicImage(image::DynamicImage);

/// The RGBA8 image of the given size whose pixel bytes, row by row, are
/// `bytes`, as `image` builds it.
pub uninterp spec fn rgba8_image(width: u32, height: u32, bytes: Seq<u8>) -> image::DynamicImage;

/// Relies on `image::ImageBuffer::from_raw`: it keeps `bytes` as the pixel
/// data of a `width` by `height` RGBA8 image when they hold at least four
/// bytes per pixel, and gives `None` otherwise. The buffer is then wrapped
/// as `DynamicImage::ImageRgba8`.
#[verifier::external_body]
pub(crate) fn rgba8_from_raw(width: u32, height: u32, bytes: Vec<u8>) -> (r: Option<
    image::DynamicImage,
>)
    ensures
        r is Some <==> 4 * width * height <= bytes@.len(),
        r is Some ==> r == Some(rgba8_image(width, height, bytes@)),
{
    image::RgbaImage::from_raw(width, height, bytes).map(image::DynamicImage::ImageRgba8)
}

} // verus!
