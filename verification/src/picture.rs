//! What the library has from the `image` crate: the size of a decoded
//! picture and the pixels of a rectangle of it. Nothing here is proved: each
//! contract restates what the source of `image` shows.

use image::ColorType;
use image::DynamicImage;
use image::GenericImageView;
use vstd::prelude::*;

verus! {

/// `image::DynamicImage`, a decoded picture in whatever pixel format its file
/// had. Nothing is known of what it holds but through the names below.
#[verifier::external_type_specification]
#[verifier::external_body]
pub struct ExDynamicImage(DynamicImage);

/// What `GenericImageView::dimensions` gives for a picture: its width and
/// its height, in pixels.
pub uninterp spec fn picture_size(picture: DynamicImage) -> (u32, u32);

/// What `SubImage::to_image` copies out of a picture: the pixels of the
/// rectangle that has its top left corner at column `x` and row `y`, row by
/// row, each pixel as its red, green, blue and alpha byte.
pub uninterp spec fn picture_region(
    picture: DynamicImage,
    x: int,
    y: int,
    width: int,
    height: int,
) -> Seq<u8>;

/// Whether `DynamicImage::color` gives one of the two formats that hold
/// their samples as floating-point numbers, `Rgb32F` and `Rgba32F`.
pub uninterp spec fn picture_is_float(picture: DynamicImage) -> bool;

/// `DynamicImage::color`, told apart into the two floating-point formats
/// and all the others.
#[verifier::external_body]
pub(crate) fn is_float(picture: &DynamicImage) -> (yes: bool)
    ensures
        yes == picture_is_float(*picture),
{
    matches!(picture.color(), ColorType::Rgb32F | ColorType::Rgba32F)
}

/// `GenericImageView::dimensions` of a `DynamicImage`: its width and height.
#[verifier::external_body]
pub(crate) fn dimensions(picture: &DynamicImage) -> (size: (u32, u32))
    ensures
        size == picture_size(*picture),
{
    picture.dimensions()
}

/// `GenericImageView::view` of a `DynamicImage`, copied out by
/// `SubImage::to_image` and handed over by `ImageBuffer::into_raw`: the
/// pixels of a rectangle as RGBA bytes, four for each pixel. `view` gives up
/// on a rectangle that reaches beyond the picture, and `to_image` on one
/// whose bytes no vector can hold. `to_image` also gives up on a sample of
/// a floating-point picture that is not a number, which it cannot turn into
/// a byte. All three are ruled out, the last by leaving the floating-point
/// pictures out altogether.
#[verifier::external_body]
pub(crate) fn crop_rgba(picture: &DynamicImage, x: u32, y: u32, width: u32, height: u32) -> (pixels:
    Vec<u8>)
    requires
        !picture_is_float(*picture),
        x + width <= picture_size(*picture).0,
        y + height <= picture_size(*picture).1,
        4 * width * height <= isize::MAX,
    ensures
        pixels@ == picture_region(*picture, x as int, y as int, width as int, height as int),
        pixels@.len() == 4 * width * height,
{
    picture.view(x, y, width, height).to_image().into_raw()
}

} // verus!
