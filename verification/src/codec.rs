//! What this library takes on trust from the `image` crate.
//!
//! A decoded image stays a value of that crate. The library learns of it only
//! what the functions below tell.

use vstd::prelude::*;
use image::DynamicImage;
use image::GenericImageView;
use image::ImageError;
use crate::grid::{Picture, RgbGrid};
use image::Pixel;

verus! {

/// A decoded image of the `image` crate.
#[verifier::external_type_specification]
#[verifier::external_body]
pub struct ExDynamicImage(image::DynamicImage);

/// The error of the `image` crate.
#[verifier::external_type_specification]
#[verifier::external_body]
pub struct ExImageError(image::ImageError);

/// How the pixels of a decoded image are stored.
#[derive(Clone, Copy, Debug, PartialEq, Eq, Structural)]
pub enum PixelLayout {
    Luma8,
    LumaA8,
    Rgb8,
    Rgba8,
    Bgr8,
    Bgra8,
    Luma16,
    LumaA16,
    Rgb16,
    Rgba16,
}

/// The image that a file's bytes hold, where they hold one that the `image`
/// crate can decode.
pub uninterp spec fn decoded(bytes: Seq<u8>) -> Option<DynamicImage>;

/// The layout of a decoded image.
pub uninterp spec fn layout_of(img: DynamicImage) -> PixelLayout;

/// The width and the height of an image.
pub uninterp spec fn dims_of(img: DynamicImage) -> (u32, u32);

/// The size of what is cut out of an image of the given size for a
/// rectangle given by its corner, width and height: the corner is kept within
/// the image, and the width and height within what is left beyond it.
pub open spec fn cut_size(size: (u32, u32), x: u32, y: u32, width: u32, height: u32) -> (
    u32,
    u32,
) {
    let left = if x < size.0 {
        x
    } else {
        size.0
    };
    let top = if y < size.1 {
        y
    } else {
        size.1
    };
    (
        if width < size.0 - left {
            width
        } else {
            (size.0 - left) as u32
        },
        if height < size.1 - top {
            height
        } else {
            (size.1 - top) as u32
        },
    )
}

/// The part of an image that the `image` crate cuts out for a rectangle
/// given by its corner, width and height.
pub uninterp spec fn cropped(img: DynamicImage, x: u32, y: u32, width: u32, height: u32) -> DynamicImage;

/// The 8-bit RGB picture that the `image` crate makes of an image.
pub uninterp spec fn rgb_of(img: DynamicImage) -> Picture;

/// The PNG file that the `image` crate writes for a decoded image, where it
/// writes one.
pub uninterp spec fn png_of(img: DynamicImage) -> Option<Seq<u8>>;

/// The PNG file that the `image` crate writes for 8-bit RGB data of the
/// given width and height, where it writes one.
pub uninterp spec fn rgb_png(width: u32, height: u32, data: Seq<u8>) -> Option<Seq<u8>>;

/// The luminance that the `image` crate gives to an 8-bit RGB pixel.
pub uninterp spec fn srgb_luma(r: u8, g: u8, b: u8) -> u8;

/// Calls `image::load_from_memory`, which guesses the format of the file and
/// decodes it. The contract claims that an image that comes out is the one
/// that the bytes hold. Of a failure it claims nothing: a decoder may fail
/// for want of a thread on bytes that it decodes at another time.
#[verifier::external_body]
pub(crate) fn decode(bytes: &[u8]) -> (r: Result<DynamicImage, ImageError>)
    ensures
        r matches Ok(img) ==> decoded(bytes@) == Some(img),
{
    image::load_from_memory(bytes)
}

/// Tells the variants of `image::DynamicImage` apart. The contract gives the
/// result its name.
#[verifier::external_body]
pub(crate) fn layout(img: &DynamicImage) -> (l: PixelLayout)
    ensures
        l == layout_of(*img),
{
    match img {
        DynamicImage::ImageLuma8(_) => PixelLayout::Luma8,
        DynamicImage::ImageLumaA8(_) => PixelLayout::LumaA8,
        DynamicImage::ImageRgb8(_) => PixelLayout::Rgb8,
        DynamicImage::ImageRgba8(_) => PixelLayout::Rgba8,
        DynamicImage::ImageBgr8(_) => PixelLayout::Bgr8,
        DynamicImage::ImageBgra8(_) => PixelLayout::Bgra8,
        DynamicImage::ImageLuma16(_) => PixelLayout::Luma16,
        DynamicImage::ImageLumaA16(_) => PixelLayout::LumaA16,
        DynamicImage::ImageRgb16(_) => PixelLayout::Rgb16,
        DynamicImage::ImageRgba16(_) => PixelLayout::Rgba16,
    }
}

/// Calls `GenericImageView::dimensions` of `image` on an image. The contract
/// gives the result its name.
#[verifier::external_body]
pub(crate) fn dimensions(img: &DynamicImage) -> (d: (u32, u32))
    ensures
        d == dims_of(*img),
{
    img.dimensions()
}

/// Calls `DynamicImage::crop_imm` of `image`, which keeps the rectangle
/// within the image and copies what it covers. The contract gives the
/// result its name and states its size.
#[verifier::external_body]
pub(crate) fn cut(img: &DynamicImage, x: u32, y: u32, width: u32, height: u32) -> (part:
    DynamicImage)
    ensures
        part == cropped(*img, x, y, width, height),
        dims_of(part) == cut_size(dims_of(*img), x, y, width, height),
{
    img.crop_imm(x, y, width, height)
}

/// Calls `DynamicImage::to_rgb8` of `image` and hands back the size and the
/// bytes of the result. The call allocates three bytes for each pixel and
/// panics where their number is beyond `usize`, so such an image is left
/// out. The contract claims that the picture has the size of the image and
/// three bytes for each pixel, and gives it its name.
#[verifier::external_body]
pub(crate) fn to_rgb(img: &DynamicImage) -> (grid: RgbGrid)
    requires
        3 * dims_of(*img).0 * dims_of(*img).1 <= usize::MAX,
    ensures
        grid@ == rgb_of(*img),
        grid.width == dims_of(*img).0,
        grid.height == dims_of(*img).1,
        grid.well_formed(),
{
    let rgb = img.to_rgb8();
    RgbGrid { width: rgb.width(), height: rgb.height(), data: rgb.into_raw() }
}

/// Calls `DynamicImage::write_to` of `image` with the PNG format and an empty
/// buffer, and hands back the buffer. The contract claims that the outcome
/// depends on the image alone.
#[verifier::external_body]
pub(crate) fn encode_image(img: &DynamicImage) -> (r: Result<Vec<u8>, ImageError>)
    ensures
        match r {
            Ok(file) => png_of(*img) == Some(file@),
            Err(_) => png_of(*img) is None,
        },
{
    let mut buffer: Vec<u8> = Vec::new();
    img.write_to(&mut buffer, image::ImageOutputFormat::Png)?;
    Ok(buffer)
}

/// Calls `PngEncoder::encode` of `image` on 8-bit RGB data with an empty
/// buffer, and hands back the buffer. The encoder counts the bytes of a row,
/// and one more, and those of all rows in `usize` without a test, so a size
/// whose bytes do not stay below `usize::MAX` is left out. The contract
/// claims that the outcome depends on the arguments alone.
#[verifier::external_body]
pub(crate) fn encode_rgb(width: u32, height: u32, data: &Vec<u8>) -> (r: Result<
    Vec<u8>,
    ImageError,
>)
    requires
        3 * width * height < usize::MAX,
    ensures
        match r {
            Ok(file) => rgb_png(width, height, data@) == Some(file@),
            Err(_) => rgb_png(width, height, data@) is None,
        },
{
    let mut buffer: Vec<u8> = Vec::new();
    image::codecs::png::PngEncoder::new(&mut buffer).encode(data, width, height, image::ColorType::Rgb8)?;
    Ok(buffer)
}

/// Calls `to_string` on an error of `image`. Nothing is claimed of the text.
#[verifier::external_body]
pub(crate) fn error_text(err: &ImageError) -> (text: String) {
    err.to_string()
}

/// Calls `Pixel::to_luma` of `image` on the pixel `Rgb([r, g, b])` and hands
/// back the single channel of the result. The contract claims only that this
/// is a function of the three channels.
#[verifier::external_body]
pub(crate) fn luma(r: u8, g: u8, b: u8) -> (l: u8)
    ensures
        l == srgb_luma(r, g, b),
{
    image::Rgb([r, g, b]).to_luma()[0]
}

} // verus!
