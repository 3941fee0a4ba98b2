//! Bringing a decoded image into the grid the converter reads.
use vstd::prelude::*;
use image::GenericImageView;
use crate::pipeline::RasterImage;

verus! {

#[verifier::external_type_specification]
#[verifier::external_body]
pub struct ExDynamicImage(image::DynamicImage);

/// Relies on `GenericImageView::dimensions` of `image::DynamicImage`: the
/// image's width and height.
#[verifier::external_body]
fn dimensions_of(img: &image::DynamicImage) -> (u32, u32) {
    img.dimensions()
}

/// Relies on `image::DynamicImage::resize` with the Gaussian filter: a copy
/// scaled to fit within the given bounds, aspect ratio kept.
#[verifier::external_body]
fn resized(img: &image::DynamicImage, width: u32, height: u32) -> image::DynamicImage {
    img.resize(width, height, image::imageops::FilterType::Gaussian)
}

/// Relies on `image::DynamicImage::to_rgba8`: an RGBA copy of the image of the
/// same size, whose buffer holds four bytes for each pixel.
#[verifier::external_body]
fn rgba_bytes(img: &image::DynamicImage) -> (r: (u32, u32, Vec<u8>))
    ensures
        r.2@.len() == 4 * (r.0 * r.1),
{
    let buf = img.to_rgba8();
    let (width, height) = buf.dimensions();
    (width, height, buf.into_raw())
}

/// The size to scale to along one axis: the requested one, or the image's
/// own where none (zero) was requested.
pub fn target_size(requested: u32, native: u32) -> (r: u32)
    ensures
        r == if requested == 0 {
            native
        } else {
            requested
        },
{
    if requested == 0 {
        native
    } else {
        requested
    }
}

/// Scales `img` to fit `width` by `height` (zero keeps the image's own size
/// along that axis) and reads its RGBA pixels into a grid.
pub fn load_raster(img: &image::DynamicImage, width: u32, height: u32) -> (r: RasterImage)
    ensures
        r.wf(),
{
    let (native_width, native_height) = dimensions_of(img);
    let scaled = resized(
        img,
        target_size(width, native_width),
        target_size(height, native_height),
    );
    let (w, h, bytes) = rgba_bytes(&scaled);
    let raster = RasterImage::from_rgba(w, h, &bytes);
    raster.unwrap()
}

} // verus!
