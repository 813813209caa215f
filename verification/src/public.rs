//! Encoding of whole images into a vector.
use vstd::prelude::*;
use crate::images::{DynamicImage, RgbImage, RgbaImage};
use crate::prepare::{encode_outcome, max_size_overflows, qoi_prepare_encode};
pub use crate::QoiEncodeError;

verus! {

/// Whether `img` is small enough that the size of its largest stream can be
/// summed up in a `u64`.
pub open spec fn dynamic_fits(img: &DynamicImage) -> bool {
    match img {
        DynamicImage::ImageRgb8(rgb) => !max_size_overflows(3, rgb.spec_width() * rgb.spec_height()),
        DynamicImage::ImageRgba8(rgba) => !max_size_overflows(4, rgba.spec_width() * rgba.spec_height()),
    }
}

/// What encoding `img` into a vector leaves.
pub open spec fn dynamic_outcome(img: &DynamicImage, r: Result<usize, QoiEncodeError>, out: Seq<u8>) -> bool {
    match img {
        DynamicImage::ImageRgb8(rgb) => encode_outcome(
            rgb.spec_width(),
            rgb.spec_height(),
            3,
            rgb.spec_data(),
            r,
            out,
        ),
        DynamicImage::ImageRgba8(rgba) => encode_outcome(
            rgba.spec_width(),
            rgba.spec_height(),
            4,
            rgba.spec_data(),
            r,
            out,
        ),
    }
}

/// Replaces the contents of `out` with the QOI stream of `img`, 3 or 4
/// channels after its kind, and returns its length.
pub fn qoi_encode(img: &DynamicImage, out: &mut Vec<u8>) -> (r: Result<usize, QoiEncodeError>)
    requires
        dynamic_fits(img),
    ensures
        dynamic_outcome(img, r, final(out)@),
{
    match img {
        DynamicImage::ImageRgb8(rgb) => qoi_encode_rgb(rgb, out),
        DynamicImage::ImageRgba8(rgba) => qoi_encode_rgba(rgba, out),
    }
}

/// Replaces the contents of `out` with the 3 channel QOI stream of `img`,
/// and returns its length.
pub fn qoi_encode_rgb(img: &RgbImage, out: &mut Vec<u8>) -> (r: Result<usize, QoiEncodeError>)
    requires
        !max_size_overflows(3, img.spec_width() * img.spec_height()),
    ensures
        encode_outcome(img.spec_width(), img.spec_height(), 3, img.spec_data(), r, final(out)@),
{
    qoi_prepare_encode(img.as_raw(), img.width(), img.height(), 3, out)
}

/// Replaces the contents of `out` with the 4 channel QOI stream of `img`,
/// and returns its length.
pub fn qoi_encode_rgba(img: &RgbaImage, out: &mut Vec<u8>) -> (r: Result<usize, QoiEncodeError>)
    requires
        !max_size_overflows(4, img.spec_width() * img.spec_height()),
    ensures
        encode_outcome(img.spec_width(), img.spec_height(), 4, img.spec_data(), r, final(out)@),
{
    qoi_prepare_encode(img.as_raw(), img.width(), img.height(), 4, out)
}

} // verus!
