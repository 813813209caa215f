//! # qoick
//!
//! An encoder for the QOI image format, whose output is proved to decode to
//! the image it was given.
pub mod format;
pub mod roundtrip;
pub mod encode;
pub mod prepare;
pub mod images;
pub mod public;
pub mod choice;

use vstd::prelude::*;
use crate::encode::{qoi_encode_ch3_preallocated, qoi_encode_ch4_preallocated, splice};
use crate::format::{max_encoded_size, qoi_encoding};
use crate::images::{DynamicImage, RgbImage, RgbaImage};
use crate::prepare::{encode_outcome, max_size_overflows, qoi_prepare_encode, qoi_theoretical_max_size};
use crate::public::{dynamic_fits, dynamic_outcome, qoi_encode_rgb, qoi_encode_rgba};

verus! {

#[derive(Debug, Clone, Copy, PartialEq, Eq, Structural)]
pub enum QoiEncodeError {
    /// Provided image file can not possibly fit in the address space of RAM. It
    /// usually means your image dimensions are malformed, or the image is
    /// bigger than the images representable by your address space.
    SizeOverflow,
    /// Given byte slice did not have the exact amount of required pixel data.
    InvalidInput,
}

/// Replaces the contents of `out` with the QOI stream of `img`, 3 or 4
/// channels after its kind, and returns its length.
pub fn qoi_encode(img: &DynamicImage, out: &mut Vec<u8>) -> (r: Result<usize, QoiEncodeError>)
    requires
        dynamic_fits(img),
    ensures
        dynamic_outcome(img, r, final(out)@),
{
    match img {
        DynamicImage::ImageRgb8(rgb) => qoi_encode_rgb_image(rgb, out),
        DynamicImage::ImageRgba8(rgba) => qoi_encode_rgba_image(rgba, out),
    }
}

/// Biggest possible representation of a QOI image is comprised of all
/// QOI_OP_RGBA or QOI_OP_RGB pixels, depending on the colorspace. Each
/// QOI_OP_RGBA takes 5 bytes (1 tag byte, 4 raw subpixel bytes), and each
/// QOI_OP_RGB similarly takes 4 bytes to encode.
///
/// This comes to the number `num_pixels + num_pixels * channels`
/// bytes, plus the header and the end marker; `None` where the channel bytes
/// do not fit in a `u64`.
pub fn qoi_encode_buf_size(channels: u8, w: u32, h: u32) -> (r: Option<u64>)
    requires
        channels == 3 || channels == 4,
        !max_size_overflows(channels as int, w * h),
    ensures
        w * h * channels > u64::MAX ==> r is None,
        w * h * channels <= u64::MAX ==> r == Some(max_encoded_size(channels as int, w * h) as u64),
{
    proof {
        assert(0 <= w * h <= u32::MAX * u32::MAX) by (nonlinear_arith)
            requires
                0 <= w <= u32::MAX,
                0 <= h <= u32::MAX,
        ;
    }
    let num_pixels = w as u64 * h as u64;
    qoi_theoretical_max_size(channels, num_pixels)
}

/// Encode an RGBA image provided by `image` into `out`, where `out` has
/// enough room to hold any possible QOI image of that size. You can get this
/// number by calling [`qoi_encode_buf_size`].
///
/// Returns the amount of bytes written to the start of `out`.
pub fn qoi_raw_encode_4_channels(image: &[u8], width: u32, height: u32, out: &mut [u8]) -> (n: usize)
    requires
        width * height * 4 <= image@.len(),
        max_encoded_size(4, width * height) <= old(out)@.len(),
    ensures
        n == qoi_encoding(width, height, 4, image@).len(),
        final(out)@ == splice(old(out)@, 0, qoi_encoding(width, height, 4, image@)),
{
    qoi_encode_ch4_preallocated(image, width, height, out)
}

/// Encode an RGB image provided by `image` into `out`, where `out` has
/// enough room to hold any possible QOI image of that size. You can get this
/// number by calling [`qoi_encode_buf_size`].
///
/// Returns the amount of bytes written to the start of `out`.
pub fn qoi_raw_encode_3_channels(image: &[u8], width: u32, height: u32, out: &mut [u8]) -> (n: usize)
    requires
        width * height * 3 <= image@.len(),
        max_encoded_size(3, width * height) <= old(out)@.len(),
    ensures
        n == qoi_encoding(width, height, 3, image@).len(),
        final(out)@ == splice(old(out)@, 0, qoi_encoding(width, height, 3, image@)),
{
    qoi_encode_ch3_preallocated(image, width, height, out)
}

/// What encoding packed pixel bytes into a vector leaves: `SizeOverflow`
/// where the pixel count or the byte count does not fit in a `usize`,
/// `InvalidInput` where `data` does not hold exactly the pixels, both with
/// `out` untouched; otherwise as `encode_outcome` says.
pub open spec fn bytes_outcome(
    data: Seq<u8>,
    width: u32,
    height: u32,
    channels: u8,
    r: Result<(), QoiEncodeError>,
    before: Seq<u8>,
    after: Seq<u8>,
) -> bool {
    let n = width * height;
    if n > usize::MAX || n * channels > usize::MAX {
        r == Err::<(), QoiEncodeError>(QoiEncodeError::SizeOverflow) && after == before
    } else if data.len() != n * channels {
        r == Err::<(), QoiEncodeError>(QoiEncodeError::InvalidInput) && after == before
    } else if max_encoded_size(channels as int, n) > isize::MAX {
        r == Err::<(), QoiEncodeError>(QoiEncodeError::SizeOverflow) && after == Seq::<u8>::empty()
    } else {
        r == Ok::<(), QoiEncodeError>(()) && after == qoi_encoding(width, height, channels, data)
    }
}

fn qoi_encode_bytes(bytes: &[u8], width: u32, height: u32, channels: u8, out: &mut Vec<u8>) -> (r: Result<
    (),
    QoiEncodeError,
>)
    requires
        channels == 3 || channels == 4,
        !max_size_overflows(channels as int, width * height),
    ensures
        bytes_outcome(bytes@, width, height, channels, r, old(out)@, final(out)@),
{
    proof {
        assert(0 <= width * height <= u32::MAX * u32::MAX) by (nonlinear_arith)
            requires
                0 <= width <= u32::MAX,
                0 <= height <= u32::MAX,
        ;
    }
    let num_pixels = width as u64 * height as u64;
    if num_pixels > usize::MAX as u64 {
        return Err(QoiEncodeError::SizeOverflow);
    }
    let expected_size = match (num_pixels as usize).checked_mul(channels as usize) {
        Some(size) => size,
        None => return Err(QoiEncodeError::SizeOverflow),
    };
    if bytes.len() != expected_size {
        return Err(QoiEncodeError::InvalidInput);
    }
    match qoi_prepare_encode(bytes, width, height, channels, out) {
        Ok(_) => Ok(()),
        Err(e) => Err(e),
    }
}

/// Encode an RGB image provided by the `bytes` into the `out` Vec.
///
/// `bytes` must hold exactly `width * height * 3` bytes.
pub fn qoi_encode_rgb_bytes(bytes: &[u8], width: u32, height: u32, out: &mut Vec<u8>) -> (r: Result<
    (),
    QoiEncodeError,
>)
    requires
        !max_size_overflows(3, width * height),
    ensures
        bytes_outcome(bytes@, width, height, 3, r, old(out)@, final(out)@),
{
    qoi_encode_bytes(bytes, width, height, 3, out)
}

/// Encode an RGBA image provided by the `bytes` into the `out` Vec.
///
/// `bytes` must hold exactly `width * height * 4` bytes.
pub fn qoi_encode_rgba_bytes(bytes: &[u8], width: u32, height: u32, out: &mut Vec<u8>) -> (r: Result<
    (),
    QoiEncodeError,
>)
    requires
        !max_size_overflows(4, width * height),
    ensures
        bytes_outcome(bytes@, width, height, 4, r, old(out)@, final(out)@),
{
    qoi_encode_bytes(bytes, width, height, 4, out)
}

/// Encodes an RGB image.
pub fn qoi_encode_rgb_image(img: &RgbImage, out: &mut Vec<u8>) -> (r: Result<usize, QoiEncodeError>)
    requires
        !max_size_overflows(3, img.spec_width() * img.spec_height()),
    ensures
        encode_outcome(img.spec_width(), img.spec_height(), 3, img.spec_data(), r, final(out)@),
{
    qoi_encode_rgb(img, out)
}

/// Encodes an RGBA image.
pub fn qoi_encode_rgba_image(img: &RgbaImage, out: &mut Vec<u8>) -> (r: Result<usize, QoiEncodeError>)
    requires
        !max_size_overflows(4, img.spec_width() * img.spec_height()),
    ensures
        encode_outcome(img.spec_width(), img.spec_height(), 4, img.spec_data(), r, final(out)@),
{
    qoi_encode_rgba(img, out)
}

} // verus!
