//! Sizes, and the preparation of the output buffer.
use vstd::prelude::*;
use crate::QoiEncodeError;
use crate::encode::{qoi_encode_ch3_preallocated, qoi_encode_ch4_preallocated, splice};
use crate::format::{max_encoded_size, qoi_encoding};

verus! {

/// The magic bytes `qoif` that open every stream.
pub const QOI_MAGIC: [u8; 4] = [0x71, 0x6f, 0x69, 0x66];

/// The end marker: seven 0 bytes and a 1.
pub const QOI_PADDING: [u8; 8] = [0, 0, 0, 0, 0, 0, 0, 1];

/// Magic, width, height, channels and colorspace.
pub const QOI_HEADER_SIZE: usize = 14;

pub const QOI_PADDING_SIZE: usize = 8;

/// Where the largest possible stream of `num_pixels` pixels of `channels`
/// channels has its channel bytes within `u64` but not its whole size: the
/// sum overflows.
pub open spec fn max_size_overflows(channels: int, num_pixels: int) -> bool {
    num_pixels * channels <= u64::MAX && max_encoded_size(channels, num_pixels) > u64::MAX
}

/// The size of the largest stream of `num_pixels` pixels, each a full
/// `QOI_OP_RGB` or `QOI_OP_RGBA` chunk of a tag byte and `channels` bytes;
/// `None` where its channel bytes alone do not fit in a `u64`.
pub fn qoi_theoretical_max_size(channels: u8, num_pixels: u64) -> (r: Option<u64>)
    requires
        !max_size_overflows(channels as int, num_pixels as int),
    ensures
        num_pixels * channels > u64::MAX ==> r is None,
        num_pixels * channels <= u64::MAX ==> r == Some(max_encoded_size(channels as int, num_pixels as int) as u64),
{
    match num_pixels.checked_mul(channels as u64) {
        Some(channel_bytes) => Some(QOI_HEADER_SIZE as u64 + num_pixels + channel_bytes + QOI_PADDING_SIZE as u64),
        None => None,
    }
}

/// Empties `out` and reserves room in it for the largest stream of a
/// `w * h` image of `channels` channels.
pub fn qoi_reserve(channels: u8, w: u32, h: u32, out: &mut Vec<u8>) -> (r: Result<(), QoiEncodeError>)
    requires
        !max_size_overflows(channels as int, w * h),
    ensures
        ({
            let size = max_encoded_size(channels as int, w * h);
            if w * h * channels > u64::MAX || size > isize::MAX {
                r == Err::<(), QoiEncodeError>(QoiEncodeError::SizeOverflow) && final(out)@ == old(out)@
            } else {
                r == Ok::<(), QoiEncodeError>(()) && final(out)@ == Seq::<u8>::empty()
            }
        }),
{
    proof {
        assert(0 <= w * h <= u32::MAX * u32::MAX) by (nonlinear_arith)
            requires
                0 <= w <= u32::MAX,
                0 <= h <= u32::MAX,
        ;
    }
    let max_size = match qoi_theoretical_max_size(channels, w as u64 * h as u64) {
        Some(size) => size,
        None => return Err(QoiEncodeError::SizeOverflow),
    };
    if max_size > isize::MAX as u64 {
        return Err(QoiEncodeError::SizeOverflow);
    }
    out.clear();
    out.reserve(max_size as usize);
    Ok(())
}

/// What encoding an image into a vector leaves: the stream and its length,
/// or, where the largest stream of such an image could not be held in
/// memory, a `SizeOverflow` error and an empty vector.
pub open spec fn encode_outcome(
    width: u32,
    height: u32,
    channels: u8,
    data: Seq<u8>,
    r: Result<usize, QoiEncodeError>,
    out: Seq<u8>,
) -> bool {
    let enc = qoi_encoding(width, height, channels, data);
    if max_encoded_size(channels as int, width * height) > isize::MAX {
        r == Err::<usize, QoiEncodeError>(QoiEncodeError::SizeOverflow) && out == Seq::<u8>::empty()
    } else {
        r == Ok::<usize, QoiEncodeError>(enc.len() as usize) && out == enc
    }
}

/// Replaces the contents of `out` with the QOI stream of a `width * height`
/// image of `channels` channels packed in `data`, and returns its length.
/// Where the largest stream of such an image could not be held in memory,
/// `out` is left empty.
pub fn qoi_prepare_encode(data: &[u8], width: u32, height: u32, channels: u8, out: &mut Vec<u8>) -> (r: Result<
    usize,
    QoiEncodeError,
>)
    requires
        channels == 3 || channels == 4,
        width * height * channels <= data@.len(),
        !max_size_overflows(channels as int, width * height),
    ensures
        encode_outcome(width, height, channels, data@, r, final(out)@),
{
    let ghost enc = qoi_encoding(width, height, channels, data@);
    let data_len = data.len();
    proof {
        assert(0 <= width * height) by (nonlinear_arith)
            requires
                0 <= width,
                0 <= height,
        ;
        assert(width * height * channels <= u64::MAX);
        crate::roundtrip::theorem_encoding_len(width, height, channels, data@);
    }
    let mut scratch: Vec<u8> = Vec::new();
    std::mem::swap(&mut scratch, out);
    qoi_reserve(channels, width, height, &mut scratch)?;
    let max_size = match qoi_theoretical_max_size(channels, width as u64 * height as u64) {
        Some(size) => size as usize,
        None => return Err(QoiEncodeError::SizeOverflow),
    };
    scratch.resize(max_size, 0u8);
    let ghost resized = scratch@;
    let res = if channels == 3 {
        qoi_encode_ch3_preallocated(data, width, height, scratch.as_mut_slice())
    } else {
        qoi_encode_ch4_preallocated(data, width, height, scratch.as_mut_slice())
    };
    assert(scratch@ == splice(resized, 0, enc));
    scratch.truncate(res);
    assert(scratch@ =~= enc);
    std::mem::swap(&mut scratch, out);
    Ok(res)
}

} // verus!
