use qoick::encode::{hash_pixel, qoi_encode_ch3_vec, qoi_encode_ch4_vec, Pixel};
use qoick::images::{DynamicImage, RgbImage, RgbaImage};
use qoick::prepare::{qoi_reserve, qoi_theoretical_max_size};
use qoick::{
    qoi_encode, qoi_encode_buf_size, qoi_encode_rgb_bytes, qoi_encode_rgb_image, qoi_encode_rgba_bytes,
    qoi_encode_rgba_image, qoi_raw_encode_3_channels, qoi_raw_encode_4_channels, QoiEncodeError,
};

const END: [u8; 8] = [0, 0, 0, 0, 0, 0, 0, 1];

fn header(w: u32, h: u32, channels: u8) -> Vec<u8> {
    let mut v = b"qoif".to_vec();
    v.extend_from_slice(&w.to_be_bytes());
    v.extend_from_slice(&h.to_be_bytes());
    v.push(channels);
    v.push(0);
    v
}

fn stream(w: u32, h: u32, channels: u8, chunks: &[u8]) -> Vec<u8> {
    let mut v = header(w, h, channels);
    v.extend_from_slice(chunks);
    v.extend_from_slice(&END);
    v
}

#[test]
fn hash_of_rgba_pixel() {
    // (1 * 3 + 2 * 5 + 3 * 7 + 4 * 11) % 64 == 14
    assert_eq!(hash_pixel(&Pixel([1u8, 2, 3, 4])), 14);
}

#[test]
fn hash_of_rgb_pixel_counts_alpha_as_255() {
    // (1 * 3 + 2 * 5 + 3 * 7 + 255 * 11) % 64 == 23
    assert_eq!(hash_pixel(&Pixel([1u8, 2, 3])), 23);
    assert_eq!(hash_pixel(&Pixel([1u8, 2, 3])), hash_pixel(&Pixel([1u8, 2, 3, 255])));
}

#[test]
fn hash_matches_the_formula_everywhere_sampled() {
    for r in (0..=255u32).step_by(17) {
        for g in (0..=255u32).step_by(13) {
            for b in (0..=255u32).step_by(29) {
                for a in [0u32, 1, 127, 200, 255] {
                    let expected = ((r * 3 + g * 5 + b * 7 + a * 11) % 64) as u8;
                    let pix = Pixel([r as u8, g as u8, b as u8, a as u8]);
                    assert_eq!(hash_pixel(&pix), expected);
                }
            }
        }
    }
}

#[test]
fn pixel_constructors() {
    assert!(Pixel::<4>::new().0 == [0, 0, 0, 255]);
    assert!(Pixel::<3>::new().0 == [0, 0, 0]);
    assert!(Pixel::<4>::zero().0 == [0, 0, 0, 0]);
    assert!(Pixel::<4>::with_alpha(7).0 == [0, 0, 0, 7]);
    assert!(Pixel::<3>::with_alpha(7).0 == [0, 0, 0]);
}

#[test]
fn buf_size_is_header_pixels_channels_and_marker() {
    assert_eq!(qoi_encode_buf_size(4, 2, 3), Some(14 + 6 + 24 + 8));
    assert_eq!(qoi_encode_buf_size(3, 2, 3), Some(14 + 6 + 18 + 8));
    assert_eq!(qoi_encode_buf_size(3, 0, 100), Some(22));
}

#[test]
fn buf_size_none_when_channel_bytes_overflow() {
    assert_eq!(qoi_encode_buf_size(4, u32::MAX, u32::MAX), None);
    assert_eq!(qoi_theoretical_max_size(4, u64::MAX / 2), None);
    assert_eq!(qoi_theoretical_max_size(3, 10), Some(14 + 10 + 30 + 8));
}

#[test]
fn reserve_empties_the_vector() {
    let mut v = vec![1u8, 2, 3];
    assert_eq!(qoi_reserve(4, 10, 10, &mut v), Ok(()));
    assert!(v.is_empty());
}

#[test]
fn reserve_refuses_impossible_sizes_and_keeps_the_vector() {
    let mut v = vec![1u8, 2, 3];
    assert_eq!(qoi_reserve(4, u32::MAX, u32::MAX, &mut v), Err(QoiEncodeError::SizeOverflow));
    assert_eq!(v, vec![1, 2, 3]);
}

#[test]
fn single_red_rgba_pixel_is_a_diff_chunk() {
    // from the start pixel (0, 0, 0, 255): dr = -1, dg = 0, db = 0
    let mut out = vec![9u8; 5];
    assert_eq!(qoi_encode_rgba_bytes(&[255, 0, 0, 255], 1, 1, &mut out), Ok(()));
    assert_eq!(out, stream(1, 1, 4, &[0x40 | (1 << 4) | (2 << 2) | 2]));
}

#[test]
fn run_luma_and_full_chunks() {
    let red = [255u8, 0, 0, 255];
    let mut bytes = Vec::new();
    bytes.extend_from_slice(&red);
    bytes.extend_from_slice(&red);
    bytes.extend_from_slice(&[250, 3, 0, 255]);
    bytes.extend_from_slice(&red);
    let mut out = Vec::new();
    assert_eq!(qoi_encode_rgba_bytes(&bytes, 2, 2, &mut out), Ok(()));
    assert_eq!(out, stream(2, 2, 4, &[90, 192, 163, 5, 255, 255, 0, 0, 255]));
}

#[test]
fn rgb_full_chunks_and_run() {
    let bytes = [10u8, 20, 30, 10, 20, 30, 200, 100, 50];
    let mut out = Vec::new();
    assert_eq!(qoi_encode_rgb_bytes(&bytes, 3, 1, &mut out), Ok(()));
    assert_eq!(out, stream(3, 1, 3, &[254, 10, 20, 30, 192, 254, 200, 100, 50]));
}

#[test]
fn alpha_change_is_always_a_full_rgba_chunk() {
    // the first pixel equals the start pixel: a run of 1, then a small
    // colour step with a new alpha, which no difference chunk can carry
    let bytes = [0u8, 0, 0, 255, 1, 2, 3, 100];
    let mut out = Vec::new();
    assert_eq!(qoi_encode_rgba_bytes(&bytes, 2, 1, &mut out), Ok(()));
    assert_eq!(out, stream(2, 1, 4, &[192, 255, 1, 2, 3, 100]));
}

#[test]
fn runs_longer_than_62_are_split() {
    let bytes = vec![0u8; 70 * 3];
    let mut out = Vec::new();
    assert_eq!(qoi_encode_rgb_bytes(&bytes, 70, 1, &mut out), Ok(()));
    assert_eq!(out, stream(70, 1, 3, &[192 + 61, 192 + 7]));
}

#[test]
fn index_chunk_for_a_pixel_seen_before() {
    let a = [5u8, 40, 6];
    let b = [100u8, 100, 100];
    let mut bytes = Vec::new();
    bytes.extend_from_slice(&a);
    bytes.extend_from_slice(&b);
    bytes.extend_from_slice(&a);
    let mut out = Vec::new();
    assert_eq!(qoi_encode_rgb_bytes(&bytes, 3, 1, &mut out), Ok(()));
    let ha = hash_pixel(&Pixel(a));
    assert_eq!(out, stream(3, 1, 3, &[254, 5, 40, 6, 254, 100, 100, 100, ha]));
}

#[test]
fn black_rgb_pixel_is_not_taken_from_the_empty_index() {
    // an opaque black pixel hashes to 53, where the start index holds a
    // transparent black pixel: it must not be sent as an index chunk
    let bytes = [10u8, 10, 10, 0, 0, 0];
    let mut out = Vec::new();
    assert_eq!(qoi_encode_rgb_bytes(&bytes, 2, 1, &mut out), Ok(()));
    assert_eq!(hash_pixel(&Pixel([0u8, 0, 0])), 53);
    assert_ne!(out[14 + 4], 53);
}

#[test]
fn empty_image_is_header_and_marker() {
    let mut out = Vec::new();
    assert_eq!(qoi_encode_rgba_bytes(&[], 0, 5, &mut out), Ok(()));
    assert_eq!(out, stream(0, 5, 4, &[]));
}

#[test]
fn wrong_byte_count_is_invalid_input() {
    let mut out = vec![7u8];
    assert_eq!(qoi_encode_rgb_bytes(&[1, 2, 3, 4], 1, 1, &mut out), Err(QoiEncodeError::InvalidInput));
    assert_eq!(out, vec![7]);
    assert_eq!(qoi_encode_rgba_bytes(&[1, 2, 3], 1, 1, &mut out), Err(QoiEncodeError::InvalidInput));
    assert_eq!(out, vec![7]);
}

#[test]
fn byte_count_beyond_usize_is_size_overflow() {
    let mut out = vec![7u8];
    assert_eq!(
        qoi_encode_rgb_bytes(&[], u32::MAX, u32::MAX, &mut out),
        Err(QoiEncodeError::SizeOverflow)
    );
    assert_eq!(out, vec![7]);
}

#[test]
fn raw_encoders_write_the_start_of_the_buffer() {
    let size = qoi_encode_buf_size(4, 1, 1).unwrap() as usize;
    let mut buf = vec![0xaau8; size + 3];
    let n = qoi_raw_encode_4_channels(&[255, 0, 0, 255], 1, 1, &mut buf);
    assert_eq!(n, 23);
    assert_eq!(&buf[..n], &stream(1, 1, 4, &[90])[..]);
    assert!(buf[n..].iter().all(|&b| b == 0xaa));

    let size = qoi_encode_buf_size(3, 3, 1).unwrap() as usize;
    let mut buf = vec![0u8; size];
    let n = qoi_raw_encode_3_channels(&[10, 20, 30, 10, 20, 30, 200, 100, 50], 3, 1, &mut buf);
    assert_eq!(&buf[..n], &stream(3, 1, 3, &[254, 10, 20, 30, 192, 254, 200, 100, 50])[..]);
}

#[test]
fn vec_encoders_append() {
    let out = qoi_encode_ch4_vec(&[255, 0, 0, 255], 1, 1, vec![1, 2]);
    let mut expected = vec![1u8, 2];
    expected.extend(stream(1, 1, 4, &[90]));
    assert_eq!(out, expected);
    let out = qoi_encode_ch3_vec(&[0, 0, 0], 1, 1, Vec::new());
    assert_eq!(out, stream(1, 1, 3, &[192]));
}

#[test]
fn image_buffers_check_their_size() {
    assert!(RgbImage::from_raw(2, 2, vec![0; 11]).is_none());
    assert!(RgbImage::from_raw(2, 2, vec![0; 12]).is_some());
    assert!(RgbaImage::from_raw(2, 2, vec![0; 15]).is_none());
    let img = RgbaImage::from_raw(1, 1, vec![1, 2, 3, 4, 5]).unwrap();
    assert_eq!(img.width(), 1);
    assert_eq!(img.height(), 1);
    assert_eq!(img.as_raw(), &[1, 2, 3, 4, 5]);
}

#[test]
fn image_encoders_use_only_the_pixels() {
    // the buffer is longer than the one pixel needs
    let img = RgbaImage::from_raw(1, 1, vec![255, 0, 0, 255, 9, 9]).unwrap();
    let mut out = vec![3u8; 40];
    assert_eq!(qoi_encode_rgba_image(&img, &mut out), Ok(23));
    assert_eq!(out, stream(1, 1, 4, &[90]));

    let img = RgbImage::from_raw(3, 1, vec![10, 20, 30, 10, 20, 30, 200, 100, 50]).unwrap();
    let mut out = Vec::new();
    let r = qoi_encode_rgb_image(&img, &mut out);
    assert_eq!(r, Ok(out.len()));
    assert_eq!(out, stream(3, 1, 3, &[254, 10, 20, 30, 192, 254, 200, 100, 50]));
}

#[test]
fn dynamic_images_pick_their_channels() {
    let rgb = RgbImage::from_raw(1, 1, vec![0, 0, 0]).unwrap();
    let mut out = Vec::new();
    assert_eq!(qoi_encode(&DynamicImage::ImageRgb8(rgb), &mut out), Ok(23));
    assert_eq!(out, stream(1, 1, 3, &[192]));

    let rgba = RgbaImage::from_raw(1, 1, vec![255, 0, 0, 255]).unwrap();
    let mut out = Vec::new();
    assert_eq!(qoick::public::qoi_encode(&DynamicImage::ImageRgba8(rgba), &mut out), Ok(23));
    assert_eq!(out, stream(1, 1, 4, &[90]));
}

#[test]
fn public_module_encoders() {
    let rgb = RgbImage::from_raw(1, 1, vec![0, 0, 0]).unwrap();
    let mut out = Vec::new();
    assert_eq!(qoick::public::qoi_encode_rgb(&rgb, &mut out), Ok(23));
    let rgba = RgbaImage::from_raw(1, 1, vec![0, 0, 0, 0]).unwrap();
    let mut out2 = Vec::new();
    let r = qoick::public::qoi_encode_rgba(&rgba, &mut out2);
    assert_eq!(r, Ok(out2.len()));
    assert_eq!(out2[14], hash_pixel(&Pixel([0u8, 0, 0, 0])));
}
