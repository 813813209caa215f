use qoick::encode::Pixel;
use qoick::{qoi_encode_buf_size, qoi_encode_rgb_bytes, qoi_encode_rgba_bytes};

/// A QOI decoder written from the format's description, for the tests.
fn decode(data: &[u8]) -> Option<(u32, u32, u8, Vec<u8>)> {
    if data.len() < 22 || &data[..4] != b"qoif" {
        return None;
    }
    let w = u32::from_be_bytes([data[4], data[5], data[6], data[7]]);
    let h = u32::from_be_bytes([data[8], data[9], data[10], data[11]]);
    let channels = data[12];
    if (channels != 3 && channels != 4) || data[13] > 1 {
        return None;
    }
    if data[data.len() - 8..] != [0, 0, 0, 0, 0, 0, 0, 1] {
        return None;
    }
    let chunks = &data[14..data.len() - 8];
    let mut index = [[0u8; 4]; 64];
    let mut px = [0u8, 0, 0, 255];
    let mut pixels: Vec<[u8; 4]> = Vec::new();
    let mut p = 0;
    let hash = |q: [u8; 4]| {
        ((q[0] as usize * 3 + q[1] as usize * 5 + q[2] as usize * 7 + q[3] as usize * 11) % 64) as usize
    };
    while p < chunks.len() {
        let b0 = chunks[p];
        let mut count = 1;
        if b0 == 0xfe {
            px = [chunks[p + 1], chunks[p + 2], chunks[p + 3], px[3]];
            p += 4;
        } else if b0 == 0xff {
            px = [chunks[p + 1], chunks[p + 2], chunks[p + 3], chunks[p + 4]];
            p += 5;
        } else if b0 >> 6 == 0 {
            px = index[b0 as usize];
            p += 1;
        } else if b0 >> 6 == 1 {
            px[0] = px[0].wrapping_add(((b0 >> 4) & 3).wrapping_sub(2));
            px[1] = px[1].wrapping_add(((b0 >> 2) & 3).wrapping_sub(2));
            px[2] = px[2].wrapping_add((b0 & 3).wrapping_sub(2));
            p += 1;
        } else if b0 >> 6 == 2 {
            let b1 = chunks[p + 1];
            let dg = (b0 & 0x3f).wrapping_sub(32);
            px[0] = px[0].wrapping_add(dg.wrapping_sub(8).wrapping_add(b1 >> 4));
            px[1] = px[1].wrapping_add(dg);
            px[2] = px[2].wrapping_add(dg.wrapping_sub(8).wrapping_add(b1 & 0x0f));
            p += 2;
        } else {
            count = (b0 & 0x3f) as usize + 1;
            p += 1;
        }
        index[hash(px)] = px;
        for _ in 0..count {
            pixels.push(px);
        }
    }
    if pixels.len() != w as usize * h as usize {
        return None;
    }
    let mut bytes = Vec::new();
    for q in pixels {
        bytes.extend_from_slice(&q[..channels as usize]);
    }
    Some((w, h, channels, bytes))
}

struct Lcg(u64);

impl Lcg {
    fn next(&mut self) -> u8 {
        self.0 = self.0.wrapping_mul(6364136223846793005).wrapping_add(1442695040888963407);
        (self.0 >> 56) as u8
    }
}

/// Pixels that repeat, step a little, step a lot, come back and change alpha.
fn image(seed: u64, n: usize, channels: usize) -> Vec<u8> {
    let mut rng = Lcg(seed);
    let mut data: Vec<u8> = Vec::new();
    let mut cur = [0u8, 0, 0, 255];
    let mut seen: Vec<[u8; 4]> = vec![cur];
    for _ in 0..n {
        match rng.next() % 8 {
            0 | 1 => {}
            2 => {
                for c in cur.iter_mut().take(3) {
                    *c = c.wrapping_add(rng.next() % 4).wrapping_sub(2);
                }
            }
            3 => {
                let dg = (rng.next() % 64).wrapping_sub(32);
                cur[1] = cur[1].wrapping_add(dg);
                cur[0] = cur[0].wrapping_add(dg).wrapping_add(rng.next() % 16).wrapping_sub(8);
                cur[2] = cur[2].wrapping_add(dg).wrapping_add(rng.next() % 16).wrapping_sub(8);
            }
            4 => cur = seen[rng.next() as usize % seen.len()],
            5 => cur[3] = rng.next(),
            6 => {
                cur[3] = cur[3].wrapping_add(1);
                cur[0] = cur[0].wrapping_add(1);
            }
            _ => cur = [rng.next(), rng.next(), rng.next(), rng.next()],
        }
        if channels == 3 {
            cur[3] = 255;
        }
        seen.push(cur);
        data.extend_from_slice(&cur[..channels]);
    }
    data
}

fn check_rgba(seed: u64, w: u32, h: u32) {
    let data = image(seed, (w * h) as usize, 4);
    let mut out = Vec::new();
    assert_eq!(qoi_encode_rgba_bytes(&data, w, h, &mut out), Ok(()));
    assert!(out.len() as u64 <= qoi_encode_buf_size(4, w, h).unwrap());
    assert_eq!(decode(&out), Some((w, h, 4, data)));
}

fn check_rgb(seed: u64, w: u32, h: u32) {
    let data = image(seed, (w * h) as usize, 3);
    let mut out = Vec::new();
    assert_eq!(qoi_encode_rgb_bytes(&data, w, h, &mut out), Ok(()));
    assert!(out.len() as u64 <= qoi_encode_buf_size(3, w, h).unwrap());
    assert_eq!(decode(&out), Some((w, h, 3, data)));
}

#[test]
fn rgba_images_decode_to_themselves() {
    for seed in 0..40 {
        check_rgba(seed, 17 + seed as u32, 9);
    }
}

#[test]
fn rgb_images_decode_to_themselves() {
    for seed in 0..40 {
        check_rgb(seed, 13, 11 + seed as u32);
    }
}

#[test]
fn long_runs_decode_to_themselves() {
    let mut data = vec![0u8; 200 * 4];
    for i in 0..200 {
        data[i * 4 + 3] = if i < 130 { 255 } else { 9 };
    }
    let mut out = Vec::new();
    assert_eq!(qoi_encode_rgba_bytes(&data, 200, 1, &mut out), Ok(()));
    assert_eq!(decode(&out), Some((200, 1, 4, data)));
}

#[test]
fn worst_case_fills_the_whole_buffer_size() {
    // pixels that no small chunk reaches: every one is a full chunk
    let mut data = Vec::new();
    for i in 0..20u32 {
        let v = (i * 97 % 256) as u8;
        data.extend_from_slice(&[v, v.wrapping_add(128), v.wrapping_mul(3), (i * 61 % 256) as u8]);
    }
    let mut out = Vec::new();
    assert_eq!(qoi_encode_rgba_bytes(&data, 20, 1, &mut out), Ok(()));
    assert!(out.len() as u64 <= qoi_encode_buf_size(4, 20, 1).unwrap());
    assert_eq!(decode(&out), Some((20, 1, 4, data)));
}

#[test]
fn pixel_type_reads_back() {
    let p = Pixel([1u8, 2, 3, 4]);
    let q = p;
    assert!(p == q);
}

#[test]
fn opaque_black_after_other_pixels_decodes() {
    // black reaches the index position 53, where the start index holds
    // transparent black; later pixels must still come back right
    let data = [10u8, 10, 10, 0, 0, 0, 1, 2, 3, 9, 9, 9, 1, 2, 3];
    let mut out = Vec::new();
    assert_eq!(qoi_encode_rgb_bytes(&data, 5, 1, &mut out), Ok(()));
    assert_eq!(decode(&out), Some((5, 1, 3, data.to_vec())));
}

#[test]
fn alpha_change_with_small_colour_step_decodes() {
    let data = [0u8, 0, 0, 255, 1, 0, 0, 0, 2, 1, 0, 0];
    let mut out = Vec::new();
    assert_eq!(qoi_encode_rgba_bytes(&data, 3, 1, &mut out), Ok(()));
    assert_eq!(decode(&out), Some((3, 1, 4, data.to_vec())));
}
