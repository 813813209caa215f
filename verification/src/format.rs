//! The QOI image format as mathematics: what an encoder emits for a
//! sequence of pixels, and what a decoder reads back out of a byte stream.
use vstd::prelude::*;

verus! {

/// A pixel as the format sees it: four channels, alpha included.
pub struct Rgba {
    pub r: u8,
    pub g: u8,
    pub b: u8,
    pub a: u8,
}

pub open spec fn rgba(r: u8, g: u8, b: u8, a: u8) -> Rgba {
    Rgba { r, g, b, a }
}

/// The index position of a pixel: `(r * 3 + g * 5 + b * 7 + a * 11) % 64`.
pub open spec fn spec_hash(r: u8, g: u8, b: u8, a: u8) -> int {
    (r * 3 + g * 5 + b * 7 + a * 11) % 64
}

pub open spec fn hash_of(p: Rgba) -> int {
    spec_hash(p.r, p.g, p.b, p.a)
}

/// Bytes in a stream: the 14 byte header and the 8 byte end marker.
pub open spec fn header_size() -> nat {
    14
}

pub open spec fn padding_size() -> nat {
    8
}

/// The largest encoding of `num_pixels` pixels of `channels` channels: every
/// pixel as a full `QOI_OP_RGB` / `QOI_OP_RGBA` chunk.
pub open spec fn max_encoded_size(channels: int, num_pixels: int) -> int {
    header_size() + num_pixels + num_pixels * channels + padding_size()
}

/// The pixel `i` of a tightly packed 3 or 4 channel byte buffer. A 3 channel
/// pixel is opaque.
pub open spec fn pixel_at(data: Seq<u8>, channels: u8, i: int) -> Rgba {
    let o = if channels == 3 { 3 * i } else { 4 * i };
    Rgba {
        r: data[o],
        g: data[o + 1],
        b: data[o + 2],
        a: if channels == 3 { 255u8 } else { data[o + 3] },
    }
}

/// The `width * height` pixels that an image buffer holds, row by row.
pub open spec fn image_pixels(width: u32, height: u32, channels: u8, data: Seq<u8>) -> Seq<Rgba> {
    Seq::new((width * height) as nat, |i: int| pixel_at(data, channels, i))
}

pub open spec fn magic() -> Seq<u8> {
    seq![0x71u8, 0x6f, 0x69, 0x66]
}

pub open spec fn padding() -> Seq<u8> {
    seq![0u8, 0, 0, 0, 0, 0, 0, 1]
}

/// A 32 bit number, most significant byte first.
pub open spec fn be32(x: u32) -> Seq<u8> {
    seq![(x / 0x100_0000) as u8, (x / 0x1_0000 % 256) as u8, (x / 0x100 % 256) as u8, (x % 256) as u8]
}

pub open spec fn read_be32(data: Seq<u8>, at: int) -> int {
    data[at] * 0x100_0000 + data[at + 1] * 0x1_0000 + data[at + 2] * 0x100 + data[at + 3]
}

/// Magic, width, height, channels and colorspace 0 (sRGB with linear alpha).
pub open spec fn header(width: u32, height: u32, channels: u8) -> Seq<u8> {
    magic() + be32(width) + be32(height) + seq![channels, 0u8]
}

/// A difference between two channel values, wrapped into `-128..=127`.
pub open spec fn signed_byte(d: int) -> int {
    let m = d % 256;
    if m < 128 {
        m
    } else {
        m - 256
    }
}

pub open spec fn wrap(x: int) -> u8 {
    (x % 256) as u8
}

pub open spec fn op_index(h: int) -> Seq<u8> {
    seq![h as u8]
}

pub open spec fn op_diff(dr: int, dg: int, db: int) -> Seq<u8> {
    seq![(64 + (dr + 2) * 16 + (dg + 2) * 4 + (db + 2)) as u8]
}

pub open spec fn op_luma(dg: int, dr_dg: int, db_dg: int) -> Seq<u8> {
    seq![(128 + dg + 32) as u8, ((dr_dg + 8) * 16 + (db_dg + 8)) as u8]
}

/// A run of `n` repetitions of the previous pixel, `1 <= n <= 62`.
pub open spec fn op_run(n: int) -> Seq<u8> {
    seq![(192 + n - 1) as u8]
}

pub open spec fn op_rgb(p: Rgba) -> Seq<u8> {
    seq![254u8, p.r, p.g, p.b]
}

pub open spec fn op_rgba(p: Rgba) -> Seq<u8> {
    seq![255u8, p.r, p.g, p.b, p.a]
}

/// What the encoder remembers between pixels: the previous pixel, the 64
/// entry array of recently seen pixels, and the length of the pending run.
pub struct EncState {
    pub prev: Rgba,
    pub index: Seq<Rgba>,
    pub run: nat,
}

pub open spec fn start_index() -> Seq<Rgba> {
    Seq::new(64, |i: int| rgba(0, 0, 0, 0))
}

pub open spec fn start_state() -> EncState {
    EncState { prev: rgba(0, 0, 0, 255), index: start_index(), run: 0 }
}

/// The chunk that closes a pending run, if there is one.
pub open spec fn run_flush(run: nat) -> Seq<u8> {
    if run == 0 {
        seq![]
    } else {
        op_run(run as int)
    }
}

/// The chunk for a pixel that differs from the previous one, tried in the
/// order of the format: an index into the array of seen pixels, then what
/// `diff_chunk` picks.
pub open spec fn pixel_chunk(prev: Rgba, index: Seq<Rgba>, p: Rgba, channels: u8) -> Seq<u8> {
    if index[hash_of(p)] == p {
        op_index(hash_of(p))
    } else {
        diff_chunk(prev, p, channels)
    }
}

/// A small difference to the previous pixel, a luma difference, and last
/// the full pixel. The differences are only used where alpha is unchanged.
pub open spec fn diff_chunk(prev: Rgba, p: Rgba, channels: u8) -> Seq<u8> {
    let dr = signed_byte(p.r - prev.r);
    let dg = signed_byte(p.g - prev.g);
    let db = signed_byte(p.b - prev.b);
    let dr_dg = signed_byte(dr - dg);
    let db_dg = signed_byte(db - dg);
    if p.a == prev.a && -2 <= dr <= 1 && -2 <= dg <= 1 && -2 <= db <= 1 {
        op_diff(dr, dg, db)
    } else if p.a == prev.a && -32 <= dg <= 31 && -8 <= dr_dg <= 7 && -8 <= db_dg <= 7 {
        op_luma(dg, dr_dg, db_dg)
    } else if channels == 4 {
        op_rgba(p)
    } else {
        op_rgb(p)
    }
}

/// One pixel through the encoder: the next state and the bytes emitted.
pub open spec fn enc_step(s: EncState, p: Rgba, channels: u8) -> (EncState, Seq<u8>) {
    if p == s.prev {
        if s.run + 1 == 62 {
            (EncState { prev: s.prev, index: s.index, run: 0 }, op_run(62))
        } else {
            (EncState { prev: s.prev, index: s.index, run: s.run + 1 }, seq![])
        }
    } else {
        (
            EncState { prev: p, index: s.index.update(hash_of(p), p), run: 0 },
            run_flush(s.run) + pixel_chunk(s.prev, s.index, p, channels),
        )
    }
}

/// The encoder after the first `n` pixels: its state and the chunks so far.
pub open spec fn enc_prefix(pixels: Seq<Rgba>, channels: u8, n: nat) -> (EncState, Seq<u8>)
    decreases n,
{
    if n == 0 {
        (start_state(), seq![])
    } else {
        let (s, out) = enc_prefix(pixels, channels, (n - 1) as nat);
        let (s2, c) = enc_step(s, pixels[n - 1], channels);
        (s2, out + c)
    }
}

/// The chunks of all pixels, the last pending run closed.
pub open spec fn encode_body(pixels: Seq<Rgba>, channels: u8) -> Seq<u8> {
    let (s, out) = enc_prefix(pixels, channels, pixels.len());
    out + run_flush(s.run)
}

/// The QOI stream of a `width * height` image of `channels` channels whose
/// pixels are packed in `data`.
pub open spec fn qoi_encoding(width: u32, height: u32, channels: u8, data: Seq<u8>) -> Seq<u8> {
    header(width, height, channels) + encode_body(image_pixels(width, height, channels, data), channels)
        + padding()
}

/// What a decoder remembers between chunks.
pub struct DecState {
    pub prev: Rgba,
    pub index: Seq<Rgba>,
}

pub open spec fn dec_start() -> DecState {
    DecState { prev: rgba(0, 0, 0, 255), index: start_index() }
}

/// The length in bytes of the chunk that starts with the tag byte `b0`.
pub open spec fn chunk_len(b0: u8) -> nat {
    if b0 == 254 {
        4
    } else if b0 == 255 {
        5
    } else if 128 <= b0 < 192 {
        2
    } else {
        1
    }
}

/// The pixel that the chunk at the start of `bytes` stands for, and how many
/// times it repeats. `bytes` holds at least the whole chunk.
pub open spec fn decode_chunk(bytes: Seq<u8>, s: DecState) -> (Rgba, nat) {
    let b0 = bytes[0];
    let prev = s.prev;
    if b0 == 254 {
        (rgba(bytes[1], bytes[2], bytes[3], prev.a), 1)
    } else if b0 == 255 {
        (rgba(bytes[1], bytes[2], bytes[3], bytes[4]), 1)
    } else if b0 < 64 {
        (s.index[b0 as int], 1)
    } else if b0 < 128 {
        let dr = (b0 / 16) % 4 - 2;
        let dg = (b0 / 4) % 4 - 2;
        let db = b0 % 4 - 2;
        (rgba(wrap(prev.r + dr), wrap(prev.g + dg), wrap(prev.b + db), prev.a), 1)
    } else if b0 < 192 {
        let dg = b0 % 64 - 32;
        let b1 = bytes[1];
        (
            rgba(
                wrap(prev.r + dg - 8 + b1 / 16),
                wrap(prev.g + dg),
                wrap(prev.b + dg - 8 + b1 % 16),
                prev.a,
            ),
            1,
        )
    } else {
        (prev, (b0 % 64 + 1) as nat)
    }
}

/// The decoder state after a chunk that stood for `p`.
pub open spec fn dec_next(s: DecState, p: Rgba) -> DecState {
    DecState { prev: p, index: s.index.update(hash_of(p), p) }
}

/// The pixels of a sequence of whole chunks, and the decoder state after
/// them; `None` where the last chunk is cut short.
pub open spec fn decode_chunks(bytes: Seq<u8>, s: DecState) -> Option<(Seq<Rgba>, DecState)>
    decreases bytes.len(),
{
    if bytes.len() == 0 {
        Some((seq![], s))
    } else if bytes.len() < chunk_len(bytes[0]) {
        None
    } else {
        let (p, count) = decode_chunk(bytes, s);
        match decode_chunks(bytes.skip(chunk_len(bytes[0]) as int), dec_next(s, p)) {
            Some((rest, s2)) => Some((Seq::new(count, |i: int| p) + rest, s2)),
            None => None,
        }
    }
}

/// A decoded image.
pub struct QoiImage {
    pub width: u32,
    pub height: u32,
    pub channels: u8,
    pub colorspace: u8,
    pub pixels: Seq<Rgba>,
}

/// A QOI stream read back: a valid header, whole chunks that stand for
/// exactly `width * height` pixels, and the end marker.
pub open spec fn decode_qoi(data: Seq<u8>) -> Option<QoiImage> {
    if data.len() < header_size() + padding_size() {
        None
    } else {
        let width = read_be32(data, 4) as u32;
        let height = read_be32(data, 8) as u32;
        let channels = data[12];
        let colorspace = data[13];
        if data.take(4) != magic() || !(channels == 3 || channels == 4) || colorspace > 1
            || data.skip(data.len() - padding_size()) != padding() {
            None
        } else {
            match decode_chunks(data.subrange(14, data.len() - padding_size()), dec_start()) {
                Some((pixels, _)) => if pixels.len() == width * height {
                    Some(QoiImage { width, height, channels, colorspace, pixels })
                } else {
                    None
                },
                None => None,
            }
        }
    }
}

} // verus!
