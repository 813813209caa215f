//! The encoder: pixels in, QOI chunks out, written into a preallocated buffer.
use vstd::prelude::*;
use crate::format::{
    Rgba, rgba, spec_hash, hash_of, signed_byte, be32, header, padding, magic, max_encoded_size,
    image_pixels, enc_prefix, enc_step, pixel_chunk, run_flush, qoi_encoding, start_state, diff_chunk,
    op_diff, op_luma, op_rgb, op_rgba,
};
use crate::prepare::{QOI_MAGIC, QOI_PADDING, QOI_HEADER_SIZE, QOI_PADDING_SIZE};
use crate::roundtrip::{
    lemma_signed_byte, signed_byte_shift, lemma_prefix_state, lemma_prefix_len, lemma_pixel_chunk_len,
    all_opaque,
};
use vstd::arithmetic::div_mod::{lemma_fundamental_div_mod, lemma_fundamental_div_mod_converse, lemma_mod_multiples_vanish};

verus! {

pub const QOI_OP_INDEX: u8 = 0b00000000;
pub const QOI_OP_DIFF: u8 = 0b01000000;
pub const QOI_OP_LUMA: u8 = 0b10000000;
pub const QOI_OP_RUN: u8 = 0b11000000;
pub const QOI_OP_RGB: u8 = 0b11111110;
pub const QOI_OP_RGBA: u8 = 0b11111111;

/// A pixel of `N` channels, 3 (RGB) or 4 (RGBA).
#[derive(Clone, Copy, PartialEq, Eq)]
pub struct Pixel<const N: usize>(pub [u8; N]);

impl<const N: usize> Pixel<N> {
    /// The pixel as the format sees it; a 3 channel pixel is opaque.
    pub open spec fn rgba(self) -> Rgba
        recommends
            N == 3 || N == 4,
    {
        rgba(self.0[0], self.0[1], self.0[2], if N == 4 { self.0[3] } else { 255u8 })
    }

    /// Black; opaque where there is an alpha channel.
    pub fn new() -> (p: Self)
        ensures
            N == 4 ==> p.0@ == seq![0u8, 0, 0, 255],
            N != 4 ==> p.0@ == Seq::new(N as nat, |i: int| 0u8),
    {
        Self::with_alpha(255)
    }

    /// All channels 0, alpha included.
    pub fn zero() -> (p: Self)
        ensures
            p.0@ == Seq::new(N as nat, |i: int| 0u8),
    {
        let p = Pixel([0u8; N]);
        assert(p.0@ =~= Seq::new(N as nat, |i: int| 0u8));
        p
    }

    /// Black with the given alpha; where there is no alpha channel, black.
    pub fn with_alpha(alpha: u8) -> (p: Self)
        ensures
            N == 4 ==> p.0@ == seq![0u8, 0, 0, alpha],
            N != 4 ==> p.0@ == Seq::new(N as nat, |i: int| 0u8),
    {
        if N == 4 {
            let mut dat = [0u8; N];
            dat[3] = alpha;
            assert(dat@ =~= seq![0u8, 0, 0, alpha]);
            Pixel(dat)
        } else {
            let p = Pixel([0u8; N]);
            assert(p.0@ =~= Seq::new(N as nat, |i: int| 0u8));
            p
        }
    }
}

#[verifier::spinoff_prover]
#[verifier::rlimit(30)]
proof fn lemma_hash_mix(r: u8, g: u8, b: u8, a: u8, s: u64)
    requires
        s == ((((r as u64) | ((g as u64) << 8) | ((b as u64) << 16) | ((a as u64) << 24)) & 0xff00_ff00) << 32)
            | (((r as u64) | ((g as u64) << 8) | ((b as u64) << 16) | ((a as u64) << 24)) & 0x00ff_00ff),
    ensures
        ((((s as nat * 0x0300_0700_0005_000b_u64 as nat) % 0x1_0000_0000_0000_0000) as u64 >> 56) as u8) & 63
            == spec_hash(r, g, b, a),
{
    assert(s == r as u64 + (b as u64) * 0x1_0000 + (g as u64) * 0x100_0000_0000 + (a as u64) * 0x100_0000_0000_0000)
        by (bit_vector)
        requires
            s == ((((r as u64) | ((g as u64) << 8) | ((b as u64) << 16) | ((a as u64) << 24)) & 0xff00_ff00) << 32)
                | (((r as u64) | ((g as u64) << 8) | ((b as u64) << 16) | ((a as u64) << 24)) & 0x00ff_00ff),
    ;
    let x: int = s as int * 0x0300_0700_0005_000b;
    let t: int = r * 3 + g * 5 + b * 7 + a * 11;
    let low: int = 11 * r + 5 * r * 0x1_0000 + 7 * r * 0x100_0000_0000 + 11 * b * 0x1_0000
        + 5 * b * 0x1_0000_0000 + 11 * g * 0x100_0000_0000;
    let k: int = 3 * b * 0x100 + 7 * g * 0x1_0000 + 3 * g * 0x1_0000_0000 + 5 * a * 0x100
        + 7 * a * 0x1_0000_0000 + 3 * a * 0x1_0000_0000_0000;
    assert(x == k * 0x1_0000_0000_0000_0000 + t * 0x100_0000_0000_0000 + low);
    let q: int = t / 256;
    let m: int = t % 256;
    assert(t == 256 * q + m && 0 <= m < 256) by {
        vstd::arithmetic::div_mod::lemma_fundamental_div_mod(t, 256);
    }
    let w: int = m * 0x100_0000_0000_0000 + low;
    assert(x == (k + q) * 0x1_0000_0000_0000_0000 + w);
    vstd::arithmetic::div_mod::lemma_fundamental_div_mod_converse(x, 0x1_0000_0000_0000_0000, k + q, w);
    vstd::arithmetic::div_mod::lemma_fundamental_div_mod_converse(w, 0x100_0000_0000_0000, m, low);
    let wu: u64 = w as u64;
    assert(wu >> 56 == wu / 0x100_0000_0000_0000) by (bit_vector);
    let top: u8 = (wu >> 56) as u8;
    assert(top == t % 256);
    assert(top & 63 == top % 64) by (bit_vector);
    assert((t % 256) % 64 == t % 64) by {
        vstd::arithmetic::div_mod::lemma_mod_mod(t, 4, 64);
    }
}

/// The position of a pixel in the array of recently seen pixels:
/// `(r * 3 + g * 5 + b * 7 + a * 11) % 64`, alpha 255 for 3 channels.
pub fn hash_pixel<const N: usize>(pix: &Pixel<N>) -> (h: u8)
    requires
        N == 3 || N == 4,
    ensures
        h == hash_of(pix.rgba()),
        h < 64,
{
    let r = pix.0[0];
    let g = pix.0[1];
    let b = pix.0[2];
    let a = if N == 3 { 255u8 } else { pix.0[3] };
    let v: u64 = (r as u64) | ((g as u64) << 8) | ((b as u64) << 16) | ((a as u64) << 24);
    let s: u64 = ((v & 0xff00_ff00) << 32) | (v & 0x00ff_00ff);
    proof {
        lemma_hash_mix(r, g, b, a, s);
    }
    ((s.wrapping_mul(0x0300_0700_0005_000b_u64) >> 56) as u8) & 63
}

/// `s` with the bytes from `at` on replaced by `b`.
pub open spec fn splice(s: Seq<u8>, at: int, b: Seq<u8>) -> Seq<u8> {
    s.take(at) + b + s.skip(at + b.len())
}

proof fn lemma_splice_twice(orig: Seq<u8>, at: int, w: Seq<u8>, c: Seq<u8>)
    requires
        0 <= at,
        at + w.len() + c.len() <= orig.len(),
    ensures
        splice(splice(orig, at, w), at + w.len(), c) == splice(orig, at, w + c),
{
    assert(splice(splice(orig, at, w), at + w.len(), c) =~= splice(orig, at, w + c));
}

/// An output buffer that is large enough for anything written into it, and
/// the position up to which it has been written.
pub struct SliceBuffer<'a> {
    pub data: &'a mut [u8],
    pub pos: usize,
}

impl<'a> SliceBuffer<'a> {
    pub fn new(data: &'a mut [u8]) -> (r: SliceBuffer<'a>)
        ensures
            r.data@ == old(data)@,
            r.pos == 0,
            final(r.data)@ == final(data)@,
    {
        SliceBuffer { data, pos: 0 }
    }

    pub fn push(&mut self, val: u8)
        requires
            old(self).pos < old(self).data@.len(),
        ensures
            final(self).pos == old(self).pos + 1,
            final(self).data@ == splice(old(self).data@, old(self).pos as int, seq![val]),
            final(final(self).data)@ == final(old(self).data)@,
    {
        let p = self.pos;
        self.data[p] = val;
        self.pos = p + 1;
        assert(self.data@ =~= splice(old(self).data@, old(self).pos as int, seq![val]));
    }

    pub fn extend_from_array<const M: usize>(&mut self, arr: [u8; M])
        requires
            old(self).pos + M <= old(self).data@.len(),
        ensures
            final(self).pos == old(self).pos + M,
            final(self).data@ == splice(old(self).data@, old(self).pos as int, arr@),
            final(final(self).data)@ == final(old(self).data)@,
    {
        let ghost orig = self.data@;
        let ghost start = self.pos as int;
        let mut i: usize = 0;
        assert(splice(orig, start, arr@.take(0)) =~= orig);
        while i < M
            invariant
                i <= M,
                self.pos == start + i,
                0 <= start,
                start + M <= orig.len(),
                self.data@ == splice(orig, start, arr@.take(i as int)),
                final(self.data)@ == final(old(self).data)@,
            decreases M - i,
        {
            proof {
                lemma_splice_twice(orig, start, arr@.take(i as int), seq![arr@[i as int]]);
                assert(arr@.take(i + 1) =~= arr@.take(i as int) + seq![arr@[i as int]]);
            }
            self.push(arr[i]);
            i = i + 1;
        }
        assert(arr@.take(M as int) =~= arr@);
    }
}

proof fn lemma_wrapping_sub(x: u8, y: u8)
    ensures
        x.wrapping_sub(y) as int == (x - y) % 256,
{
    if x >= y {
        lemma_fundamental_div_mod_converse(x - y, 256, 0, x - y);
    } else {
        lemma_fundamental_div_mod_converse(x - y, 256, -1, x - y + 256);
    }
}

/// A wrapped difference `d` of bytes, biased by `k`, lies below `2 * k`
/// exactly when the signed difference lies in `-k..k`.
proof fn lemma_biased(d: u8, v: int, k: u8)
    requires
        k == 2 || k == 8 || k == 32,
        d as int == v % 256,
    ensures
        (d.wrapping_add(k) < 2 * k) == (-(k as int) <= signed_byte(v) < k as int),
        d.wrapping_add(k) < 2 * k ==> d.wrapping_add(k) as int == signed_byte(v) + k,
{
}

/// The wrapped difference of two wrapped differences is the wrapped
/// difference of the signed ones.
proof fn lemma_sub_of_diffs(d1: u8, d2: u8, v1: int, v2: int)
    requires
        d1 as int == v1 % 256,
        d2 as int == v2 % 256,
    ensures
        d1.wrapping_sub(d2) as int == (signed_byte(v1) - signed_byte(v2)) % 256,
{
    lemma_wrapping_sub(d1, d2);
    lemma_signed_byte(v1);
    lemma_signed_byte(v2);
    lemma_fundamental_div_mod(v1, 256);
    lemma_fundamental_div_mod(v2, 256);
    let k = v1 / 256 - v2 / 256 - signed_byte_shift(v1) + signed_byte_shift(v2);
    assert(signed_byte(v1) - signed_byte(v2) == 256 * k + (d1 - d2));
    lemma_mod_multiples_vanish(k, d1 - d2, 256);
}

fn same_pixel(a: &Pixel<4>, b: &Pixel<4>) -> (r: bool)
    ensures
        r == (a.rgba() == b.rgba()),
{
    a.0[0] == b.0[0] && a.0[1] == b.0[1] && a.0[2] == b.0[2] && a.0[3] == b.0[3]
}

/// Emits the chunk for a pixel that is neither the previous one nor found in
/// the array of seen pixels.
fn emit_diff_or_full<const CHANNELS: usize>(out: &mut SliceBuffer, prev: &Pixel<4>, pix: &Pixel<4>)
    requires
        CHANNELS == 3 || CHANNELS == 4,
        CHANNELS == 3 ==> pix.0[3] == 255 && prev.0[3] == 255,
        old(out).pos + CHANNELS + 1 <= old(out).data@.len(),
    ensures
        ({
            let c = diff_chunk(prev.rgba(), pix.rgba(), CHANNELS as u8);
            &&& final(out).pos == old(out).pos + c.len()
            &&& final(out).data@ == splice(old(out).data@, old(out).pos as int, c)
            &&& final(final(out).data)@ == final(old(out).data)@
        }),
{
    let ghost p = pix.rgba();
    let ghost q = prev.rgba();
    let ghost c = diff_chunk(q, p, CHANNELS as u8);
    let ghost sdr = signed_byte(p.r - q.r);
    let ghost sdg = signed_byte(p.g - q.g);
    let ghost sdb = signed_byte(p.b - q.b);
    proof {
        lemma_pixel_chunk_len(q, seq![], p, CHANNELS as u8);
    }
    if pix.0[3] == prev.0[3] {
        let dr = pix.0[0].wrapping_sub(prev.0[0]);
        let dg = pix.0[1].wrapping_sub(prev.0[1]);
        let db = pix.0[2].wrapping_sub(prev.0[2]);
        proof {
            lemma_wrapping_sub(pix.0[0], prev.0[0]);
            lemma_wrapping_sub(pix.0[1], prev.0[1]);
            lemma_wrapping_sub(pix.0[2], prev.0[2]);
            lemma_biased(dr, p.r - q.r, 2);
            lemma_biased(dg, p.g - q.g, 2);
            lemma_biased(db, p.b - q.b, 2);
        }
        let dr2 = dr.wrapping_add(2);
        let dg2 = dg.wrapping_add(2);
        let db2 = db.wrapping_add(2);
        if dr2 < 4 && dg2 < 4 && db2 < 4 {
            let buf = QOI_OP_DIFF | (dr2 << 4) | (dg2 << 2) | db2;
            assert(buf == 64 + dr2 * 16 + dg2 * 4 + db2) by (bit_vector)
                requires
                    buf == 64u8 | (dr2 << 4) | (dg2 << 2) | db2,
                    dr2 < 4,
                    dg2 < 4,
                    db2 < 4,
            ;
            assert(c == op_diff(sdr, sdg, sdb));
            assert(c =~= seq![buf]);
            out.push(buf);
            return;
        }
        let drg = dr.wrapping_sub(dg);
        let dbg = db.wrapping_sub(dg);
        proof {
            lemma_sub_of_diffs(dr, dg, p.r - q.r, p.g - q.g);
            lemma_sub_of_diffs(db, dg, p.b - q.b, p.g - q.g);
            lemma_biased(dg, p.g - q.g, 32);
            lemma_biased(drg, sdr - sdg, 8);
            lemma_biased(dbg, sdb - sdg, 8);
        }
        let dg32 = dg.wrapping_add(32);
        let drg8 = drg.wrapping_add(8);
        let dbg8 = dbg.wrapping_add(8);
        if dg32 < 64 && drg8 < 16 && dbg8 < 16 {
            let buf1 = QOI_OP_LUMA | dg32;
            let buf2 = (drg8 << 4) | dbg8;
            assert(buf1 == 128 + dg32 && buf2 == drg8 * 16 + dbg8) by (bit_vector)
                requires
                    buf1 == 128u8 | dg32,
                    buf2 == (drg8 << 4) | dbg8,
                    dg32 < 64,
                    drg8 < 16,
                    dbg8 < 16,
            ;
            assert(c == op_luma(sdg, signed_byte(sdr - sdg), signed_byte(sdb - sdg)));
            assert(c =~= seq![buf1, buf2]);
            out.extend_from_array([buf1, buf2]);
            assert([buf1, buf2]@ =~= c);
            return;
        }
    }
    if CHANNELS == 4 {
        let arr = [QOI_OP_RGBA, pix.0[0], pix.0[1], pix.0[2], pix.0[3]];
        assert(arr@ =~= op_rgba(p));
        out.extend_from_array(arr);
    } else {
        let arr = [QOI_OP_RGB, pix.0[0], pix.0[1], pix.0[2]];
        assert(arr@ =~= op_rgb(p));
        out.extend_from_array(arr);
    }
}

fn be32_bytes(x: u32) -> (b: [u8; 4])
    ensures
        b@ == be32(x),
{
    let b = [(x >> 24) as u8, (x >> 16) as u8, (x >> 8) as u8, x as u8];
    assert((x >> 24) as u8 == (x / 0x100_0000) as u8) by (bit_vector);
    assert((x >> 16) as u8 == (x / 0x1_0000 % 256) as u8) by (bit_vector);
    assert((x >> 8) as u8 == (x / 0x100 % 256) as u8) by (bit_vector);
    assert(x as u8 == (x % 256) as u8) by (bit_vector);
    assert(b@ =~= be32(x));
    b
}

/// Writes the QOI stream of a `width * height` image of `CHANNELS` channels,
/// whose pixels are packed in `image`, into `out` from its position on.
#[verifier::spinoff_prover]
#[verifier::rlimit(60)]
pub(crate) fn qoi_encode_generic<const CHANNELS: usize>(image: &[u8], width: u32, height: u32, out: &mut SliceBuffer)
    requires
        CHANNELS == 3 || CHANNELS == 4,
        width * height * CHANNELS <= image@.len(),
        old(out).pos + max_encoded_size(CHANNELS as int, width * height) <= old(out).data@.len(),
    ensures
        ({
            let enc = qoi_encoding(width, height, CHANNELS as u8, image@);
            &&& final(out).pos == old(out).pos + enc.len()
            &&& final(out).data@ == splice(old(out).data@, old(out).pos as int, enc)
            &&& final(final(out).data)@ == final(old(out).data)@
        }),
{
    let ghost orig = out.data@;
    let ghost p0 = out.pos as int;
    let ghost ch = CHANNELS as u8;
    let ghost pixels = image_pixels(width, height, ch, image@);
    let ghost hd = header(width, height, ch);
    proof {
        if CHANNELS == 3 {
            assert(width * height * CHANNELS == 3 * (width * height));
        } else {
            assert(width * height * CHANNELS == 4 * (width * height));
        }
        assert(0 <= width * height) by (nonlinear_arith)
            requires
                0 <= width,
                0 <= height,
        ;
        assert(width * height <= image@.len());
    }
    out.extend_from_array(QOI_MAGIC);
    let wb = be32_bytes(width);
    let hb = be32_bytes(height);
    let tail = [CHANNELS as u8, 0u8];
    proof {
        assert(QOI_MAGIC@ =~= magic());
        lemma_splice_twice(orig, p0, magic(), be32(width));
        lemma_splice_twice(orig, p0, magic() + be32(width), be32(height));
        lemma_splice_twice(orig, p0, magic() + be32(width) + be32(height), tail@);
        assert(tail@ =~= seq![ch, 0u8]);
    }
    out.extend_from_array(wb);
    out.extend_from_array(hb);
    out.extend_from_array(tail);
    let image_len = image.len();
    assert((width as usize) * (height as usize) <= image_len);
    let npix: usize = width as usize * height as usize;
    let mut prev = Pixel::<4>::new();
    let zero = Pixel::<4>::zero();
    let mut lookup = [zero; 64];
    let mut run: i8 = -1;
    let mut i: usize = 0;
    let mut base: usize = 0;
    proof {
        if ch == 3 {
            assert forall|j: int| 0 <= j < pixels.len() implies #[trigger] pixels[j].a == 255 by {}
        }
        assert(enc_prefix(pixels, ch, 0) == (start_state(), Seq::<u8>::empty()));
        assert(hd + Seq::<u8>::empty() =~= hd);
        assert(prev.rgba() == rgba(0, 0, 0, 255));
        assert forall|k: int| 0 <= k < 64 implies #[trigger] lookup[k].rgba() == start_state().index[k] by {
            assert(lookup[k] == zero);
        }
    }
    while i < npix
        invariant
            CHANNELS == 3 || CHANNELS == 4,
            ch == CHANNELS as u8,
            npix == width * height,
            pixels == image_pixels(width, height, ch, image@),
            pixels.len() == npix,
            ch == 3 ==> all_opaque(pixels),
            i <= npix,
            base == (if CHANNELS == 3 { 3 * i } else { 4 * i }),
            (if CHANNELS == 3 { 3 * npix } else { 4 * npix }) <= image@.len(),
            0 <= p0,
            out.data@.len() == orig.len(),
            p0 + max_encoded_size(CHANNELS as int, npix as int) <= orig.len(),
            hd.len() == 14,
            enc_prefix(pixels, ch, i as nat).0.prev == prev.rgba(),
            enc_prefix(pixels, ch, i as nat).0.run == run + 1,
            enc_prefix(pixels, ch, i as nat).0.index.len() == 64,
            forall|k: int| 0 <= k < 64 ==> #[trigger] lookup[k].rgba() == enc_prefix(pixels, ch, i as nat).0.index[k],
            out.pos == p0 + hd.len() + enc_prefix(pixels, ch, i as nat).1.len(),
            out.data@ == splice(orig, p0, hd + enc_prefix(pixels, ch, i as nat).1),
            final(out.data)@ == final(old(out).data)@,
            ch == 3 ==> prev.0[3] == 255,
            -1 <= run <= 60,
        decreases npix - i,
    {
        let ghost e = enc_prefix(pixels, ch, i as nat).0;
        let ghost w = enc_prefix(pixels, ch, i as nat).1;
        let r = image[base];
        let g = image[base + 1];
        let b = image[base + 2];
        let a = if CHANNELS == 4 { image[base + 3] } else { 255u8 };
        let pix = Pixel([r, g, b, a]);
        let ghost p = pixels[i as int];
        let ghost e2 = enc_step(e, p, ch).0;
        let ghost c = enc_step(e, p, ch).1;
        proof {
            assert(pix.rgba() == p);
            assert(enc_prefix(pixels, ch, (i + 1) as nat) == (e2, w + c));
            lemma_prefix_len(pixels, ch, (i + 1) as nat);
            lemma_prefix_state(pixels, ch, (i + 1) as nat);
            vstd::arithmetic::mul::lemma_mul_inequality((i + 1) as int, npix as int, CHANNELS as int);
            lemma_splice_twice(orig, p0, hd + w, c);
            assert(hd + w + c == hd + (w + c));
        }
        i = i + 1;
        base = base + CHANNELS;
        if same_pixel(&pix, &prev) {
            run = run + 1;
            if run == 61 {
                let byte = QOI_OP_RUN | 61;
                assert(byte == 253) by (bit_vector)
                    requires
                        byte == 0b11000000u8 | 61u8,
                ;
                assert(c =~= seq![byte]);
                out.push(byte);
                run = -1;
            } else {
                assert(c =~= Seq::<u8>::empty());
                assert(w + c =~= w);
            }
        } else {
            let ghost flush = run_flush(e.run);
            let ghost chunk = pixel_chunk(e.prev, e.index, p, ch);
            assert(c == flush + chunk);
            proof {
                lemma_pixel_chunk_len(e.prev, e.index, p, ch);
                lemma_splice_twice(orig, p0, hd + w, flush);
                lemma_splice_twice(orig, p0, hd + w + flush, chunk);
                assert(hd + w + flush + chunk =~= hd + (w + c));
            }
            if run != -1 {
                let byte = QOI_OP_RUN | run as u8;
                let ghost rb = run as u8;
                assert(byte == 192 + rb) by (bit_vector)
                    requires
                        byte == 0b11000000u8 | rb,
                        rb < 64,
                ;
                assert(flush =~= seq![byte]);
                out.push(byte);
                run = -1;
            } else {
                assert(flush =~= Seq::<u8>::empty());
                assert(hd + w + flush =~= hd + w);
            }
            let hash = hash_pixel(&pix);
            if same_pixel(&pix, &lookup[hash as usize]) {
                let byte = QOI_OP_INDEX | hash;
                assert(byte == hash) by (bit_vector)
                    requires
                        byte == 0u8 | hash,
                ;
                assert(chunk =~= seq![byte]);
                out.push(byte);
                prev = pix;
                assert(e2.index =~= e.index);
            } else {
                assert(chunk == diff_chunk(e.prev, p, ch));
                emit_diff_or_full::<CHANNELS>(out, &prev, &pix);
                lookup[hash as usize] = pix;
                prev = pix;
                assert forall|k: int| 0 <= k < 64 implies #[trigger] lookup[k].rgba() == e2.index[k] by {}
            }
        }
    }
    let ghost e = enc_prefix(pixels, ch, npix as nat).0;
    let ghost w = enc_prefix(pixels, ch, npix as nat).1;
    proof {
        lemma_prefix_len(pixels, ch, npix as nat);
        lemma_splice_twice(orig, p0, hd + w, run_flush(e.run));
        lemma_splice_twice(orig, p0, hd + w + run_flush(e.run), padding());
        assert(QOI_PADDING@ =~= padding());
        assert(qoi_encoding(width, height, ch, image@) =~= hd + w + run_flush(e.run) + padding());
    }
    if run != -1 {
        let byte = QOI_OP_RUN | run as u8;
        let ghost rb = run as u8;
        assert(byte == 192 + rb) by (bit_vector)
            requires
                byte == 0b11000000u8 | rb,
                rb < 64,
        ;
        assert(run_flush(e.run) =~= seq![byte]);
        out.push(byte);
    } else {
        assert(hd + w + run_flush(e.run) =~= hd + w);
    }
    out.extend_from_array(QOI_PADDING);
}

/// Writes the QOI stream of a 4 channel image to the start of `out`, which is
/// large enough for any stream of that image; returns its length.
pub fn qoi_encode_ch4_preallocated(image: &[u8], width: u32, height: u32, out: &mut [u8]) -> (n: usize)
    requires
        width * height * 4 <= image@.len(),
        max_encoded_size(4, width * height) <= old(out)@.len(),
    ensures
        n == qoi_encoding(width, height, 4, image@).len(),
        final(out)@ == splice(old(out)@, 0, qoi_encoding(width, height, 4, image@)),
{
    let mut buf = SliceBuffer::new(out);
    qoi_encode_generic::<4>(image, width, height, &mut buf);
    buf.pos
}

/// Writes the QOI stream of a 3 channel image to the start of `out`, which is
/// large enough for any stream of that image; returns its length.
pub fn qoi_encode_ch3_preallocated(image: &[u8], width: u32, height: u32, out: &mut [u8]) -> (n: usize)
    requires
        width * height * 3 <= image@.len(),
        max_encoded_size(3, width * height) <= old(out)@.len(),
    ensures
        n == qoi_encoding(width, height, 3, image@).len(),
        final(out)@ == splice(old(out)@, 0, qoi_encoding(width, height, 3, image@)),
{
    let mut buf = SliceBuffer::new(out);
    qoi_encode_generic::<3>(image, width, height, &mut buf);
    buf.pos
}

/// Appends the QOI stream of a `CHANNELS` channel image to `out`.
fn qoi_encode_vec<const CHANNELS: usize>(image: &[u8], width: u32, height: u32, out: Vec<u8>) -> (res: Vec<u8>)
    requires
        CHANNELS == 3 || CHANNELS == 4,
        width * height * CHANNELS <= image@.len(),
        out@.len() + max_encoded_size(CHANNELS as int, width * height) <= usize::MAX,
    ensures
        res@ == out@ + qoi_encoding(width, height, CHANNELS as u8, image@),
{
    let ghost old_out = out@;
    let ghost enc = qoi_encoding(width, height, CHANNELS as u8, image@);
    let mut out = out;
    let start = out.len();
    let image_len = image.len();
    proof {
        assert(0 <= width * height) by (nonlinear_arith)
            requires
                0 <= width,
                0 <= height,
        ;
        if CHANNELS == 3 {
            assert(width * height * CHANNELS == 3 * (width * height));
        } else {
            assert(width * height * CHANNELS == 4 * (width * height));
        }
        crate::roundtrip::theorem_encoding_len(width, height, CHANNELS as u8, image@);
    }
    let n: usize = width as usize * height as usize;
    let max: usize = QOI_HEADER_SIZE + n + n * CHANNELS + QOI_PADDING_SIZE;
    out.resize(start + max, 0u8);
    let ghost resized = out@;
    let written = {
        let mut buf = SliceBuffer::new(out.as_mut_slice());
        buf.pos = start;
        qoi_encode_generic::<CHANNELS>(image, width, height, &mut buf);
        buf.pos
    };
    assert(out@ == splice(resized, start as int, enc));
    out.truncate(written);
    assert(out@ =~= old_out + enc);
    out
}

/// Appends the QOI stream of a 4 channel image to `out`.
pub fn qoi_encode_ch4_vec(image: &[u8], width: u32, height: u32, out: Vec<u8>) -> (res: Vec<u8>)
    requires
        width * height * 4 <= image@.len(),
        out@.len() + max_encoded_size(4, width * height) <= usize::MAX,
    ensures
        res@ == out@ + qoi_encoding(width, height, 4, image@),
{
    qoi_encode_vec::<4>(image, width, height, out)
}

/// Appends the QOI stream of a 3 channel image to `out`.
pub fn qoi_encode_ch3_vec(image: &[u8], width: u32, height: u32, out: Vec<u8>) -> (res: Vec<u8>)
    requires
        width * height * 3 <= image@.len(),
        out@.len() + max_encoded_size(3, width * height) <= usize::MAX,
    ensures
        res@ == out@ + qoi_encoding(width, height, 3, image@),
{
    qoi_encode_vec::<3>(image, width, height, out)
}

} // verus!
