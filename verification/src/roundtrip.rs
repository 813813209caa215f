//! What the format's decoder reads back out of the encoder's stream.
use vstd::prelude::*;
use vstd::arithmetic::div_mod::{lemma_fundamental_div_mod, lemma_mod_multiples_vanish};
use crate::format::{
    Rgba, DecState, hash_of, signed_byte, wrap, chunk_len, decode_chunk, decode_chunks, dec_next,
    op_run, op_diff, op_luma, op_index, pixel_chunk, EncState, enc_prefix, enc_step, run_flush, start_state,
    dec_start, encode_body, qoi_encoding, decode_qoi, QoiImage, image_pixels, header, padding, magic,
    be32, read_be32, diff_chunk, max_encoded_size,
};

verus! {

/// How many times 256 was taken off `v` to bring it into `-128..=127`.
pub open spec fn signed_byte_shift(v: int) -> int {
    if v % 256 < 128 {
        v / 256
    } else {
        v / 256 + 1
    }
}

pub proof fn lemma_signed_byte(v: int)
    ensures
        -128 <= signed_byte(v) < 128,
        signed_byte(v) == v - 256 * signed_byte_shift(v),
        -128 <= v < 128 ==> signed_byte(v) == v,
{
    lemma_fundamental_div_mod(v, 256);
    if -128 <= v < 0 {
        vstd::arithmetic::div_mod::lemma_fundamental_div_mod_converse(v, 256, -1, v + 256);
    } else if 0 <= v < 128 {
        vstd::arithmetic::div_mod::lemma_fundamental_div_mod_converse(v, 256, 0, v);
    }
}

pub proof fn lemma_wrap_shift(y: int, k: int)
    ensures
        wrap(y + 256 * k) == wrap(y),
        0 <= y < 256 ==> wrap(y) == y,
{
    lemma_mod_multiples_vanish(k, y, 256);
    assert(256 * k + y == y + 256 * k);
    if 0 <= y < 256 {
        vstd::arithmetic::div_mod::lemma_fundamental_div_mod_converse(y, 256, 0, y);
    }
}

/// `wrap(base + signed_byte(to - base)) == to`: a wrapped difference added
/// back to where it was taken from gives the channel value again.
pub proof fn lemma_add_signed_diff(base: u8, to: u8)
    ensures
        wrap(base + signed_byte(to - base)) == to,
{
    lemma_signed_byte(to - base);
    lemma_wrap_shift(to as int, -signed_byte_shift(to - base));
}

/// Decoding the bytes of `a` and then those of `b` is decoding `a + b`.
pub proof fn lemma_decode_append(a: Seq<u8>, b: Seq<u8>, s: DecState)
    requires
        decode_chunks(a, s) is Some,
    ensures
        ({
            let (p1, s1) = decode_chunks(a, s).unwrap();
            decode_chunks(a + b, s) == match decode_chunks(b, s1) {
                Some((p2, s2)) => Some((p1 + p2, s2)),
                None => None::<(Seq<Rgba>, DecState)>,
            }
        }),
    decreases a.len(),
{
    if a.len() == 0 {
        assert(a + b =~= b);
        match decode_chunks(b, s) {
            Some((p2, s2)) => {
                assert(seq![] + p2 =~= p2);
            },
            None => {},
        }
    } else {
        let n = chunk_len(a[0]);
        let ab = a + b;
        assert(ab[0] == a[0]);
        assert(forall|i: int| 0 <= i < a.len() ==> ab[i] == a[i]);
        assert(decode_chunk(ab, s) == decode_chunk(a, s));
        let (p, count) = decode_chunk(a, s);
        assert(ab.skip(n as int) =~= a.skip(n as int) + b);
        lemma_decode_append(a.skip(n as int), b, dec_next(s, p));
        let (rest, s1) = decode_chunks(a.skip(n as int), dec_next(s, p)).unwrap();
        match decode_chunks(b, s1) {
            Some((p2, s2)) => {
                assert(Seq::new(count, |i: int| p) + rest + p2 =~= Seq::new(count, |i: int| p) + (rest
                    + p2));
            },
            None => {},
        }
    }
}

/// A single whole chunk decodes to its pixel, repeated.
pub proof fn lemma_decode_one(c: Seq<u8>, s: DecState)
    requires
        c.len() > 0,
        c.len() == chunk_len(c[0]),
    ensures
        ({
            let (p, count) = decode_chunk(c, s);
            decode_chunks(c, s) == Some((Seq::new(count, |i: int| p), dec_next(s, p)))
        }),
{
    let (p, count) = decode_chunk(c, s);
    assert(c.skip(c.len() as int) =~= Seq::<u8>::empty());
    assert(decode_chunks(c.skip(c.len() as int), dec_next(s, p)) == Some((Seq::<Rgba>::empty(), dec_next(s, p))));
    assert(Seq::new(count, |i: int| p) + Seq::<Rgba>::empty() =~= Seq::new(count, |i: int| p));
}

pub proof fn lemma_decode_run(s: DecState, n: int)
    requires
        1 <= n <= 62,
    ensures
        decode_chunks(op_run(n), s) == Some((Seq::new(n as nat, |i: int| s.prev), dec_next(s, s.prev))),
{
    let c = op_run(n);
    assert(c[0] as int == 192 + n - 1);
    assert(c[0] % 64 == n - 1);
    lemma_decode_one(c, s);
}

proof fn lemma_decode_diff(s: DecState, p: Rgba)
    requires
        p.a == s.prev.a,
        -2 <= signed_byte(p.r - s.prev.r) <= 1,
        -2 <= signed_byte(p.g - s.prev.g) <= 1,
        -2 <= signed_byte(p.b - s.prev.b) <= 1,
    ensures
        ({
            let c = op_diff(signed_byte(p.r - s.prev.r), signed_byte(p.g - s.prev.g), signed_byte(p.b - s.prev.b));
            &&& c.len() == 1 == chunk_len(c[0])
            &&& decode_chunk(c, s) == (p, 1nat)
        }),
{
    let prev = s.prev;
    let dr = signed_byte(p.r - prev.r);
    let dg = signed_byte(p.g - prev.g);
    let db = signed_byte(p.b - prev.b);
    lemma_add_signed_diff(prev.r, p.r);
    lemma_add_signed_diff(prev.g, p.g);
    lemma_add_signed_diff(prev.b, p.b);
    let c = op_diff(dr, dg, db);
    let b0 = c[0];
    assert(b0 as int == 64 + (dr + 2) * 16 + (dg + 2) * 4 + (db + 2));
    assert((b0 / 16) % 4 == dr + 2);
    assert((b0 / 4) % 4 == dg + 2);
    assert(b0 % 4 == db + 2);
}

proof fn lemma_decode_luma(s: DecState, p: Rgba)
    requires
        p.a == s.prev.a,
        -32 <= signed_byte(p.g - s.prev.g) <= 31,
        -8 <= signed_byte(signed_byte(p.r - s.prev.r) - signed_byte(p.g - s.prev.g)) <= 7,
        -8 <= signed_byte(signed_byte(p.b - s.prev.b) - signed_byte(p.g - s.prev.g)) <= 7,
    ensures
        ({
            let dr = signed_byte(p.r - s.prev.r);
            let dg = signed_byte(p.g - s.prev.g);
            let db = signed_byte(p.b - s.prev.b);
            let c = op_luma(dg, signed_byte(dr - dg), signed_byte(db - dg));
            &&& c.len() == 2 == chunk_len(c[0])
            &&& decode_chunk(c, s) == (p, 1nat)
        }),
{
    let prev = s.prev;
    let dr = signed_byte(p.r - prev.r);
    let dg = signed_byte(p.g - prev.g);
    let db = signed_byte(p.b - prev.b);
    let dr_dg = signed_byte(dr - dg);
    let db_dg = signed_byte(db - dg);
    lemma_add_signed_diff(prev.r, p.r);
    lemma_add_signed_diff(prev.g, p.g);
    lemma_add_signed_diff(prev.b, p.b);
    let c = op_luma(dg, dr_dg, db_dg);
    let b0 = c[0];
    let b1 = c[1];
    assert(b0 as int == 128 + dg + 32);
    assert(b0 % 64 == dg + 32);
    assert(b1 as int == (dr_dg + 8) * 16 + (db_dg + 8));
    assert(b1 / 16 == dr_dg + 8);
    assert(b1 % 16 == db_dg + 8);
    lemma_signed_byte(dr - dg);
    lemma_signed_byte(db - dg);
    lemma_wrap_shift(prev.r + dr, -signed_byte_shift(dr - dg));
    lemma_wrap_shift(prev.b + db, -signed_byte_shift(db - dg));
    assert(prev.r + dg - 8 + b1 / 16 == prev.r + dr + 256 * (-signed_byte_shift(dr - dg)));
    assert(prev.b + dg - 8 + b1 % 16 == prev.b + db + 256 * (-signed_byte_shift(db - dg)));
}

/// The chunk for a pixel that differs from the previous one decodes to that
/// pixel, given that the decoder's previous pixel is the encoder's and that
/// the decoder's array holds the pixel wherever the encoder finds it.
pub proof fn lemma_decode_pixel_chunk(s: DecState, index: Seq<Rgba>, p: Rgba, channels: u8)
    requires
        channels == 3 || channels == 4,
        index.len() == 64,
        s.index.len() == 64,
        index[hash_of(p)] == p ==> s.index[hash_of(p)] == p,
        channels == 3 ==> p.a == s.prev.a,
    ensures
        decode_chunks(pixel_chunk(s.prev, index, p, channels), s) == Some((seq![p], dec_next(s, p))),
        1 <= pixel_chunk(s.prev, index, p, channels).len() <= channels + 1,
{
    let prev = s.prev;
    let c = pixel_chunk(prev, index, p, channels);
    let h = hash_of(p);
    let dr = signed_byte(p.r - prev.r);
    let dg = signed_byte(p.g - prev.g);
    let db = signed_byte(p.b - prev.b);
    let dr_dg = signed_byte(dr - dg);
    let db_dg = signed_byte(db - dg);
    assert(c == if index[h] == p { op_index(h) } else { diff_chunk(prev, p, channels) });
    if index[h] == p {
        assert(c[0] as int == h);
    } else if p.a == prev.a && -2 <= dr <= 1 && -2 <= dg <= 1 && -2 <= db <= 1 {
        lemma_decode_diff(s, p);
    } else if p.a == prev.a && -32 <= dg <= 31 && -8 <= dr_dg <= 7 && -8 <= db_dg <= 7 {
        lemma_decode_luma(s, p);
    }
    assert(decode_chunk(c, s) == (p, 1nat));
    lemma_decode_one(c, s);
    assert(Seq::new(1, |i: int| p) =~= seq![p]);
}

/// The decoder's array agrees with the encoder's wherever the encoder's
/// entry sits at its own hash, the only places the encoder ever looks up.
pub open spec fn tables_agree(e: Seq<Rgba>, d: Seq<Rgba>) -> bool {
    &&& e.len() == 64
    &&& d.len() == 64
    &&& forall|h: int|
        #![trigger e[h]]
        #![trigger d[h]]
        0 <= h < 64 && hash_of(e[h]) == h ==> d[h] == e[h]
}

/// Where the encoder's array holds a pixel at the previous pixel's hash, it
/// holds the previous pixel.
pub open spec fn prev_indexed(e: EncState) -> bool {
    hash_of(e.index[hash_of(e.prev)]) == hash_of(e.prev) ==> e.index[hash_of(e.prev)] == e.prev
}

pub open spec fn all_opaque(pixels: Seq<Rgba>) -> bool {
    forall|j: int| 0 <= j < pixels.len() ==> #[trigger] pixels[j].a == 255
}

/// After `n` pixels the chunks written so far decode to every pixel but the
/// pending run, and the decoder's state matches the encoder's.
pub closed spec fn prefix_invariant(pixels: Seq<Rgba>, channels: u8, n: nat) -> bool {
    let (e, out) = enc_prefix(pixels, channels, n);
    &&& e.run <= 61
    &&& e.run <= n
    &&& forall|j: int| n - e.run <= j < n ==> #[trigger] pixels[j] == e.prev
    &&& e.index.len() == 64
    &&& prev_indexed(e)
    &&& (channels == 3 ==> e.prev.a == 255)
    &&& match decode_chunks(out, dec_start()) {
        Some((px, d)) => px == pixels.take(n - e.run) && d.prev == e.prev && tables_agree(e.index, d.index),
        None => false,
    }
}

proof fn lemma_step_same(pixels: Seq<Rgba>, channels: u8, n: nat)
    requires
        channels == 3 || channels == 4,
        0 < n <= pixels.len(),
        prefix_invariant(pixels, channels, (n - 1) as nat),
        pixels[n - 1] == enc_prefix(pixels, channels, (n - 1) as nat).0.prev,
    ensures
        prefix_invariant(pixels, channels, n),
{
    let (e, out) = enc_prefix(pixels, channels, (n - 1) as nat);
    let p = pixels[n - 1];
    let (e2, c) = enc_step(e, p, channels);
    let (px, d) = decode_chunks(out, dec_start()).unwrap();
    assert(enc_prefix(pixels, channels, n) == (e2, out + c));
    if e.run + 1 == 62 {
        lemma_decode_run(d, 62);
        lemma_decode_append(out, c, dec_start());
        let d2 = dec_next(d, e.prev);
        let whole = px + Seq::new(62, |i: int| d.prev);
        assert(whole =~= pixels.take(n as int)) by {
            assert forall|j: int| 0 <= j < n implies #[trigger] whole[j] == pixels.take(n as int)[j] by {
                if j < n - 62 {
                } else {
                    assert(pixels[j] == e.prev);
                }
            }
        }
        assert forall|h: int| 0 <= h < 64 && hash_of(e.index[h]) == h implies d2.index[h] == e.index[h] by {
            if h == hash_of(e.prev) {
            } else {
                assert(d.index[h] == e.index[h]);
            }
        }
    } else {
        assert(out + c =~= out);
    }
}

proof fn lemma_step_new(pixels: Seq<Rgba>, channels: u8, n: nat)
    requires
        channels == 3 || channels == 4,
        0 < n <= pixels.len(),
        channels == 3 ==> pixels[n - 1].a == 255,
        prefix_invariant(pixels, channels, (n - 1) as nat),
        pixels[n - 1] != enc_prefix(pixels, channels, (n - 1) as nat).0.prev,
    ensures
        prefix_invariant(pixels, channels, n),
{
    let (e, out) = enc_prefix(pixels, channels, (n - 1) as nat);
    let p = pixels[n - 1];
    let (e2, c) = enc_step(e, p, channels);
    let (px, d) = decode_chunks(out, dec_start()).unwrap();
    assert(enc_prefix(pixels, channels, n) == (e2, out + c));
    let hp = hash_of(p);
    let hq = hash_of(e.prev);
    let flush = run_flush(e.run);
    let chunk = pixel_chunk(e.prev, e.index, p, channels);
    assert(c == flush + chunk);
    let d1 = if e.run == 0 { d } else { dec_next(d, e.prev) };
    if e.index[hp] == p {
        assert(d.index[hp] == e.index[hp]);
        if e.run > 0 && hp == hq {
            assert(e.index[hq] == e.prev);
        }
    }
    lemma_decode_pixel_chunk(d1, e.index, p, channels);
    let d2 = dec_next(d1, p);
    let run_px = Seq::new(e.run, |i: int| e.prev);
    if e.run == 0 {
        assert(flush + chunk =~= chunk);
        assert(run_px + seq![p] =~= seq![p]);
    } else {
        lemma_decode_run(d, e.run as int);
        lemma_decode_append(flush, chunk, d);
    }
    assert(decode_chunks(flush + chunk, d) == Some((run_px + seq![p], d2)));
    lemma_decode_append(out, flush + chunk, dec_start());
    let whole = px + (run_px + seq![p]);
    assert(whole =~= pixels.take(n as int)) by {
        assert forall|j: int| 0 <= j < n implies #[trigger] whole[j] == pixels.take(n as int)[j] by {
            if j < n - 1 - e.run {
            } else if j < n - 1 {
                assert(pixels[j] == e.prev);
            } else {
            }
        }
    }
    assert forall|h: int| 0 <= h < 64 && hash_of(e2.index[h]) == h implies d2.index[h] == e2.index[h] by {
        if h == hp {
        } else if e.run > 0 && h == hq {
            assert(e.index[h] == e.prev);
        } else {
            assert(d.index[h] == e.index[h]);
        }
    }
}

pub proof fn lemma_prefix_invariant(pixels: Seq<Rgba>, channels: u8, n: nat)
    requires
        channels == 3 || channels == 4,
        n <= pixels.len(),
        channels == 3 ==> all_opaque(pixels),
    ensures
        prefix_invariant(pixels, channels, n),
    decreases n,
{
    if n == 0 {
        let e = start_state();
        assert(pixels.take(0) =~= Seq::<Rgba>::empty());
        assert(hash_of(e.index[hash_of(e.prev)]) == 0);
        assert(hash_of(e.prev) == 53);
    } else {
        lemma_prefix_invariant(pixels, channels, (n - 1) as nat);
        if pixels[n - 1] == enc_prefix(pixels, channels, (n - 1) as nat).0.prev {
            lemma_step_same(pixels, channels, n);
        } else {
            lemma_step_new(pixels, channels, n);
        }
    }
}

/// The chunks of all pixels decode to exactly those pixels.
pub proof fn lemma_body_decodes(pixels: Seq<Rgba>, channels: u8)
    requires
        channels == 3 || channels == 4,
        channels == 3 ==> all_opaque(pixels),
    ensures
        decode_chunks(encode_body(pixels, channels), dec_start()) matches Some((px, _)) && px == pixels,
{
    let n = pixels.len();
    lemma_prefix_invariant(pixels, channels, n);
    let (e, out) = enc_prefix(pixels, channels, n);
    let (px, d) = decode_chunks(out, dec_start()).unwrap();
    let flush = run_flush(e.run);
    if e.run == 0 {
        assert(out + flush =~= out);
        assert(px =~= pixels);
    } else {
        lemma_decode_run(d, e.run as int);
        lemma_decode_append(out, flush, dec_start());
        let whole = px + Seq::new(e.run, |i: int| d.prev);
        assert(whole =~= pixels) by {
            assert forall|j: int| 0 <= j < n implies #[trigger] whole[j] == pixels[j] by {
                if j >= n - e.run {
                    assert(pixels[j] == e.prev);
                }
            }
        }
    }
}

pub proof fn lemma_be32(x: u32)
    ensures
        be32(x).len() == 4,
        read_be32(be32(x), 0) == x,
{
    let s = be32(x);
    let x0 = x / 0x100_0000;
    let r0 = x % 0x100_0000;
    lemma_fundamental_div_mod(x as int, 0x100_0000);
    lemma_fundamental_div_mod(x as int, 0x1_0000);
    lemma_fundamental_div_mod(x as int, 0x100);
    lemma_fundamental_div_mod((x / 0x1_0000) as int, 256);
    lemma_fundamental_div_mod((x / 0x100) as int, 256);
    assert(x / 0x1_0000 == x0 * 256 + (x / 0x1_0000) % 256) by {
        vstd::arithmetic::div_mod::lemma_div_denominator(x as int, 0x1_0000, 256);
        vstd::arithmetic::div_mod::lemma_div_denominator(x as int, 256, 0x1_0000);
    }
    assert(x / 0x100 == (x / 0x1_0000) * 256 + (x / 0x100) % 256) by {
        vstd::arithmetic::div_mod::lemma_div_denominator(x as int, 0x100, 256);
    }
    assert(x == (x / 0x100) * 256 + x % 256);
}

/// Decoding what the encoder writes for an image gives the image back.
pub proof fn theorem_decode_encode(width: u32, height: u32, channels: u8, data: Seq<u8>)
    requires
        channels == 3 || channels == 4,
        data.len() >= width * height * channels,
    ensures
        decode_qoi(qoi_encoding(width, height, channels, data)) == Some(QoiImage {
            width,
            height,
            channels,
            colorspace: 0,
            pixels: image_pixels(width, height, channels, data),
        }),
{
    let pixels = image_pixels(width, height, channels, data);
    if channels == 3 {
        assert forall|j: int| 0 <= j < pixels.len() implies #[trigger] pixels[j].a == 255 by {}
    }
    lemma_body_decodes(pixels, channels);
    let body = encode_body(pixels, channels);
    let hd = header(width, height, channels);
    let out = qoi_encoding(width, height, channels, data);
    lemma_be32(width);
    lemma_be32(height);
    assert(hd.len() == 14);
    assert(out == hd + body + padding());
    let len = out.len();
    assert(out.take(4) =~= magic());
    assert(out.subrange(14, len - 8) =~= body);
    assert(out.skip(len - 8) =~= padding());
    assert(read_be32(out, 4) == read_be32(be32(width), 0));
    assert(read_be32(out, 8) == read_be32(be32(height), 0));
    assert(out[12] == channels);
    assert(out[13] == 0);
}

/// What the encoder's state keeps after any number of pixels.
pub proof fn lemma_prefix_state(pixels: Seq<Rgba>, channels: u8, n: nat)
    requires
        channels == 3 || channels == 4,
        n <= pixels.len(),
        channels == 3 ==> all_opaque(pixels),
    ensures
        ({
            let (e, out) = enc_prefix(pixels, channels, n);
            &&& e.run <= 61
            &&& e.index.len() == 64
            &&& (channels == 3 ==> e.prev.a == 255)
        }),
{
    lemma_prefix_invariant(pixels, channels, n);
}

pub proof fn lemma_pixel_chunk_len(prev: Rgba, index: Seq<Rgba>, p: Rgba, channels: u8)
    requires
        channels == 3 || channels == 4,
    ensures
        1 <= pixel_chunk(prev, index, p, channels).len() <= channels + 1,
        1 <= diff_chunk(prev, p, channels).len() <= channels + 1,
{
}

/// Each pixel costs at most one tag byte and its channels.
pub proof fn lemma_prefix_len(pixels: Seq<Rgba>, channels: u8, n: nat)
    requires
        channels == 3 || channels == 4,
        n <= pixels.len(),
    ensures
        ({
            let (e, out) = enc_prefix(pixels, channels, n);
            out.len() + run_flush(e.run).len() <= n + n * channels
        }),
    decreases n,
{
    if n > 0 {
        lemma_prefix_len(pixels, channels, (n - 1) as nat);
        let (e, out) = enc_prefix(pixels, channels, (n - 1) as nat);
        lemma_pixel_chunk_len(e.prev, e.index, pixels[n - 1], channels);
        if channels == 3 {
            assert((n - 1) * 3 + 3 == n * 3);
        } else {
            assert((n - 1) * 4 + 4 == n * 4);
        }
    }
}

/// The whole stream is no longer than `max_encoded_size`.
pub proof fn theorem_encoding_len(width: u32, height: u32, channels: u8, data: Seq<u8>)
    requires
        channels == 3 || channels == 4,
    ensures
        qoi_encoding(width, height, channels, data).len() <= max_encoded_size(channels as int, width * height),
{
    let pixels = image_pixels(width, height, channels, data);
    lemma_prefix_len(pixels, channels, pixels.len());
}

/// Every stream opens with the header of its image and ends with the end
/// marker.
pub proof fn theorem_stream_frame(width: u32, height: u32, channels: u8, data: Seq<u8>)
    ensures
        ({
            let out = qoi_encoding(width, height, channels, data);
            &&& out.len() >= 22
            &&& out.take(14) == header(width, height, channels)
            &&& out.take(4) == magic()
            &&& out.skip(out.len() - 8) == padding()
        }),
{
    let out = qoi_encoding(width, height, channels, data);
    let hd = header(width, height, channels);
    let body = encode_body(image_pixels(width, height, channels, data), channels);
    assert(hd.len() == 14);
    assert(out.take(14) =~= hd);
    assert(out.take(4) =~= magic());
    assert(out.skip(out.len() - 8) =~= padding());
}

} // verus!
