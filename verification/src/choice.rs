//! Which chunk the encoder picks for each pixel, stated over the pixels
//! themselves: the pixel before it, the pixels seen so far, and the length
//! of the run it ends or continues.
use vstd::prelude::*;
use crate::format::{
    Rgba, rgba, hash_of, signed_byte, start_index, EncState, enc_prefix, enc_step, pixel_chunk, diff_chunk,
    run_flush, op_run, op_index, op_diff, op_luma, op_rgb, op_rgba, qoi_encoding, image_pixels, header,
    padding, encode_body,
};

verus! {

/// The pixel a stream starts from: opaque black.
pub open spec fn start_pixel() -> Rgba {
    rgba(0, 0, 0, 255)
}

/// The pixel before pixel `i`; the start pixel for the first one.
pub open spec fn prev_pixel(pixels: Seq<Rgba>, i: int) -> Rgba {
    if i == 0 {
        start_pixel()
    } else {
        pixels[i - 1]
    }
}

/// The first `i` pixels all repeat the start pixel.
pub open spec fn all_start(pixels: Seq<Rgba>, i: int) -> bool {
    forall|k: int| 0 <= k < i ==> pixels[k] == start_pixel()
}

/// The array of seen pixels before pixel `i`: at each hash, the last of the
/// first `i` pixels with that hash, counting from the first pixel that is
/// not the start pixel; transparent black where there is none.
pub open spec fn seen_array(pixels: Seq<Rgba>, i: nat) -> Seq<Rgba>
    decreases i,
{
    if i == 0 || all_start(pixels, i as int) {
        start_index()
    } else {
        seen_array(pixels, (i - 1) as nat).update(hash_of(pixels[i - 1]), pixels[i - 1])
    }
}

/// How many of the pixels before pixel `i` repeat their predecessor at the
/// end and are not yet sent: a run is sent once it reaches 62.
pub open spec fn pending_run(pixels: Seq<Rgba>, i: nat) -> nat
    decreases i,
{
    if i == 0 {
        0
    } else if pixels[i - 1] == prev_pixel(pixels, i - 1) {
        if pending_run(pixels, (i - 1) as nat) + 1 == 62 {
            0
        } else {
            pending_run(pixels, (i - 1) as nat) + 1
        }
    } else {
        0
    }
}

/// The encoder's state after `i` pixels is the previous pixel, the array of
/// seen pixels and the pending run.
proof fn lemma_state(pixels: Seq<Rgba>, channels: u8, i: nat)
    requires
        i <= pixels.len(),
    ensures
        enc_prefix(pixels, channels, i).0 == (EncState {
            prev: prev_pixel(pixels, i as int),
            index: seen_array(pixels, i),
            run: pending_run(pixels, i),
        }),
        seen_array(pixels, i).len() == 64,
        !all_start(pixels, i as int) ==> seen_array(pixels, i)[hash_of(prev_pixel(pixels, i as int))]
            == prev_pixel(pixels, i as int),
    decreases i,
{
    if i == 0 {
        assert(enc_prefix(pixels, channels, 0).0.index =~= start_index());
    } else {
        let j = (i - 1) as nat;
        lemma_state(pixels, channels, j);
        let e = enc_prefix(pixels, channels, j).0;
        let p = pixels[j as int];
        let s = seen_array(pixels, j);
        assert(enc_prefix(pixels, channels, i).0 == enc_step(e, p, channels).0);
        if all_start(pixels, i as int) {
            assert(all_start(pixels, j as int));
            assert(p == start_pixel());
            assert(prev_pixel(pixels, j as int) == start_pixel());
        } else if p == e.prev {
            assert(!all_start(pixels, j as int));
            assert(s.update(hash_of(p), p) =~= s);
        } else {
        }
    }
}

/// A pixel that differs from the one before it and is found at its own hash
/// in the array of seen pixels is sent as the one byte index chunk of that
/// hash, after the chunk that closes a pending run, whatever the alpha.
pub proof fn theorem_index_chunk(pixels: Seq<Rgba>, channels: u8, i: nat)
    requires
        i < pixels.len(),
        pixels[i as int] != prev_pixel(pixels, i as int),
        seen_array(pixels, i)[hash_of(pixels[i as int])] == pixels[i as int],
    ensures
        enc_prefix(pixels, channels, i + 1).1 == enc_prefix(pixels, channels, i).1 + run_flush(
            pending_run(pixels, i),
        ) + op_index(hash_of(pixels[i as int])),
{
    lemma_state(pixels, channels, i);
}

/// A pixel that differs from the one before it, is not in the array of seen
/// pixels at its hash, keeps the alpha of the one before and steps each of
/// red, green and blue by -2 to 1 (wrapping), is sent as a one byte
/// difference chunk.
pub proof fn theorem_diff_chunk(pixels: Seq<Rgba>, channels: u8, i: nat)
    requires
        i < pixels.len(),
        ({
            let p = pixels[i as int];
            let q = prev_pixel(pixels, i as int);
            &&& p != q
            &&& seen_array(pixels, i)[hash_of(p)] != p
            &&& p.a == q.a
            &&& -2 <= signed_byte(p.r - q.r) <= 1
            &&& -2 <= signed_byte(p.g - q.g) <= 1
            &&& -2 <= signed_byte(p.b - q.b) <= 1
        }),
    ensures
        ({
            let p = pixels[i as int];
            let q = prev_pixel(pixels, i as int);
            enc_prefix(pixels, channels, i + 1).1 == enc_prefix(pixels, channels, i).1 + run_flush(
                pending_run(pixels, i),
            ) + op_diff(signed_byte(p.r - q.r), signed_byte(p.g - q.g), signed_byte(p.b - q.b))
        }),
{
    lemma_state(pixels, channels, i);
}

/// A pixel that differs from the one before it, is not in the array of seen
/// pixels, keeps the alpha, is not a small difference, and whose green steps
/// by -32 to 31 while red and blue step by within -8 to 7 of green's step,
/// is sent as a two byte luma chunk.
pub proof fn theorem_luma_chunk(pixels: Seq<Rgba>, channels: u8, i: nat)
    requires
        i < pixels.len(),
        ({
            let p = pixels[i as int];
            let q = prev_pixel(pixels, i as int);
            let dr = signed_byte(p.r - q.r);
            let dg = signed_byte(p.g - q.g);
            let db = signed_byte(p.b - q.b);
            &&& p != q
            &&& seen_array(pixels, i)[hash_of(p)] != p
            &&& p.a == q.a
            &&& !(-2 <= dr <= 1 && -2 <= dg <= 1 && -2 <= db <= 1)
            &&& -32 <= dg <= 31
            &&& -8 <= signed_byte(dr - dg) <= 7
            &&& -8 <= signed_byte(db - dg) <= 7
        }),
    ensures
        ({
            let p = pixels[i as int];
            let q = prev_pixel(pixels, i as int);
            let dr = signed_byte(p.r - q.r);
            let dg = signed_byte(p.g - q.g);
            let db = signed_byte(p.b - q.b);
            enc_prefix(pixels, channels, i + 1).1 == enc_prefix(pixels, channels, i).1 + run_flush(
                pending_run(pixels, i),
            ) + op_luma(dg, signed_byte(dr - dg), signed_byte(db - dg))
        }),
{
    lemma_state(pixels, channels, i);
}

/// A pixel that differs from the one before it and that neither the array of
/// seen pixels nor a difference chunk can carry is sent whole: all four
/// channels for a 4 channel image, red, green and blue for a 3 channel one.
pub proof fn theorem_full_chunk(pixels: Seq<Rgba>, channels: u8, i: nat)
    requires
        i < pixels.len(),
        ({
            let p = pixels[i as int];
            let q = prev_pixel(pixels, i as int);
            let dr = signed_byte(p.r - q.r);
            let dg = signed_byte(p.g - q.g);
            let db = signed_byte(p.b - q.b);
            &&& p != q
            &&& seen_array(pixels, i)[hash_of(p)] != p
            &&& !(p.a == q.a && -2 <= dr <= 1 && -2 <= dg <= 1 && -2 <= db <= 1)
            &&& !(p.a == q.a && -32 <= dg <= 31 && -8 <= signed_byte(dr - dg) <= 7 && -8 <= signed_byte(db
                - dg) <= 7)
        }),
    ensures
        enc_prefix(pixels, channels, i + 1).1 == enc_prefix(pixels, channels, i).1 + run_flush(
            pending_run(pixels, i),
        ) + if channels == 4 {
            op_rgba(pixels[i as int])
        } else {
            op_rgb(pixels[i as int])
        },
{
    lemma_state(pixels, channels, i);
}

/// A pixel that repeats the one before it sends nothing, unless it brings
/// the pending run to 62, which is then sent as one run chunk.
pub proof fn theorem_run_chunk(pixels: Seq<Rgba>, channels: u8, i: nat)
    requires
        i < pixels.len(),
        pixels[i as int] == prev_pixel(pixels, i as int),
    ensures
        enc_prefix(pixels, channels, i + 1).1 == enc_prefix(pixels, channels, i).1 + if pending_run(pixels, i)
            + 1 == 62 {
            op_run(62)
        } else {
            Seq::<u8>::empty()
        },
{
    lemma_state(pixels, channels, i);
}

/// The chunks for the first `i` pixels are never changed by later pixels.
pub proof fn theorem_prefix_stable(pixels: Seq<Rgba>, channels: u8, i: nat, j: nat)
    requires
        i <= j <= pixels.len(),
    ensures
        enc_prefix(pixels, channels, i).1.len() <= enc_prefix(pixels, channels, j).1.len(),
        enc_prefix(pixels, channels, j).1.take(enc_prefix(pixels, channels, i).1.len() as int)
            == enc_prefix(pixels, channels, i).1,
    decreases j - i,
{
    if i < j {
        theorem_prefix_stable(pixels, channels, i, (j - 1) as nat);
        let a = enc_prefix(pixels, channels, i).1;
        let b = enc_prefix(pixels, channels, (j - 1) as nat).1;
        let c = enc_prefix(pixels, channels, j).1;
        assert(c == b + enc_step(enc_prefix(pixels, channels, (j - 1) as nat).0, pixels[j - 1], channels).1);
        assert(c.take(a.len() as int) =~= b.take(a.len() as int));
    } else {
        let a = enc_prefix(pixels, channels, i).1;
        assert(a.take(a.len() as int) =~= a);
    }
}

/// A stream is its header, the chunks of all its pixels, the chunk that
/// closes the run still pending after the last pixel, and the end marker.
pub proof fn theorem_stream_layout(width: u32, height: u32, channels: u8, data: Seq<u8>)
    ensures
        ({
            let pixels = image_pixels(width, height, channels, data);
            qoi_encoding(width, height, channels, data) == header(width, height, channels) + enc_prefix(
                pixels,
                channels,
                pixels.len(),
            ).1 + run_flush(pending_run(pixels, pixels.len())) + padding()
        }),
{
    let pixels = image_pixels(width, height, channels, data);
    lemma_state(pixels, channels, pixels.len());
    let body = encode_body(pixels, channels);
    assert(header(width, height, channels) + body + padding() =~= header(width, height, channels)
        + enc_prefix(pixels, channels, pixels.len()).1 + run_flush(pending_run(pixels, pixels.len()))
        + padding());
}

/// The array of seen pixels starts as 64 transparent black pixels, and a
/// pixel's place in it is `(r * 3 + g * 5 + b * 7 + a * 11) % 64`.
pub proof fn theorem_index_positions(p: Rgba)
    ensures
        hash_of(p) == (p.r * 3 + p.g * 5 + p.b * 7 + p.a * 11) % 64,
        0 <= hash_of(p) < 64,
        start_index().len() == 64,
        forall|h: int| 0 <= h < 64 ==> #[trigger] start_index()[h] == rgba(0, 0, 0, 0),
{
}

} // verus!
