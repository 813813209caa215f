# qoick

An encoder for the [QOI](https://qoiformat.org) image format, verified with Verus.

- `src/format.rs` states the format: the chunks the encoder emits for each
  pixel, and a decoder that reads a stream back into pixels.
- `src/roundtrip.rs` proves that decoding the encoder's stream gives back the
  image, and that the stream is never longer than `qoi_encode_buf_size`.
- `src/encode.rs` is the encoder itself, writing into a preallocated buffer;
  `src/prepare.rs` sizes that buffer; `src/images.rs` holds image buffers;
  `src/lib.rs` and `src/public.rs` are the entry points.
- `app/` is a command line tool that reads an image file with the `image`
  crate and writes its QOI stream.
