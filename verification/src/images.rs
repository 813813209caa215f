//! Images held as packed channel bytes, row by row.
use vstd::prelude::*;

verus! {

/// A `width * height` image of `CHANNELS` bytes per pixel. The buffer may be
/// longer than the pixels need; the pixels are at its start.
pub struct ImageBuffer<const CHANNELS: usize> {
    width: u32,
    height: u32,
    data: Vec<u8>,
}

/// An image of 3 bytes per pixel: red, green, blue.
pub type RgbImage = ImageBuffer<3>;

/// An image of 4 bytes per pixel: red, green, blue, alpha.
pub type RgbaImage = ImageBuffer<4>;

impl<const CHANNELS: usize> ImageBuffer<CHANNELS> {
    #[verifier::type_invariant]
    spec fn holds_pixels(self) -> bool {
        self.width * self.height * CHANNELS <= self.data@.len()
    }

    pub closed spec fn spec_width(&self) -> u32 {
        self.width
    }

    pub closed spec fn spec_height(&self) -> u32 {
        self.height
    }

    pub closed spec fn spec_data(&self) -> Seq<u8> {
        self.data@
    }

    /// The image of the given size whose pixels are at the start of `buf`;
    /// `None` where `buf` is too short for them, or where a row's byte count
    /// does not fit in a `usize`.
    pub fn from_raw(width: u32, height: u32, buf: Vec<u8>) -> (r: Option<Self>)
        ensures
            r is Some <==> CHANNELS * width <= usize::MAX && width * height * CHANNELS <= buf@.len(),
            r matches Some(img) ==> img.spec_width() == width && img.spec_height() == height
                && img.spec_data() == buf@,
    {
        let len = buf.len();
        let fits = match CHANNELS.checked_mul(width as usize) {
            Some(row) => match row.checked_mul(height as usize) {
                Some(size) => size <= len,
                None => false,
            },
            None => false,
        };
        proof {
            assert(CHANNELS * width * height == width * height * CHANNELS) by (nonlinear_arith);
            assert(0 <= CHANNELS * width) by (nonlinear_arith);
            assert(height == 0 || CHANNELS * width * height >= CHANNELS * width) by (nonlinear_arith)
                requires
                    0 <= CHANNELS * width,
                    0 <= height,
            ;
        }
        if fits {
            Some(ImageBuffer { width, height, data: buf })
        } else {
            None
        }
    }

    pub fn width(&self) -> (w: u32)
        ensures
            w == self.spec_width(),
    {
        self.width
    }

    pub fn height(&self) -> (h: u32)
        ensures
            h == self.spec_height(),
    {
        self.height
    }

    /// The whole buffer; it holds every pixel.
    pub fn as_raw(&self) -> (d: &[u8])
        ensures
            d@ == self.spec_data(),
            self.spec_width() * self.spec_height() * CHANNELS <= d@.len(),
    {
        proof {
            use_type_invariant(self);
        }
        self.data.as_slice()
    }
}

/// An image of either kind.
pub enum DynamicImage {
    ImageRgb8(RgbImage),
    ImageRgba8(RgbaImage),
}

} // verus!
