//! Decoding of SWF lossless bitmaps into RGBA pixel buffers, and their
//! serialization as PAM images.
//!
//! A lossless bitmap is the payload of a `DefineBitsLossless` tag: a short
//! header, then zlib-compressed pixels in one of three formats (palette
//! indices, 15-bit colors, 24-bit colors). [`decode::decode_x_swf_bmp`]
//! turns it into a [`SwfBitmap`], rows of opaque RGBA pixels without
//! padding, and [`encode::encode_pam`] writes a bitmap as a PAM image.
//!
//! * [`format`] says what a payload decodes to, over sequences of bytes.
//! * [`decode`] is the decoder, proved against it.
//! * [`encode`] is the PAM writer.
//! * [`nom_bytes`] and [`zlib`] hold the calls into the `nom` and `inflate`
//!   crates, with the contracts that the proofs take on trust.

use vstd::prelude::*;

pub mod decode;
pub mod encode;
pub mod format;
pub mod nom_bytes;
pub mod zlib;

verus! {

/// Image metadata; the format is always standard RGB with alpha (8 bits per
/// channel).
#[derive(Clone, Debug, PartialEq, Eq, Structural, PartialOrd, Ord, Hash)]
pub struct SwfBitmapMeta {
    /// Width in pixels
    pub width: u32,
    /// Height in pixels
    pub height: u32,
    /// Bytes per row (stride >= width * bytes_per_pixel)
    pub stride: usize,
}

/// An image: its metadata and its rows of RGBA pixels, top row first.
#[derive(Clone, Debug, PartialEq, Eq, PartialOrd, Ord, Hash)]
pub struct SwfBitmap {
    pub meta: SwfBitmapMeta,
    pub data: Vec<u8>,
}

/// The mathematical value of a `SwfBitmap`.
#[verifier::ext_equal]
pub struct SwfBitmapView {
    pub width: nat,
    pub height: nat,
    pub stride: nat,
    pub data: Seq<u8>,
}

impl View for SwfBitmap {
    type V = SwfBitmapView;

    open spec fn view(&self) -> SwfBitmapView {
        SwfBitmapView {
            width: self.meta.width as nat,
            height: self.meta.height as nat,
            stride: self.meta.stride as nat,
            data: self.data@,
        }
    }
}

impl SwfBitmapView {
    /// Every row holds all of its pixels, and the buffer holds exactly the
    /// rows.
    pub open spec fn well_formed(self) -> bool {
        &&& self.stride >= 4 * self.width
        &&& self.data.len() == self.stride * self.height
    }

    /// The rows follow each other without padding.
    pub open spec fn packed(self) -> bool {
        self.stride == 4 * self.width
    }

    /// The four bytes `[R, G, B, A]` of the pixel in column `x` of row `y`.
    pub open spec fn pixel(self, x: int, y: int) -> Seq<u8>
        recommends
            self.well_formed(),
            0 <= x < self.width,
            0 <= y < self.height,
    {
        self.data.subrange(self.stride * y + 4 * x, self.stride * y + 4 * x + 4)
    }
}

} // verus!
