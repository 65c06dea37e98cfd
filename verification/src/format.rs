//! The lossless bitmap format, stated over sequences of bytes.
//!
//! A payload starts with a format code and the image's width and height.
//! What follows is a zlib stream that inflates to rows of source pixels,
//! each row padded to a multiple of four bytes. The three formats differ in
//! how a source pixel is stored; all decode to opaque RGBA pixels.

use crate::decode::{LosslessHeader, Rgb};
use crate::zlib::inflate_bytes_zlib_result;
use crate::SwfBitmapView;
use vstd::prelude::*;

verus! {

/// Byte alignment for a row of source data.
pub const ROW_ALIGNMENT: usize = 4;

/// Size in bytes of a decoded pixel.
pub const RGBA_SIZE: usize = 4;

/// Format code of an image of palette indices.
pub const CODE_COLOR_MAP: u8 = 0x03;

/// Format code of an image of 15-bit colors.
pub const CODE_PIX_MAP15: u8 = 0x04;

/// Format code of an image of 24-bit colors.
pub const CODE_PIX_MAP24: u8 = 0x05;

/// The smallest multiple of `k` that is greater than or equal to `n`.
pub open spec fn ceil_to_multiple(n: int, k: int) -> int
    recommends
        0 <= n,
        0 < k,
{
    if n % k == 0 {
        n
    } else {
        n + (k - n % k)
    }
}

/// `ceil_to_multiple(n, k)` is a multiple of `k` that is at least `n`, and
/// every multiple `m` of `k` that is at least `n` is at least as large.
pub proof fn lemma_ceil_is_least_multiple(n: int, k: int, m: int)
    requires
        0 <= n,
        0 < k,
        m % k == 0,
        n <= m,
    ensures
        ceil_to_multiple(n, k) % k == 0,
        n <= ceil_to_multiple(n, k) <= m,
{
    let c = ceil_to_multiple(n, k);
    assert(c % k == 0 && n <= c < n + k) by (nonlinear_arith)
        requires
            0 <= n,
            0 < k,
            c == if n % k == 0 {
                n
            } else {
                n + (k - n % k)
            },
    ;
    assert(c <= m) by (nonlinear_arith)
        requires
            0 < k,
            m % k == 0,
            c % k == 0,
            n <= m,
            c < n + k,
    ;
}

/// For a row alignment of four, rounding up is adding three and clearing
/// the two low bits.
pub proof fn lemma_ceil_to_multiple_of_four(n: u32)
    requires
        n <= u32::MAX - 3,
    ensures
        ceil_to_multiple(n as int, 4) == (n + 3) as u32 & !3u32,
{
    assert(((n + 3) as u32 & !3u32) == if n % 4 == 0 {
        n as int
    } else {
        n + (4 - n % 4)
    }) by (bit_vector)
        requires
            n <= u32::MAX - 3,
    ;
}

/// Bytes from the start of one source row to the start of the next, for
/// rows of `width` pixels of `pixel_size` bytes each.
pub open spec fn row_stride(width: int, pixel_size: int) -> int {
    ceil_to_multiple(width * pixel_size, ROW_ALIGNMENT as int)
}

/// The 16-bit integer with high byte `high` and low byte `low`.
pub open spec fn u16_from_bytes(high: u8, low: u8) -> u16 {
    (256 * high + low) as u16
}

/// The header at the start of `input`, where `input` is long enough to
/// hold one: the format code, then width and height in little-endian order.
pub open spec fn lossless_header(input: Seq<u8>) -> Option<LosslessHeader> {
    if input.len() < 5 {
        None
    } else {
        Some(
            LosslessHeader {
                code: input[0],
                width: u16_from_bytes(input[2], input[1]),
                height: u16_from_bytes(input[4], input[3]),
            },
        )
    }
}

/// The byte of channel `channel` of an opaque pixel of color `color`: red,
/// green, blue, then an alpha of 255.
pub open spec fn rgba_channel(color: Rgb, channel: int) -> u8 {
    if channel == 0 {
        color.r
    } else if channel == 1 {
        color.g
    } else if channel == 2 {
        color.b
    } else {
        0xff
    }
}

/// The RGBA buffer of `height` rows of `width` opaque pixels without
/// padding, where `color(x, y)` is the color in column `x` of row `y`.
pub open spec fn rgba_rows(width: nat, height: nat, color: spec_fn(int, int) -> Rgb) -> Seq<u8> {
    Seq::new(
        4 * width * height,
        |i: int| rgba_channel(color((i / 4) % (width as int), (i / 4) / (width as int)), i % 4),
    )
}

/// The bitmap of `height` rows of `width` opaque pixels without padding,
/// where `color(x, y)` is the color in column `x` of row `y`.
pub open spec fn rgba_bitmap(width: u16, height: u16, color: spec_fn(int, int) -> Rgb)
    -> SwfBitmapView {
    SwfBitmapView {
        width: width as nat,
        height: height as nat,
        stride: 4 * width as nat,
        data: rgba_rows(width as nat, height as nat, color),
    }
}

/// A bitmap of opaque pixels without padding holds `stride * height`
/// bytes, with a stride of four bytes for each pixel of a row.
pub proof fn lemma_rgba_bitmap_shape(width: u16, height: u16, color: spec_fn(int, int) -> Rgb)
    ensures
        rgba_bitmap(width, height, color).width == width,
        rgba_bitmap(width, height, color).height == height,
        rgba_bitmap(width, height, color).packed(),
        rgba_bitmap(width, height, color).well_formed(),
{
    assert(4 * (width as nat) * (height as nat) == (4 * width as nat) * (height as nat))
        by (nonlinear_arith);
}

/// In a bitmap of opaque pixels without padding, the four bytes of the
/// pixel in column `x` of row `y` are the red, green and blue of its color,
/// then an alpha of 255.
pub proof fn lemma_rgba_bitmap_pixel(
    width: u16,
    height: u16,
    color: spec_fn(int, int) -> Rgb,
    x: int,
    y: int,
)
    requires
        0 <= x < width,
        0 <= y < height,
    ensures
        rgba_bitmap(width, height, color).pixel(x, y) == seq![
            color(x, y).r,
            color(x, y).g,
            color(x, y).b,
            0xffu8,
        ],
{
    let w = width as int;
    let bitmap = rgba_bitmap(width, height, color);
    let p = w * y + x;
    assert(bitmap.stride * y + 4 * x == 4 * p) by (nonlinear_arith)
        requires
            bitmap.stride == 4 * w,
            p == w * y + x,
    ;
    assert(4 * p + 4 <= 4 * (width as nat) * (height as nat)) by (nonlinear_arith)
        requires
            p == w * y + x,
            w == width as nat,
            0 <= x < w,
            0 <= y < height as nat,
    ;
    assert(p / w == y && p % w == x) by {
        assert(w * y == y * w) by (nonlinear_arith);
        vstd::arithmetic::div_mod::lemma_fundamental_div_mod_converse(p, w, y, x);
    }
    let pixel = bitmap.pixel(x, y);
    assert forall|c: int| 0 <= c < 4 implies #[trigger] pixel[c] == rgba_channel(
        color(x, y),
        c,
    ) by {
        assert((4 * p + c) / 4 == p && (4 * p + c) % 4 == c);
    }
    assert(pixel =~= seq![color(x, y).r, color(x, y).g, color(x, y).b, 0xffu8]);
}

/// Entry `index` of the palette at the start of `input`: three bytes, red
/// first.
pub open spec fn palette_color(input: Seq<u8>, index: int) -> Rgb {
    Rgb { r: input[3 * index], g: input[3 * index + 1], b: input[3 * index + 2] }
}

/// The palette index stored for the pixel in column `x` of row `y`, in an
/// input that starts with a palette of `color_count` entries.
pub open spec fn color_map_index(input: Seq<u8>, width: int, color_count: int, x: int, y: int)
    -> u8 {
    input[3 * color_count + row_stride(width, 1) * y + x]
}

/// The color of the pixel in column `x` of row `y` of an image of palette
/// indices.
pub open spec fn color_map_color(input: Seq<u8>, width: int, color_count: int, x: int, y: int)
    -> Rgb {
    palette_color(input, color_map_index(input, width, color_count, x, y) as int)
}

/// Whether every pixel of the image refers to an entry of the palette.
pub open spec fn color_map_indices_in_range(
    input: Seq<u8>,
    width: int,
    height: int,
    color_count: int,
) -> bool {
    forall|x: int, y: int|
        0 <= x < width && 0 <= y < height ==> #[trigger] color_map_index(
            input,
            width,
            color_count,
            x,
            y,
        ) < color_count
}

/// What an image of palette indices decodes to. `input` holds a palette of
/// `color_count` colors, then `height` rows of `width` one-byte indices.
/// There is no bitmap where the input is too short for the palette and the
/// rows, or where the index of some pixel is not below `color_count`.
pub open spec fn color_map_decoding(input: Seq<u8>, width: u16, height: u16, color_count: nat)
    -> Option<SwfBitmapView> {
    if input.len() < 3 * color_count + row_stride(width as int, 1) * height {
        None
    } else if !color_map_indices_in_range(input, width as int, height as int, color_count as int) {
        None
    } else {
        Some(
            rgba_bitmap(
                width,
                height,
                |x: int, y: int| color_map_color(input, width as int, color_count as int, x, y),
            ),
        )
    }
}

/// An image of palette indices does not decode where the index stored for
/// one of its pixels is not below the number of colors.
pub proof fn lemma_color_map_index_out_of_range(
    input: Seq<u8>,
    width: u16,
    height: u16,
    color_count: nat,
    x: int,
    y: int,
)
    requires
        0 <= x < width,
        0 <= y < height,
        color_map_index(input, width as int, color_count as int, x, y) >= color_count,
    ensures
        color_map_decoding(input, width, height, color_count) is None,
{
}

/// The color that a 15-bit pixel stands for: blue in bits 0 to 4, green in
/// bits 5 to 9, red in bits 10 to 14, each moved to the top five bits of its
/// channel. Bit 15 is ignored.
pub open spec fn pix15_color(pixel: u16) -> Rgb {
    Rgb {
        r: (((pixel >> 10u16) & 0x1fu16) << 3u16) as u8,
        g: (((pixel >> 5u16) & 0x1fu16) << 3u16) as u8,
        b: ((pixel & 0x1fu16) << 3u16) as u8,
    }
}

/// Each channel of the color of a 15-bit pixel is eight times its five-bit
/// field: the low three bits of a channel are zero, and bit 15 of the pixel
/// has no part in it.
pub proof fn lemma_pix15_color_fields(pixel: u16)
    ensures
        pix15_color(pixel).r == 8 * ((pixel / 1024) % 32),
        pix15_color(pixel).g == 8 * ((pixel / 32) % 32),
        pix15_color(pixel).b == 8 * (pixel % 32),
{
    assert((((pixel >> 10u16) & 0x1fu16) << 3u16) as u8 == 8 * ((pixel / 1024) % 32))
        by (bit_vector);
    assert((((pixel >> 5u16) & 0x1fu16) << 3u16) as u8 == 8 * ((pixel / 32) % 32))
        by (bit_vector);
    assert(((pixel & 0x1fu16) << 3u16) as u8 == 8 * (pixel % 32)) by (bit_vector);
}

/// The color of the pixel in column `x` of row `y` of an image of 15-bit
/// pixels. A pixel is two bytes, high byte first.
pub open spec fn pix_map15_color(input: Seq<u8>, width: int, x: int, y: int) -> Rgb {
    let offset = row_stride(width, 2) * y + 2 * x;
    pix15_color(u16_from_bytes(input[offset], input[offset + 1]))
}

/// What an image of 15-bit pixels decodes to: `input` holds `height` rows
/// of `width` pixels. There is no bitmap where it is too short for them.
pub open spec fn pix_map15_decoding(input: Seq<u8>, width: u16, height: u16) -> Option<
    SwfBitmapView,
> {
    if input.len() < row_stride(width as int, 2) * height {
        None
    } else {
        Some(
            rgba_bitmap(
                width,
                height,
                |x: int, y: int| pix_map15_color(input, width as int, x, y),
            ),
        )
    }
}

/// The color of the pixel in column `x` of row `y` of an image of 24-bit
/// pixels. A pixel is four bytes: one that is ignored, then red, green and
/// blue.
pub open spec fn pix_map24_color(input: Seq<u8>, width: int, x: int, y: int) -> Rgb {
    let offset = row_stride(width, 4) * y + 4 * x;
    Rgb { r: input[offset + 1], g: input[offset + 2], b: input[offset + 3] }
}

/// What an image of 24-bit pixels decodes to: `input` holds `height` rows
/// of `width` pixels. There is no bitmap where it is too short for them.
pub open spec fn pix_map24_decoding(input: Seq<u8>, width: u16, height: u16) -> Option<
    SwfBitmapView,
> {
    if input.len() < row_stride(width as int, 4) * height {
        None
    } else {
        Some(
            rgba_bitmap(
                width,
                height,
                |x: int, y: int| pix_map24_color(input, width as int, x, y),
            ),
        )
    }
}

/// What a payload decodes to.
///
/// The payload starts with the header. In an image of palette indices one
/// more byte follows, the number of colors less one. The rest is a zlib
/// stream; what it inflates to is decoded as the format code says. There is
/// no bitmap where the payload is too short for this, where the format code
/// is none of the three, where the stream does not inflate, or where what it
/// inflates to does not decode.
pub open spec fn lossless_decoding(input: Seq<u8>) -> Option<SwfBitmapView> {
    match lossless_header(input) {
        None => None,
        Some(header) => if header.code == CODE_COLOR_MAP {
            if input.len() < 6 {
                None
            } else {
                match inflate_bytes_zlib_result(input.skip(6)) {
                    Ok(data) => color_map_decoding(
                        data,
                        header.width,
                        header.height,
                        input[5] as nat + 1,
                    ),
                    Err(_) => None,
                }
            }
        } else if header.code == CODE_PIX_MAP15 {
            match inflate_bytes_zlib_result(input.skip(5)) {
                Ok(data) => pix_map15_decoding(data, header.width, header.height),
                Err(_) => None,
            }
        } else if header.code == CODE_PIX_MAP24 {
            match inflate_bytes_zlib_result(input.skip(5)) {
                Ok(data) => pix_map24_decoding(data, header.width, header.height),
                Err(_) => None,
            }
        } else {
            None
        },
    }
}

/// A payload whose format code is none of the three does not decode,
/// whatever follows the code.
pub proof fn lemma_unknown_code_fails(input: Seq<u8>)
    requires
        input.len() >= 1,
        input[0] != CODE_COLOR_MAP,
        input[0] != CODE_PIX_MAP15,
        input[0] != CODE_PIX_MAP24,
    ensures
        lossless_decoding(input) is None,
{
}

/// A payload of an image of palette indices does not decode where, in what
/// it inflates to, the index stored for one of the pixels is not below the
/// number of colors.
pub proof fn lemma_payload_index_out_of_range(input: Seq<u8>, x: int, y: int)
    requires
        input.len() >= 6,
        input[0] == CODE_COLOR_MAP,
        0 <= x < u16_from_bytes(input[2], input[1]),
        0 <= y < u16_from_bytes(input[4], input[3]),
    ensures
        inflate_bytes_zlib_result(input.skip(6)) matches Ok(data) ==> color_map_index(
            data,
            u16_from_bytes(input[2], input[1]) as int,
            input[5] + 1,
            x,
            y,
        ) > input[5] ==> lossless_decoding(input) is None,
{
}

/// What a payload decodes to has the width and height of its header, holds
/// `stride * height` bytes, and has a stride of four bytes for each pixel
/// of a row.
pub proof fn lemma_decoding_shape(input: Seq<u8>)
    ensures
        lossless_decoding(input) matches Some(bitmap) ==> {
            &&& lossless_header(input) matches Some(header)
            &&& bitmap.width == header.width
            &&& bitmap.height == header.height
            &&& bitmap.stride == 4 * bitmap.width
            &&& bitmap.data.len() == bitmap.stride * bitmap.height
        },
{
    if let Some(bitmap) = lossless_decoding(input) {
        let header = lossless_header(input)->Some_0;
        let (width, height) = (header.width, header.height);
        if header.code == CODE_COLOR_MAP {
            let data = inflate_bytes_zlib_result(input.skip(6))->Ok_0;
            lemma_rgba_bitmap_shape(
                width,
                height,
                |x: int, y: int| color_map_color(data, width as int, input[5] + 1, x, y),
            );
        } else if header.code == CODE_PIX_MAP15 {
            let data = inflate_bytes_zlib_result(input.skip(5))->Ok_0;
            lemma_rgba_bitmap_shape(
                width,
                height,
                |x: int, y: int| pix_map15_color(data, width as int, x, y),
            );
        } else {
            let data = inflate_bytes_zlib_result(input.skip(5))->Ok_0;
            lemma_rgba_bitmap_shape(
                width,
                height,
                |x: int, y: int| pix_map24_color(data, width as int, x, y),
            );
        }
    }
}

} // verus!
