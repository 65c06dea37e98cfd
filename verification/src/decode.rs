//! The decoder of lossless bitmaps.
//!
//! Each function is proved to return what the `format` module says of its
//! input. The decoded pixels are collected in one buffer; running out of
//! memory while it grows is outside these contracts.

use crate::format::{
    ceil_to_multiple, color_map_color, color_map_decoding, color_map_index,
    lemma_decoding_shape, lemma_rgba_bitmap_shape, lossless_decoding, lossless_header,
    palette_color, pix15_color, pix_map15_color, pix_map15_decoding, pix_map24_color,
    pix_map24_decoding, rgba_rows, row_stride, u16_from_bytes, CODE_COLOR_MAP,
    CODE_PIX_MAP15, CODE_PIX_MAP24, RGBA_SIZE, ROW_ALIGNMENT,
};
use crate::nom_bytes::{count_rgb, le_u16, le_u8};
use crate::zlib::inflate_bytes_zlib;
use crate::{SwfBitmap, SwfBitmapMeta};
use vstd::prelude::*;

verus! {

/// An opaque color.
#[derive(Copy, Clone, Debug, PartialEq, Eq, Structural, PartialOrd, Ord, Hash)]
pub struct Rgb {
    pub r: u8,
    pub g: u8,
    pub b: u8,
}

/// Why a payload could not be decoded.
#[derive(Clone, Debug, PartialEq, Eq, Structural, PartialOrd, Ord, Hash)]
pub enum DecodeError {
    /// The payload is not a lossless bitmap in one of the three formats.
    Invalid,
}

/// The fields at the start of every lossless bitmap.
#[derive(Copy, Clone, Debug, PartialEq, Eq, Structural)]
pub struct LosslessHeader {
    pub code: u8,
    pub width: u16,
    pub height: u16,
}

/// Decodes the payload of a lossless bitmap into rows of RGBA pixels.
///
/// The payload is refused where it is too short for its header, where its
/// format code is none of the three, where its pixels do not inflate, and
/// where the codec of its format refuses what they inflate to.
pub fn decode_x_swf_bmp(input: &[u8]) -> (r: Result<SwfBitmap, DecodeError>)
    ensures
        match r {
            Ok(bitmap) => {
                &&& lossless_decoding(input@) == Some(bitmap@)
                &&& bitmap@.packed()
                &&& bitmap@.well_formed()
            },
            Err(_) => lossless_decoding(input@) is None,
        },
{
    let ghost payload = input@;
    proof {
        lemma_decoding_shape(payload);
    }
    let (input, header) = match parse_lossless_header(input) {
        Ok(ok) => ok,
        Err(_) => return Err(DecodeError::Invalid),
    };

    match header.code {
        CODE_COLOR_MAP => {
            let (input, color_count) = match le_u8(input) {
                Ok(ok) => ok,
                Err(_) => return Err(DecodeError::Invalid),
            };
            assert(input@ == payload.skip(6));
            match inflate_bytes_zlib(input) {
                Ok(data) => decode_color_map(
                    data.as_slice(),
                    header.width,
                    header.height,
                    color_count as usize + 1,
                ),
                Err(_) => Err(DecodeError::Invalid),
            }
        },
        CODE_PIX_MAP15 => match inflate_bytes_zlib(input) {
            Ok(data) => decode_pix_map15(data.as_slice(), header.width, header.height),
            Err(_) => Err(DecodeError::Invalid),
        },
        CODE_PIX_MAP24 => match inflate_bytes_zlib(input) {
            Ok(data) => decode_pix_map24(data.as_slice(), header.width, header.height),
            Err(_) => Err(DecodeError::Invalid),
        },
        _ => Err(DecodeError::Invalid),
    }
}

/// Reads the header of a lossless bitmap: the format code, then width and
/// height in little-endian order. Returns what follows the header, and the
/// header. An input of fewer than five bytes is refused.
pub fn parse_lossless_header<'a>(input: &'a [u8]) -> (r: Result<
    (&'a [u8], LosslessHeader),
    nom::Err<()>,
>)
    ensures
        match r {
            Ok((rest, header)) => {
                &&& lossless_header(input@) == Some(header)
                &&& rest@ == input@.skip(5)
            },
            Err(_) => lossless_header(input@) is None,
        },
{
    let (input, code) = le_u8(input)?;
    let (input, width) = le_u16(input)?;
    let (input, height) = le_u16(input)?;
    Ok((input, LosslessHeader { code, width, height }))
}

/// Decodes an image of palette indices: a palette of `color_count` colors,
/// then `height` rows of `width` indices, each row padded to a multiple of
/// four bytes.
///
/// The input is refused where it is too short for the palette and the rows,
/// and where the index of a pixel is not below `color_count`: no color is
/// put in its place.
#[verifier::loop_isolation(false)]
pub fn decode_color_map(input: &[u8], width: u16, height: u16, color_count: usize) -> (r: Result<
    SwfBitmap,
    DecodeError,
>)
    ensures
        match r {
            Ok(bitmap) => {
                &&& color_map_decoding(input@, width, height, color_count as nat) == Some(bitmap@)
                &&& bitmap@.packed()
                &&& bitmap@.well_formed()
            },
            Err(_) => color_map_decoding(input@, width, height, color_count as nat) is None,
        },
{
    let (pixels, colors) = match count_rgb(input, color_count) {
        Ok(ok) => ok,
        Err(_) => return Err(DecodeError::Invalid),
    };

    let input_stride: usize = int_ceil(width as usize, ROW_ALIGNMENT);
    if !holds_rows(pixels.len(), input_stride, height) {
        return Err(DecodeError::Invalid);
    }
    let stride: usize = (width as usize) * RGBA_SIZE;
    let mut data: Vec<u8> = rgba_buffer(stride, height);
    let ghost color = |x: int, y: int|
        color_map_color(input@, width as int, color_count as int, x, y);
    let ghost rows = rgba_rows(width as nat, height as nat, color);
    proof {
        lemma_decoded_none(rows, width as int);
    }
    for y in 0..height as usize
        invariant
            decoded_before(data@, rows, width as int, 0, y as int),
            forall|x0: int, y0: int|
                0 <= x0 < width && 0 <= y0 < y ==> #[trigger] color_map_index(
                    input@,
                    width as int,
                    color_count as int,
                    x0,
                    y0,
                ) < color_count,
    {
        for x in 0..width as usize
            invariant
                decoded_before(data@, rows, width as int, x as int, y as int),
                forall|x0: int|
                    0 <= x0 < x ==> #[trigger] color_map_index(
                        input@,
                        width as int,
                        color_count as int,
                        x0,
                        y as int,
                    ) < color_count,
        {
            proof {
                lemma_row_in_bounds(input_stride as int, height as int, y as int);
            }
            let offset: usize = input_stride * y + x;
            let color_index: usize = pixels[offset] as usize;
            assert(color_index == color_map_index(
                input@,
                width as int,
                color_count as int,
                x as int,
                y as int,
            ));
            // An index that the palette does not hold is an error.
            match colors.get(color_index) {
                Some(c) => {
                    proof {
                        lemma_decoded_next(
                            data@,
                            width as nat,
                            height as nat,
                            color,
                            x as int,
                            y as int,
                        );
                    }
                    push_rgba(&mut data, *c);
                },
                None => return Err(DecodeError::Invalid),
            };
        }
        proof {
            lemma_decoded_row(data@, rows, width as int, y as int);
        }
    }
    proof {
        lemma_decoded_all(data@, width as nat, height as nat, color);
        lemma_rgba_bitmap_shape(width, height, color);
    }
    Ok(
        SwfBitmap {
            meta: SwfBitmapMeta { width: width as u32, height: height as u32, stride },
            data,
        },
    )
}

/// Decodes an image of 15-bit pixels: `height` rows of `width` pixels of
/// two bytes, each row padded to a multiple of four bytes. An input that is
/// too short for the rows is refused.
#[verifier::loop_isolation(false)]
pub fn decode_pix_map15(input: &[u8], width: u16, height: u16) -> (r: Result<
    SwfBitmap,
    DecodeError,
>)
    ensures
        match r {
            Ok(bitmap) => {
                &&& pix_map15_decoding(input@, width, height) == Some(bitmap@)
                &&& bitmap@.packed()
                &&& bitmap@.well_formed()
            },
            Err(_) => pix_map15_decoding(input@, width, height) is None,
        },
{
    let input_stride: usize = int_ceil((width as usize) * 2, ROW_ALIGNMENT);
    if !holds_rows(input.len(), input_stride, height) {
        return Err(DecodeError::Invalid);
    }
    let stride: usize = (width as usize) * RGBA_SIZE;
    let mut data: Vec<u8> = rgba_buffer(stride, height);
    let ghost color = |x: int, y: int| pix_map15_color(input@, width as int, x, y);
    let ghost rows = rgba_rows(width as nat, height as nat, color);
    proof {
        lemma_decoded_none(rows, width as int);
    }
    for y in 0..height as usize
        invariant
            decoded_before(data@, rows, width as int, 0, y as int),
    {
        for x in 0..width as usize
            invariant
                decoded_before(data@, rows, width as int, x as int, y as int),
        {
            proof {
                lemma_row_in_bounds(input_stride as int, height as int, y as int);
            }
            let offset: usize = input_stride * y + 2 * x;
            let high: u8 = input[offset];
            let low: u8 = input[offset + 1];
            assert(((high as u16) << 8) + (low as u16) == u16_from_bytes(high, low))
                by (bit_vector);
            let pix15: u16 = ((high as u16) << 8) + (low as u16);
            let c = decode_pix15(pix15);
            proof {
                lemma_decoded_next(data@, width as nat, height as nat, color, x as int, y as int);
            }
            push_rgba(&mut data, c);
        }
        proof {
            lemma_decoded_row(data@, rows, width as int, y as int);
        }
    }
    proof {
        lemma_decoded_all(data@, width as nat, height as nat, color);
        lemma_rgba_bitmap_shape(width, height, color);
    }
    Ok(
        SwfBitmap {
            meta: SwfBitmapMeta { width: width as u32, height: height as u32, stride },
            data,
        },
    )
}

/// Unpacks a 15-bit pixel into its color.
pub fn decode_pix15(pixel: u16) -> (color: Rgb)
    ensures
        color == pix15_color(pixel),
{
    let r: u8 = decode_component(pixel, 2);
    let g: u8 = decode_component(pixel, 1);
    let b: u8 = decode_component(pixel, 0);
    assert(pixel >> 0u16 == pixel) by (bit_vector);
    Rgb { r, g, b }
}

/// The five-bit field `idx` of `px`, counted from the low end, moved to
/// the top five bits of a byte.
fn decode_component(px: u16, idx: u16) -> (c: u8)
    requires
        idx <= 2,
    ensures
        c == (((px >> (5 * idx) as u16) & 0x1fu16) << 3u16) as u8,
{
    let field: u16 = (px >> (5 * idx)) & 0x1f;
    assert(((px >> (5 * idx) as u16) & 0x1fu16) << 3u16 <= 0xf8) by (bit_vector);
    (field << 3) as u8
}

/// Decodes an image of 24-bit pixels: `height` rows of `width` pixels of
/// four bytes, the first of which is ignored. An input that is too short
/// for the rows is refused.
#[verifier::loop_isolation(false)]
pub fn decode_pix_map24(input: &[u8], width: u16, height: u16) -> (r: Result<
    SwfBitmap,
    DecodeError,
>)
    ensures
        match r {
            Ok(bitmap) => {
                &&& pix_map24_decoding(input@, width, height) == Some(bitmap@)
                &&& bitmap@.packed()
                &&& bitmap@.well_formed()
            },
            Err(_) => pix_map24_decoding(input@, width, height) is None,
        },
{
    let input_stride: usize = int_ceil((width as usize) * 4, ROW_ALIGNMENT);
    if !holds_rows(input.len(), input_stride, height) {
        return Err(DecodeError::Invalid);
    }
    let stride: usize = (width as usize) * RGBA_SIZE;
    let mut data: Vec<u8> = rgba_buffer(stride, height);
    let ghost color = |x: int, y: int| pix_map24_color(input@, width as int, x, y);
    let ghost rows = rgba_rows(width as nat, height as nat, color);
    proof {
        lemma_decoded_none(rows, width as int);
    }
    for y in 0..height
        invariant
            decoded_before(data@, rows, width as int, 0, y as int),
    {
        for x in 0..width
            invariant
                decoded_before(data@, rows, width as int, x as int, y as int),
        {
            proof {
                lemma_row_in_bounds(input_stride as int, height as int, y as int);
            }
            let offset: usize = input_stride * (y as usize) + 4 * (x as usize);
            // `input[offset]` is reserved
            let r: u8 = input[offset + 1];
            let g: u8 = input[offset + 2];
            let b: u8 = input[offset + 3];
            proof {
                lemma_decoded_next(data@, width as nat, height as nat, color, x as int, y as int);
            }
            push_rgba(&mut data, Rgb { r, g, b });
        }
        proof {
            lemma_decoded_row(data@, rows, width as int, y as int);
        }
    }
    proof {
        lemma_decoded_all(data@, width as nat, height as nat, color);
        lemma_rgba_bitmap_shape(width, height, color);
    }
    Ok(
        SwfBitmap {
            meta: SwfBitmapMeta { width: width as u32, height: height as u32, stride },
            data,
        },
    )
}

/// Returns the smallest multiple of `k` greater than or equal to `n`.
pub fn int_ceil(n: usize, k: usize) -> (r: usize)
    requires
        k > 0,
        ceil_to_multiple(n as int, k as int) <= usize::MAX,
    ensures
        r == ceil_to_multiple(n as int, k as int),
{
    let rem: usize = n % k;
    if rem == 0 {
        n
    } else {
        n + (k - rem)
    }
}

/// Reads one palette entry: three bytes, red first. Returns what follows
/// the entry, and the color. An input of fewer than three bytes is refused.
pub fn parse_rgb<'a>(input: &'a [u8]) -> (r: Result<(&'a [u8], Rgb), nom::Err<()>>)
    ensures
        match r {
            Ok((rest, color)) => {
                &&& input@.len() >= 3
                &&& rest@ == input@.skip(3)
                &&& color == palette_color(input@, 0)
            },
            Err(_) => input@.len() < 3,
        },
{
    let (input, r) = le_u8(input)?;
    let (input, g) = le_u8(input)?;
    let (input, b) = le_u8(input)?;
    Ok((input, Rgb { r, g, b }))
}

/// Whether `len` bytes hold `height` rows of `input_stride` bytes each.
fn holds_rows(len: usize, input_stride: usize, height: u16) -> (b: bool)
    requires
        input_stride <= u32::MAX,
    ensures
        b == (input_stride * height <= len),
{
    assert(input_stride * height <= u64::MAX) by (nonlinear_arith)
        requires
            input_stride <= u32::MAX,
            height <= u16::MAX,
    ;
    (input_stride as u64) * (height as u64) <= len as u64
}

/// An empty buffer for `height` rows of `stride` bytes each. It is given
/// room for them where their size fits in `usize`.
fn rgba_buffer(stride: usize, height: u16) -> (data: Vec<u8>)
    ensures
        data@ == Seq::<u8>::empty(),
{
    match stride.checked_mul(height as usize) {
        Some(size) => Vec::with_capacity(size),
        None => Vec::new(),
    }
}

/// Appends the four bytes of an opaque pixel of color `color`.
fn push_rgba(data: &mut Vec<u8>, color: Rgb)
    ensures
        final(data)@ == old(data)@ + seq![color.r, color.g, color.b, 0xffu8],
{
    data.extend_from_slice(&[color.r, color.g, color.b, 0xff]);
}

/// Whether `data` holds the pixels of `rows` that come before column `x`
/// of row `y`.
spec fn decoded_before(data: Seq<u8>, rows: Seq<u8>, width: int, x: int, y: int) -> bool {
    data == rows.take(4 * (width * y + x))
}

/// Before the first pixel there is nothing.
proof fn lemma_decoded_none(rows: Seq<u8>, width: int)
    ensures
        decoded_before(Seq::empty(), rows, width, 0, 0),
{
    assert(width * 0 + 0 == 0);
    assert(rows.take(0) =~= Seq::empty());
}

/// Appending the pixel in column `x` of row `y` to the pixels before it
/// gives the pixels before the next column.
proof fn lemma_decoded_next(
    data: Seq<u8>,
    width: nat,
    height: nat,
    color: spec_fn(int, int) -> Rgb,
    x: int,
    y: int,
)
    requires
        0 <= x < width,
        0 <= y < height,
        decoded_before(data, rgba_rows(width, height, color), width as int, x, y),
    ensures
        decoded_before(
            data + seq![color(x, y).r, color(x, y).g, color(x, y).b, 0xffu8],
            rgba_rows(width, height, color),
            width as int,
            x + 1,
            y,
        ),
{
    let w = width as int;
    let p = w * y + x;
    assert(4 * (p + 1) <= 4 * width * height) by (nonlinear_arith)
        requires
            p == w * y + x,
            w == width,
            0 <= x < w,
            0 <= y < height,
    ;
    assert(p / w == y && p % w == x) by {
        assert(w * y == y * w) by (nonlinear_arith);
        vstd::arithmetic::div_mod::lemma_fundamental_div_mod_converse(p, w, y, x);
    }
    let rows = rgba_rows(width, height, color);
    let next = data + seq![color(x, y).r, color(x, y).g, color(x, y).b, 0xffu8];
    assert forall|i: int| 0 <= i < 4 * (p + 1) implies rows.take(4 * (p + 1))[i] == next[i] by {
        if i >= 4 * p {
            assert(i / 4 == p && i % 4 == i - 4 * p);
        }
    }
    assert(rows.take(4 * (p + 1)) =~= next);
}

/// The pixels before the end of a row are the pixels before the start of
/// the next.
proof fn lemma_decoded_row(data: Seq<u8>, rows: Seq<u8>, width: int, y: int)
    requires
        decoded_before(data, rows, width, width, y),
    ensures
        decoded_before(data, rows, width, 0, y + 1),
{
    assert(width * y + width == width * (y + 1) + 0) by (nonlinear_arith);
}

/// The pixels before the row after the last are the whole image.
proof fn lemma_decoded_all(
    data: Seq<u8>,
    width: nat,
    height: nat,
    color: spec_fn(int, int) -> Rgb,
)
    requires
        decoded_before(data, rgba_rows(width, height, color), width as int, 0, height as int),
    ensures
        data == rgba_rows(width, height, color),
{
    assert(4 * (width * height + 0) == 4 * width * height) by (nonlinear_arith);
}

/// Row `y` of the source lies within the first `stride * height` bytes.
proof fn lemma_row_in_bounds(stride: int, height: int, y: int)
    requires
        0 <= y < height,
        0 <= stride,
    ensures
        0 <= stride * y,
        stride * y + stride <= stride * height,
{
    assert(0 <= stride * y && stride * y + stride <= stride * height) by (nonlinear_arith)
        requires
            0 <= y < height,
            0 <= stride,
    ;
}

} // verus!
