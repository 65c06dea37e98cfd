use swf_bitmap::decode::{
    decode_color_map, decode_pix15, decode_pix_map15, decode_pix_map24, DecodeError, Rgb,
};
use swf_bitmap::{SwfBitmap, SwfBitmapMeta};

fn bitmap(width: u32, height: u32, data: Vec<u8>) -> SwfBitmap {
    SwfBitmap { meta: SwfBitmapMeta { width, height, stride: width as usize * 4 }, data }
}

#[test]
fn pix15_of_all_ones_is_the_brightest_white() {
    assert_eq!(decode_pix15(0x7fff), Rgb { r: 248, g: 248, b: 248 });
}

#[test]
fn pix15_of_zero_is_black() {
    assert_eq!(decode_pix15(0x0000), Rgb { r: 0, g: 0, b: 0 });
}

#[test]
fn pix15_ignores_the_top_bit() {
    assert_eq!(decode_pix15(0x8000), Rgb { r: 0, g: 0, b: 0 });
    assert_eq!(decode_pix15(0xffff), Rgb { r: 248, g: 248, b: 248 });
    for pixel in 0u16..0x8000 {
        assert_eq!(decode_pix15(pixel), decode_pix15(pixel | 0x8000));
    }
}

#[test]
fn pix15_fields_are_red_green_blue_from_the_top() {
    assert_eq!(decode_pix15(0x7c00), Rgb { r: 248, g: 0, b: 0 });
    assert_eq!(decode_pix15(0x03e0), Rgb { r: 0, g: 248, b: 0 });
    assert_eq!(decode_pix15(0x001f), Rgb { r: 0, g: 0, b: 248 });
    assert_eq!(decode_pix15(0x0400), Rgb { r: 8, g: 0, b: 0 });
    assert_eq!(decode_pix15(0x0020), Rgb { r: 0, g: 8, b: 0 });
    assert_eq!(decode_pix15(0x0001), Rgb { r: 0, g: 0, b: 8 });
    // red 0b10101, green 0b01010, blue 0b00111
    assert_eq!(decode_pix15(0b0_10101_01010_00111), Rgb { r: 168, g: 80, b: 56 });
}

#[test]
fn pix15_fills_the_low_bits_with_zeros() {
    for pixel in 0u16..=0xffff {
        let c = decode_pix15(pixel);
        assert_eq!(c.r, (((pixel >> 10) & 0x1f) as u8) << 3);
        assert_eq!(c.g, (((pixel >> 5) & 0x1f) as u8) << 3);
        assert_eq!(c.b, ((pixel & 0x1f) as u8) << 3);
        assert_eq!(c.r & 7, 0);
        assert_eq!(c.g & 7, 0);
        assert_eq!(c.b & 7, 0);
    }
}

#[test]
fn pix_map24_of_one_pixel_skips_the_first_byte() {
    assert_eq!(
        decode_pix_map24(&[0x00, 0x10, 0x20, 0x30], 1, 1),
        Ok(bitmap(1, 1, vec![0x10, 0x20, 0x30, 0xff]))
    );
    assert_eq!(
        decode_pix_map24(&[0x77, 0x10, 0x20, 0x30], 1, 1),
        Ok(bitmap(1, 1, vec![0x10, 0x20, 0x30, 0xff]))
    );
}

#[test]
fn pix_map24_of_two_rows() {
    let input: Vec<u8> = vec![
        0, 1, 2, 3, 0, 4, 5, 6, 0, 7, 8, 9, // first row
        0, 11, 12, 13, 0, 14, 15, 16, 0, 17, 18, 19, // second row
    ];
    assert_eq!(
        decode_pix_map24(&input, 3, 2),
        Ok(bitmap(
            3,
            2,
            vec![
                1, 2, 3, 255, 4, 5, 6, 255, 7, 8, 9, 255, // first row
                11, 12, 13, 255, 14, 15, 16, 255, 17, 18, 19, 255, // second row
            ]
        ))
    );
}

#[test]
fn pix_map24_ignores_what_follows_the_rows() {
    assert_eq!(
        decode_pix_map24(&[0, 1, 2, 3, 9, 9, 9, 9, 9], 1, 1),
        Ok(bitmap(1, 1, vec![1, 2, 3, 255]))
    );
}

#[test]
fn pix_map24_too_short_is_invalid() {
    assert_eq!(decode_pix_map24(&[0, 1, 2], 1, 1), Err(DecodeError::Invalid));
    assert_eq!(decode_pix_map24(&[0, 1, 2, 3, 0, 1, 2], 1, 2), Err(DecodeError::Invalid));
    assert_eq!(decode_pix_map24(&[0, 1, 2, 3, 0, 1, 2], 2, 1), Err(DecodeError::Invalid));
    assert_eq!(decode_pix_map24(&[], 65535, 65535), Err(DecodeError::Invalid));
}

#[test]
fn pix_map24_without_pixels_is_empty() {
    assert_eq!(decode_pix_map24(&[], 0, 0), Ok(bitmap(0, 0, Vec::new())));
    assert_eq!(decode_pix_map24(&[], 0, 7), Ok(bitmap(0, 7, Vec::new())));
    assert_eq!(decode_pix_map24(&[1, 2, 3], 5, 0), Ok(bitmap(5, 0, Vec::new())));
}

#[test]
fn pix_map15_reads_the_high_byte_first() {
    // One pixel of two bytes, then two bytes of padding.
    assert_eq!(
        decode_pix_map15(&[0x7c, 0x00, 0xee, 0xee], 1, 1),
        Ok(bitmap(1, 1, vec![248, 0, 0, 255]))
    );
    assert_eq!(
        decode_pix_map15(&[0x00, 0x1f, 0xee, 0xee], 1, 1),
        Ok(bitmap(1, 1, vec![0, 0, 248, 255]))
    );
}

#[test]
fn pix_map15_of_white_and_black() {
    assert_eq!(
        decode_pix_map15(&[0x7f, 0xff, 0x00, 0x00], 2, 1),
        Ok(bitmap(2, 1, vec![248, 248, 248, 255, 0, 0, 0, 255]))
    );
}

#[test]
fn pix_map15_rows_are_padded_to_four_bytes() {
    // Three pixels take six bytes; the next row starts at byte eight.
    let input: Vec<u8> = vec![
        0x7c, 0x00, 0x03, 0xe0, 0x00, 0x1f, 0xaa, 0xaa, // red, green, blue, padding
        0x00, 0x00, 0x7f, 0xff, 0x04, 0x21, 0xbb, 0xbb, // black, white, dark grey, padding
    ];
    assert_eq!(
        decode_pix_map15(&input, 3, 2),
        Ok(bitmap(
            3,
            2,
            vec![
                248, 0, 0, 255, 0, 248, 0, 255, 0, 0, 248, 255, // first row
                0, 0, 0, 255, 248, 248, 248, 255, 8, 8, 8, 255, // second row
            ]
        ))
    );
}

#[test]
fn pix_map15_too_short_is_invalid() {
    // The padding of the last row is part of what is asked for.
    assert_eq!(decode_pix_map15(&[0x7f, 0xff], 1, 1), Err(DecodeError::Invalid));
    assert_eq!(decode_pix_map15(&[0x7f, 0xff, 0], 1, 1), Err(DecodeError::Invalid));
    assert_eq!(decode_pix_map15(&[0; 7], 1, 2), Err(DecodeError::Invalid));
    assert_eq!(decode_pix_map15(&[0; 7], 3, 1), Err(DecodeError::Invalid));
    assert!(decode_pix_map15(&[0; 8], 3, 1).is_ok());
}

#[test]
fn pix_map15_without_pixels_is_empty() {
    assert_eq!(decode_pix_map15(&[], 0, 0), Ok(bitmap(0, 0, Vec::new())));
    assert_eq!(decode_pix_map15(&[], 0, 3), Ok(bitmap(0, 3, Vec::new())));
    assert_eq!(decode_pix_map15(&[], 3, 0), Ok(bitmap(3, 0, Vec::new())));
}

#[test]
fn color_map_looks_each_index_up() {
    let input: Vec<u8> = vec![
        255, 0, 0, // color 0
        0, 0, 255, // color 1
        0, 1, 9, 9, // first row, with padding
        1, 0, 9, 9, // second row, with padding
    ];
    assert_eq!(
        decode_color_map(&input, 2, 2, 2),
        Ok(bitmap(
            2,
            2,
            vec![
                255, 0, 0, 255, 0, 0, 255, 255, // first row
                0, 0, 255, 255, 255, 0, 0, 255, // second row
            ]
        ))
    );
}

#[test]
fn color_map_with_a_row_that_needs_no_padding() {
    let input: Vec<u8> = vec![
        1, 2, 3, // color 0
        4, 5, 6, // color 1
        7, 8, 9, // color 2
        2, 1, 0, 2, // one row of four
    ];
    assert_eq!(
        decode_color_map(&input, 4, 1, 3),
        Ok(bitmap(4, 1, vec![7, 8, 9, 255, 4, 5, 6, 255, 1, 2, 3, 255, 7, 8, 9, 255]))
    );
}

#[test]
fn color_map_index_out_of_range_is_invalid() {
    // One color, and a pixel that asks for the second.
    assert_eq!(decode_color_map(&[10, 20, 30, 0, 1, 0, 0], 2, 1, 1), Err(DecodeError::Invalid));
    assert_eq!(decode_color_map(&[10, 20, 30, 1, 0, 0, 0], 2, 1, 1), Err(DecodeError::Invalid));
    assert_eq!(decode_color_map(&[10, 20, 30, 255, 0, 0, 0], 1, 1, 1), Err(DecodeError::Invalid));
    // The index that equals the number of colors is the first that is out of range.
    let input: Vec<u8> = vec![1, 2, 3, 4, 5, 6, 0, 1, 2, 0];
    assert_eq!(decode_color_map(&input, 3, 1, 2), Err(DecodeError::Invalid));
    // In the last pixel of the last row.
    let input: Vec<u8> = vec![1, 2, 3, 0, 0, 0, 0, 0, 7, 0, 0];
    assert_eq!(decode_color_map(&input, 2, 2, 1), Err(DecodeError::Invalid));
}

#[test]
fn color_map_ignores_the_padding_bytes() {
    // The padding holds values that are no index; the pixel is fine.
    assert_eq!(
        decode_color_map(&[10, 20, 30, 0, 200, 201, 202], 1, 1, 1),
        Ok(bitmap(1, 1, vec![10, 20, 30, 255]))
    );
}

#[test]
fn color_map_too_short_is_invalid() {
    // Not all of the palette.
    assert_eq!(decode_color_map(&[10, 20], 0, 0, 1), Err(DecodeError::Invalid));
    assert_eq!(decode_color_map(&[10, 20, 30, 40, 50], 1, 1, 2), Err(DecodeError::Invalid));
    assert_eq!(decode_color_map(&[], 0, 0, usize::MAX), Err(DecodeError::Invalid));
    // The palette, and not all of the padded row.
    assert_eq!(decode_color_map(&[10, 20, 30, 0], 1, 1, 1), Err(DecodeError::Invalid));
    assert_eq!(decode_color_map(&[10, 20, 30, 0, 0, 0], 1, 1, 1), Err(DecodeError::Invalid));
    assert_eq!(decode_color_map(&[10, 20, 30, 0, 0, 0, 0, 0], 1, 2, 1), Err(DecodeError::Invalid));
}

#[test]
fn color_map_without_pixels_is_empty() {
    assert_eq!(decode_color_map(&[], 0, 0, 0), Ok(bitmap(0, 0, Vec::new())));
    assert_eq!(decode_color_map(&[1, 2, 3], 0, 5, 1), Ok(bitmap(0, 5, Vec::new())));
    assert_eq!(decode_color_map(&[1, 2, 3], 5, 0, 1), Ok(bitmap(5, 0, Vec::new())));
}

#[test]
fn color_map_without_colors_has_no_valid_index() {
    assert_eq!(decode_color_map(&[0, 0, 0, 0], 1, 1, 0), Err(DecodeError::Invalid));
}

#[test]
fn color_map_with_all_256_colors() {
    let mut input: Vec<u8> = Vec::new();
    for i in 0..256u32 {
        input.extend_from_slice(&[i as u8, (255 - i) as u8, (i * 7 % 256) as u8]);
    }
    input.extend_from_slice(&[255, 0, 128, 77]);
    assert_eq!(
        decode_color_map(&input, 4, 1, 256),
        Ok(bitmap(
            4,
            1,
            vec![
                255, 0, 249, 255, // color 255
                0, 255, 0, 255, // color 0
                128, 127, 128, 255, // color 128
                77, 178, 27, 255, // color 77
            ]
        ))
    );
}

#[test]
fn decoded_bitmaps_hold_their_rows_without_padding() {
    let decoded: Vec<SwfBitmap> = vec![
        decode_pix_map24(&[0; 48], 3, 4).unwrap(),
        decode_pix_map15(&[0; 32], 3, 4).unwrap(),
        decode_color_map(&[0; 19], 3, 4, 1).unwrap(),
    ];
    for bitmap in decoded {
        assert_eq!(bitmap.meta.width, 3);
        assert_eq!(bitmap.meta.height, 4);
        assert_eq!(bitmap.meta.stride, 12);
        assert_eq!(bitmap.data.len(), bitmap.meta.stride * 4);
        for pixel in bitmap.data.chunks(4) {
            assert_eq!(pixel, &[0, 0, 0, 255]);
        }
    }
}
