//! Serialization of bitmaps as PAM images.

use crate::{SwfBitmap, SwfBitmapView};
use vstd::prelude::*;
use vstd::string::is_ascii;
use vstd::utf8::is_ascii_chars_encode_utf8;

verus! {

/// The bytes of a text of ASCII characters, one byte for each.
pub open spec fn ascii(text: Seq<char>) -> Seq<u8> {
    Seq::new(text.len(), |i: int| text[i] as u8)
}

/// The decimal digits of `n` in ASCII, without leading zeros.
pub open spec fn decimal_digits(n: nat) -> Seq<u8>
    decreases n,
{
    if n < 10 {
        seq![('0' as u8 + n) as u8]
    } else {
        decimal_digits(n / 10).push(('0' as u8 + n % 10) as u8)
    }
}

/// The header of a PAM image of `height` rows of `width` RGBA pixels.
pub open spec fn pam_header(width: nat, height: nat) -> Seq<u8> {
    ascii("P7\n"@)
        + ascii("WIDTH "@) + decimal_digits(width) + ascii("\n"@)
        + ascii("HEIGHT "@) + decimal_digits(height) + ascii("\n"@)
        + ascii("DEPTH 4\n"@)
        + ascii("MAXVAL 255\n"@)
        + ascii("TUPLTYPE RGB_ALPHA\n"@)
        + ascii("ENDHDR\n"@)
}

/// The PAM image of `bitmap`: the header, then the pixel bytes as they are.
pub open spec fn pam_encoding(bitmap: SwfBitmapView) -> Seq<u8> {
    pam_header(bitmap.width, bitmap.height) + bitmap.data
}

/// Appends the bytes of an ASCII text to `writer`.
fn write_ascii(writer: &mut Vec<u8>, text: &str)
    requires
        is_ascii(text),
    ensures
        final(writer)@ == old(writer)@ + ascii(text@),
{
    proof {
        is_ascii_chars_encode_utf8(text@);
    }
    let bytes = text.as_bytes();
    assert(bytes@ == ascii(text@));
    writer.extend_from_slice(bytes);
}

/// Appends the decimal digits of `n` to `writer`.
fn write_decimal(writer: &mut Vec<u8>, n: u32)
    ensures
        final(writer)@ == old(writer)@ + decimal_digits(n as nat),
    decreases n,
{
    if n >= 10 {
        write_decimal(writer, n / 10);
    }
    writer.push('0' as u8 + (n % 10) as u8);
}

/// Appends the PAM image of `bitmap` to `writer`.
pub fn encode_pam(writer: &mut Vec<u8>, bitmap: SwfBitmap)
    ensures
        final(writer)@ == old(writer)@ + pam_encoding(bitmap@),
{
    proof {
        reveal_strlit("P7\n");
        reveal_strlit("WIDTH ");
        reveal_strlit("HEIGHT ");
        reveal_strlit("\n");
        reveal_strlit("DEPTH 4\n");
        reveal_strlit("MAXVAL 255\n");
        reveal_strlit("TUPLTYPE RGB_ALPHA\n");
        reveal_strlit("ENDHDR\n");
    }
    write_ascii(writer, "P7\n");
    write_ascii(writer, "WIDTH ");
    write_decimal(writer, bitmap.meta.width);
    write_ascii(writer, "\n");
    write_ascii(writer, "HEIGHT ");
    write_decimal(writer, bitmap.meta.height);
    write_ascii(writer, "\n");
    write_ascii(writer, "DEPTH 4\n");
    write_ascii(writer, "MAXVAL 255\n");
    write_ascii(writer, "TUPLTYPE RGB_ALPHA\n");
    write_ascii(writer, "ENDHDR\n");
    writer.extend_from_slice(bitmap.data.as_slice());
}

} // verus!
