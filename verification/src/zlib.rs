//! The zlib decompressor that the decoder hands compressed pixels to.
//!
//! The `inflate` crate does the work. DEFLATE is not restated here: what the
//! crate returns for a given input has a name, and the one contract of this
//! module ties the call to that name. It is not proved.

use vstd::prelude::*;

verus! {

/// What `inflate::inflate_bytes_zlib` returns for the compressed bytes
/// `input`: the inflated bytes, or the message of the error it found.
pub uninterp spec fn inflate_bytes_zlib_result(input: Seq<u8>) -> Result<Seq<u8>, Seq<char>>;

/// `inflate::inflate_bytes_zlib`: inflates a zlib stream, that is DEFLATE
/// data between a two-byte header and an Adler-32 checksum. The crate reads
/// nothing but `input`, so the same bytes always give the same result; the
/// contract says no more than that. It fails on a stream that it finds
/// malformed, and returns what it has inflated so far where the stream just
/// ends early.
#[verifier::external_body]
pub(crate) fn inflate_bytes_zlib(input: &[u8]) -> (r: Result<Vec<u8>, String>)
    ensures
        match r {
            Ok(data) => inflate_bytes_zlib_result(input@) == Ok::<Seq<u8>, Seq<char>>(data@),
            Err(message) => inflate_bytes_zlib_result(input@) == Err::<Seq<u8>, Seq<char>>(
                message@,
            ),
        },
{
    inflate::inflate_bytes_zlib(input)
}

} // verus!
