//! Contracts for the byte parsers of `nom` that the decoder is built on.
//!
//! Nothing in this module is proved: each contract restates what the
//! parser's source does on a byte slice with the unit error type.

use crate::decode::{parse_rgb, Rgb};
use crate::format::{palette_color, u16_from_bytes};
use vstd::prelude::*;

verus! {

/// `nom::Err`, the error side of every `nom` parser. The decoder only
/// passes it along; nothing is known of what it holds.
#[verifier::external_type_specification]
#[verifier::external_body]
#[verifier::reject_recursive_types(E)]
pub struct ExNomErr<E>(nom::Err<E>);

/// `nom::number::complete::le_u8`: on an empty input it fails; otherwise it
/// yields the first byte and leaves the input after that byte.
#[verifier::external_body]
pub(crate) fn le_u8<'a>(input: &'a [u8]) -> (r: Result<(&'a [u8], u8), nom::Err<()>>)
    ensures
        match r {
            Ok((rest, value)) => {
                &&& input@.len() >= 1
                &&& rest@ == input@.skip(1)
                &&& value == input@[0]
            },
            Err(_) => input@.len() < 1,
        },
{
    nom::number::complete::le_u8(input)
}

/// `nom::number::complete::le_u16`: on an input of fewer than two bytes it
/// fails; otherwise it yields the first two bytes read as a little-endian
/// integer and leaves the input after them.
#[verifier::external_body]
pub(crate) fn le_u16<'a>(input: &'a [u8]) -> (r: Result<(&'a [u8], u16), nom::Err<()>>)
    ensures
        match r {
            Ok((rest, value)) => {
                &&& input@.len() >= 2
                &&& rest@ == input@.skip(2)
                &&& value == u16_from_bytes(input@[1], input@[0])
            },
            Err(_) => input@.len() < 2,
        },
{
    nom::number::complete::le_u16(input)
}

/// `nom::multi::count` with `parse_rgb` as its parser: it runs the parser
/// `count` times, each time on what the run before left, and collects the
/// colors in order. It fails as soon as one run fails, which `parse_rgb`
/// does exactly when fewer than three bytes are left.
#[verifier::external_body]
pub(crate) fn count_rgb<'a>(input: &'a [u8], count: usize) -> (r: Result<
    (&'a [u8], Vec<Rgb>),
    nom::Err<()>,
>)
    ensures
        match r {
            Ok((rest, colors)) => {
                &&& input@.len() >= 3 * count
                &&& rest@ == input@.skip(3 * count)
                &&& colors@.len() == count
                &&& forall|i: int| 0 <= i < count ==> colors@[i] == palette_color(input@, i)
            },
            Err(_) => input@.len() < 3 * count,
        },
{
    nom::multi::count(parse_rgb, count)(input)
}

} // verus!
