//! Calls into `rand`, `hex` and the standard library whose behaviour is taken from their
//! documentation and source.

use rand::Rng;
use vstd::prelude::*;
use vstd::utf8::{decode_utf8, encode_utf8, valid_utf8};

verus! {

/// `String::from_utf8` of the standard library: gives the text whose UTF-8 form the bytes are, and
/// nothing where they are not UTF-8.
#[verifier::external_body]
pub(crate) fn string_from_utf8(bytes: Vec<u8>) -> (r: Option<String>)
    ensures
        r is Some == valid_utf8(bytes@),
        r matches Some(s) ==> s@ == decode_utf8(bytes@),
{
    String::from_utf8(bytes).ok()
}

/// `rand::Rng::random_range` on the range from zero up to `n`, with the generator of `rand::rng`:
/// gives some number of that range. It panics on an empty range, which `n > 0` rules out.
#[verifier::external_body]
pub(crate) fn random_below(n: u64) -> (r: u64)
    requires
        n > 0,
    ensures
        r < n,
{
    rand::rng().random_range(0..n)
}

/// `rand::random` for 32 bytes: any bytes may come out, so nothing is claimed of them.
#[verifier::external_body]
pub(crate) fn random_token() -> (r: [u8; 32]) {
    rand::random()
}

/// Why a text is not hexadecimal.
#[derive(Debug, Clone, Copy, PartialEq, Eq)]
pub enum HexError {
    /// A byte is none of `0...9`, `a...f` and `A...F`.
    InvalidHexCharacter {
        /// The byte as a character.
        c: char,
        /// Where it stands.
        index: usize,
    },
    /// The number of digits is odd.
    OddLength,
    /// The number of digits does not fit a fixed size.
    InvalidStringLength,
}

/// The value of a hexadecimal digit.
pub open spec fn hex_digit(b: u8) -> Option<int> {
    if 48 <= b <= 57 {
        Some(b - 48)
    } else if 97 <= b <= 102 {
        Some(b - 87)
    } else if 65 <= b <= 70 {
        Some(b - 55)
    } else {
        None
    }
}

/// Whether all bytes are hexadecimal digits.
pub open spec fn all_hex(b: Seq<u8>) -> bool {
    forall|i: int| 0 <= i < b.len() ==> hex_digit(#[trigger] b[i]) is Some
}

/// The bytes that pairs of hexadecimal digits stand for, the high digit first.
pub open spec fn unhex(b: Seq<u8>) -> Seq<u8> {
    Seq::new(
        b.len() / 2,
        |i: int| (16 * hex_digit(b[2 * i])->0 + hex_digit(b[2 * i + 1])->0) as u8,
    )
}

/// `hex::decode` on the UTF-8 form of a text: an odd length is an error, else the first byte that
/// is no digit is one, else each pair of digits gives a byte.
#[verifier::external_body]
pub(crate) fn hex_decode(text: &str) -> (r: Result<Vec<u8>, HexError>)
    ensures
        match r {
            Ok(v) => encode_utf8(text@).len() % 2 == 0 && all_hex(encode_utf8(text@)) && v@ == unhex(
                encode_utf8(text@),
            ),
            Err(HexError::OddLength) => encode_utf8(text@).len() % 2 == 1,
            Err(HexError::InvalidHexCharacter { c, index }) => {
                &&& encode_utf8(text@).len() % 2 == 0
                &&& index < encode_utf8(text@).len()
                &&& all_hex(encode_utf8(text@).take(index as int))
                &&& hex_digit(encode_utf8(text@)[index as int]) is None
                &&& c == encode_utf8(text@)[index as int] as char
            },
            Err(HexError::InvalidStringLength) => false,
        },
{
    match hex::decode(text) {
        Ok(v) => Ok(v),
        Err(hex::FromHexError::InvalidHexCharacter { c, index }) => {
            Err(HexError::InvalidHexCharacter { c, index })
        },
        Err(hex::FromHexError::OddLength) => Err(HexError::OddLength),
        Err(hex::FromHexError::InvalidStringLength) => Err(HexError::InvalidStringLength),
    }
}

} // verus!
