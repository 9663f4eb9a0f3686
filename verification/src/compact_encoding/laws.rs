//! What the encoding promises of every value: a read gives back what a write wrote, whatever
//! follows it.

use vstd::arithmetic::power::pow;
use vstd::prelude::*;
use vstd::utf8::{
    decode_utf8, encode_utf8, encode_utf8_decode_utf8, encode_utf8_valid_utf8, valid_utf8,
};

use super::{
    bool_bytes, buffer_bytes, counted, lemma_counted_roundtrip, lemma_uint_len,
    lemma_uint_roundtrip, parse_bool, parse_buffer, parse_counted, parse_int, parse_le,
    parse_uint, parse_uint16, parse_uint24, parse_uint32, parse_uint64, parse_uint8, uint_bytes,
    uint_len, unzigzag, zigzag,
};
use crate::le::{le_bytes, lemma_le_bytes_len, lemma_le_roundtrip, lemma_widths};

verus! {

proof fn lemma_le_front(v: nat, n: nat, tail: Seq<u8>)
    requires
        v < pow(256, n),
    ensures
        parse_le(le_bytes(v, n) + tail, n as int) == Some((v, n as int)),
{
    lemma_le_bytes_len(v, n);
    lemma_le_roundtrip(v, n);
    assert((le_bytes(v, n) + tail).take(n as int) =~= le_bytes(v, n));
}

/// A byte is read back.
pub proof fn law_uint8_roundtrip(v: u8, tail: Seq<u8>)
    ensures
        parse_uint8(seq![v] + tail) == Some((v, 1int)),
{
}

/// A 16-bit number is read back.
pub proof fn law_uint16_roundtrip(v: u16, tail: Seq<u8>)
    ensures
        parse_uint16(le_bytes(v as nat, 2) + tail) == Some((v, 2int)),
{
    lemma_widths();
    lemma_le_front(v as nat, 2, tail);
}

/// A 24-bit number is read back. A larger one keeps its low bits only, so it is left out.
pub proof fn law_uint24_roundtrip(v: u32, tail: Seq<u8>)
    requires
        v < 0x100_0000,
    ensures
        parse_uint24(le_bytes(v as nat, 3) + tail) == Some((v, 3int)),
{
    lemma_widths();
    lemma_le_front(v as nat, 3, tail);
}

/// A 32-bit number is read back.
pub proof fn law_uint32_roundtrip(v: u32, tail: Seq<u8>)
    ensures
        parse_uint32(le_bytes(v as nat, 4) + tail) == Some((v, 4int)),
{
    lemma_widths();
    lemma_le_front(v as nat, 4, tail);
}

/// A 64-bit number, or the bit pattern of a float, is read back.
pub proof fn law_uint64_roundtrip(v: u64, tail: Seq<u8>)
    ensures
        parse_uint64(le_bytes(v as nat, 8) + tail) == Some((v, 8int)),
{
    lemma_widths();
    lemma_le_front(v as nat, 8, tail);
}

/// An unsigned integer of variable length is read back, and its length is the one accounted for.
pub proof fn law_uint_roundtrip(v: u64, tail: Seq<u8>)
    ensures
        parse_uint(uint_bytes(v) + tail) == Some((v, uint_len(v))),
        uint_bytes(v).len() == uint_len(v),
{
    lemma_uint_len(v);
    lemma_uint_roundtrip(v, tail);
}

/// Folding a signed integer onto an unsigned one loses nothing, and every unsigned integer is
/// reached.
pub proof fn law_zigzag_is_one_to_one(v: i64, u: u64)
    ensures
        0 <= zigzag(v as int) <= u64::MAX,
        unzigzag(zigzag(v as int) as u64) == v,
        zigzag(unzigzag(u) as int) == u,
{
}

/// A signed integer is read back.
pub proof fn law_int_roundtrip(v: i64, tail: Seq<u8>)
    ensures
        parse_int(uint_bytes(zigzag(v as int) as u64) + tail) == Some(
            (v, uint_len(zigzag(v as int) as u64)),
        ),
{
    law_zigzag_is_one_to_one(v, 0);
    lemma_uint_roundtrip(zigzag(v as int) as u64, tail);
}

/// A boolean is read back.
pub proof fn law_bool_roundtrip(v: bool, tail: Seq<u8>)
    ensures
        parse_bool(bool_bytes(v) + tail) == Some((v, 1int)),
{
}

/// An optional byte string is read back. An empty one is written like none, and read as none.
pub proof fn law_buffer_roundtrip(v: Option<Seq<u8>>, tail: Seq<u8>)
    requires
        v matches Some(b) ==> b.len() <= u64::MAX,
    ensures
        parse_buffer(buffer_bytes(v) + tail) == Some(
            (
                match v {
                    Some(b) => if b.len() == 0 {
                        None
                    } else {
                        Some(b)
                    },
                    None => None,
                },
                buffer_bytes(v).len() as int,
            ),
        ),
{
    match v {
        Some(b) => lemma_counted_roundtrip(b, tail),
        None => {
            lemma_counted_roundtrip(Seq::empty(), tail);
            assert(counted(Seq::empty()) =~= seq![0u8]);
        },
    }
}

/// A text is read back.
pub proof fn law_string_roundtrip(text: Seq<char>, tail: Seq<u8>)
    requires
        encode_utf8(text).len() <= u64::MAX,
    ensures
        parse_counted(counted(encode_utf8(text)) + tail) == Some(
            (encode_utf8(text), counted(encode_utf8(text)).len() as int),
        ),
        valid_utf8(encode_utf8(text)),
        decode_utf8(encode_utf8(text)) == text,
{
    lemma_counted_roundtrip(encode_utf8(text), tail);
    encode_utf8_valid_utf8(text);
    encode_utf8_decode_utf8(text);
}

/// A byte string of fixed length is read back.
pub proof fn law_fixed_roundtrip(b: Seq<u8>, tail: Seq<u8>)
    ensures
        (b + tail).take(b.len() as int) == b,
        (b + tail).skip(b.len() as int) == tail,
{
    assert((b + tail).take(b.len() as int) =~= b);
    assert((b + tail).skip(b.len() as int) =~= tail);
}

} // verus!
