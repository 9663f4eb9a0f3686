//! Compact binary encoding: a cursor over a byte buffer, and the wire form of the scalar types
//! that relay and DHT messages are made of.
//!
//! Encoding takes three steps. The `preencode_*` functions add up the length of the values,
//! [`State::allocate`] makes room for them, and the `encode_*` functions write them one after the
//! other. The `decode_*` functions read them back in the same order.

pub mod arrays;
pub mod ipv6;
pub mod laws;
pub mod net;
pub mod wire;

pub use self::arrays::{
    decode_string_array, decode_uint_array, encode_string_array, encode_uint_array,
    preencode_string_array, preencode_uint_array,
};
pub use self::ipv6::{
    decode_ip, decode_ipv6, encode_ip, encode_ipv6, preencode_ip, preencode_ipv6,
};
pub use self::net::{
    decode_ipv4, decode_ipv4_address, encode_ipv4, encode_ipv4_address, preencode_ipv4,
    preencode_ipv4_address,
};

use vstd::arithmetic::power::pow;
use vstd::prelude::*;
use vstd::utf8::{decode_utf8, encode_utf8, valid_utf8};

use crate::outside::string_from_utf8;
use crate::le::{
    get_le, le_bytes, le_value, lemma_le_bytes_len, lemma_le_roundtrip, lemma_widths, put_le,
    splice,
};

verus! {

/// Errors of encoding and decoding.
#[derive(Debug, Clone, Copy, PartialEq, Eq, Structural)]
#[non_exhaustive]
pub enum EncodingError {
    /// The buffer ends before the value does.
    OutOfBounds,
    /// A string holds bytes that are not UTF-8.
    InvalidUtf8,
    /// A fixed-size value has another length.
    InvalidLength,
    /// A text is not an IP address of the expected family.
    InvalidAddress,
    /// The family byte of an IP address is neither 4 nor 6.
    UnknownFamily,
    /// The first byte of a message names no type that is expected.
    UnknownType,
}

impl EncodingError {
    /// What the error says.
    pub open spec fn text(&self) -> Seq<char> {
        match *self {
            EncodingError::OutOfBounds => "out of bounds"@,
            EncodingError::InvalidUtf8 => "invalid utf-8"@,
            EncodingError::InvalidLength => "invalid length"@,
            EncodingError::InvalidAddress => "invalid address"@,
            EncodingError::UnknownFamily => "unknown address family"@,
            EncodingError::UnknownType => "unknown message type"@,
        }
    }

    /// The error as a text for people.
    pub fn message(&self) -> (r: &'static str)
        ensures
            r@ == self.text(),
    {
        match self {
            EncodingError::OutOfBounds => "out of bounds",
            EncodingError::InvalidUtf8 => "invalid utf-8",
            EncodingError::InvalidLength => "invalid length",
            EncodingError::InvalidAddress => "invalid address",
            EncodingError::UnknownFamily => "unknown address family",
            EncodingError::UnknownType => "unknown message type",
        }
    }
}

/// Result of encoding or decoding.
pub type Result<T> = core::result::Result<T, EncodingError>;

/// A buffer and the part of it that is still to be written or read.
pub struct State {
    /// Where the next value is written or read.
    pub start: usize,
    /// Where the values end.
    pub end: usize,
    /// The bytes.
    pub buffer: Vec<u8>,
}

impl State {
    /// The bytes that are still to be read.
    pub open spec fn rest(&self) -> Seq<u8> {
        if self.start <= self.end <= self.buffer@.len() {
            self.buffer@.subrange(self.start as int, self.end as int)
        } else {
            Seq::empty()
        }
    }

    /// A cursor over nothing, ready for `preencode_*`.
    pub fn new() -> (s: Self)
        ensures
            s.start == 0,
            s.end == 0,
            s.buffer@ == Seq::<u8>::empty(),
    {
        State { start: 0, end: 0, buffer: Vec::new() }
    }

    /// A cursor over a copy of `data`, ready for `decode_*`.
    pub fn from_buffer(data: &[u8]) -> (s: Self)
        ensures
            s.start == 0,
            s.end == data@.len(),
            s.buffer@ == data@,
            s.rest() == data@,
    {
        let buffer = copy_range(data, 0, data.len());
        let s = State { start: 0, end: data.len(), buffer };
        assert(data@.subrange(0, data@.len() as int) =~= data@);
        s
    }

    /// Makes a zeroed buffer of the length that was added up.
    pub fn allocate(&mut self)
        ensures
            final(self).start == old(self).start,
            final(self).end == old(self).end,
            final(self).buffer@ == zeros(old(self).end as nat),
    {
        self.buffer = vec![0u8; self.end];
        assert(self.buffer@ =~= zeros(self.end as nat));
    }

    /// Whether `n` bytes are left to read.
    pub(crate) fn has(&self, n: usize) -> (r: bool)
        ensures
            r == (n <= self.rest().len() && self.start <= self.end <= self.buffer@.len()),
    {
        self.start <= self.end && self.end <= self.buffer.len() && self.end - self.start >= n
    }
}

/// `n` zero bytes.
pub open spec fn zeros(n: nat) -> Seq<u8> {
    Seq::new(n, |i: int| 0u8)
}

/// `n` more bytes were accounted for.
pub open spec fn reserved(before: State, after: State, n: int) -> bool {
    &&& after.end == before.end + n
    &&& after.start == before.start
    &&& after.buffer@ == before.buffer@
}

/// The bytes `b` were written at the cursor.
pub open spec fn wrote(before: State, after: State, b: Seq<u8>) -> bool {
    &&& after.buffer@ == splice(before.buffer@, before.start as int, b)
    &&& after.start == before.start + b.len()
    &&& after.end == before.end
}

/// `n` bytes were read at the cursor.
pub open spec fn consumed(before: State, after: State, n: int) -> bool {
    &&& after.start == before.start + n
    &&& after.end == before.end
    &&& after.buffer@ == before.buffer@
    &&& 0 <= n <= before.rest().len()
    &&& after.rest() == before.rest().skip(n)
}

/// A reader failed: it may have moved past values that it did read, and changed nothing else.
pub open spec fn stalled(before: State, after: State) -> bool {
    &&& after.start >= before.start
    &&& after.end == before.end
    &&& after.buffer@ == before.buffer@
}

/// A reader that takes `p` from the front of the remaining bytes did so, or failed where `p` has
/// nothing to give.
pub open spec fn read_as<T>(before: State, after: State, r: Result<T>, p: Option<(T, int)>) -> bool {
    match p {
        Some((v, n)) => r == Ok::<T, EncodingError>(v) && consumed(before, after, n),
        None => r is Err && stalled(before, after),
    }
}

/// Filling a fresh buffer leaves exactly the bytes that were written.
pub proof fn lemma_filled(before: State, after: State, b: Seq<u8>)
    requires
        before.start == 0,
        before.buffer@ == zeros(b.len()),
        wrote(before, after, b),
    ensures
        after.buffer@ == b,
{
    assert(splice(zeros(b.len()), 0, b) =~= b);
}

/// A copy of a part of a slice.
pub fn copy_range(data: &[u8], from: usize, to: usize) -> (r: Vec<u8>)
    requires
        from <= to <= data@.len(),
    ensures
        r@ == data@.subrange(from as int, to as int),
{
    let mut r: Vec<u8> = Vec::new();
    let mut i: usize = from;
    while i < to
        invariant
            from <= i <= to <= data@.len(),
            r@ == data@.subrange(from as int, i as int),
        decreases to - i,
    {
        r.push(data[i]);
        i += 1;
        assert(r@ =~= data@.subrange(from as int, i as int));
    }
    r
}

fn put_bytes(state: &mut State, data: &[u8])
    requires
        old(state).start + data@.len() <= old(state).buffer@.len(),
    ensures
        wrote(*old(state), *final(state), data@),
{
    let n: usize = data.len();
    assert(state.start + n <= state.buffer.len());
    let ghost before = state.buffer@;
    let at: usize = state.start;
    let mut i: usize = 0;
    assert(splice(before, at as int, data@.take(0)) =~= before);
    while i < n
        invariant
            i <= n,
            n == data@.len(),
            at + n <= before.len(),
            at + n <= usize::MAX,
            state.start == at,
            state.end == old(state).end,
            state.buffer@.len() == before.len(),
            state.buffer@ == splice(before, at as int, data@.take(i as int)),
        decreases n - i,
    {
        let k: usize = at + i;
        state.buffer.set(k, data[i]);
        assert(splice(before, at as int, data@.take(i as int)).update(k as int, data@[i as int])
            =~= splice(before, at as int, data@.take(i + 1)));
        i += 1;
    }
    assert(data@.take(n as int) =~= data@);
    state.start = at + n;
}

// ── Fixed-width integers ─────────────────────────────────────────────────────

/// The number in the first `n` bytes, if there are that many.
pub open spec fn parse_le(r: Seq<u8>, n: int) -> Option<(nat, int)> {
    if n <= r.len() {
        Some((le_value(r.take(n)), n))
    } else {
        None
    }
}

fn encode_le(state: &mut State, v: u64, n: usize)
    requires
        old(state).start + n <= old(state).buffer@.len(),
    ensures
        wrote(*old(state), *final(state), le_bytes(v as nat, n as nat)),
{
    proof {
        lemma_le_bytes_len(v as nat, n as nat);
    }
    assert(state.start + n <= state.buffer.len());
    let at: usize = state.start;
    put_le(&mut state.buffer, at, v, n);
    state.start = at + n;
}

fn decode_le(state: &mut State, n: usize) -> (r: Result<u64>)
    requires
        1 <= n <= 8,
    ensures
        match parse_le(old(state).rest(), n as int) {
            Some((v, k)) => r matches Ok(x) && x == v && x < pow(256, n as nat) && consumed(
                *old(state),
                *final(state),
                k,
            ),
            None => r == Err::<u64, EncodingError>(EncodingError::OutOfBounds) && *final(state) == *old(
                state,
            ),
        },
{
    if !state.has(n) {
        return Err(EncodingError::OutOfBounds);
    }
    let at: usize = state.start;
    let v: u64 = get_le(state.buffer.as_slice(), at, n);
    state.start = at + n;
    proof {
        assert(old(state).rest().take(n as int) =~= old(state).buffer@.subrange(at as int, at + n));
        assert(state.rest() =~= old(state).rest().skip(n as int));
    }
    Ok(v)
}

/// Accounts for one byte.
pub fn preencode_uint8(state: &mut State, v: u8)
    requires
        old(state).end + 1 <= usize::MAX,
    ensures
        reserved(*old(state), *final(state), 1),
{
    state.end += 1;
}

/// Writes one byte.
pub fn encode_uint8(state: &mut State, v: u8)
    requires
        old(state).start + 1 <= old(state).buffer@.len(),
    ensures
        wrote(*old(state), *final(state), seq![v]),
{
    encode_le(state, v as u64, 1);
    proof {
        reveal_with_fuel(le_bytes, 2);
        assert(le_bytes(v as nat, 1) =~= seq![v]);
    }
}

/// The first byte, if there is one.
pub open spec fn parse_uint8(r: Seq<u8>) -> Option<(u8, int)> {
    if r.len() >= 1 {
        Some((r[0], 1))
    } else {
        None
    }
}

/// Reads one byte.
pub fn decode_uint8(state: &mut State) -> (r: Result<u8>)
    ensures
        read_as(*old(state), *final(state), r, parse_uint8(old(state).rest())),
        r is Err ==> r == Err::<u8, EncodingError>(EncodingError::OutOfBounds),
{
    if !state.has(1) {
        return Err(EncodingError::OutOfBounds);
    }
    let b: u8 = state.buffer[state.start];
    state.start += 1;
    assert(state.rest() =~= old(state).rest().skip(1));
    Ok(b)
}

/// Accounts for two bytes.
pub fn preencode_uint16(state: &mut State, v: u16)
    requires
        old(state).end + 2 <= usize::MAX,
    ensures
        reserved(*old(state), *final(state), 2),
{
    state.end += 2;
}

/// Writes two bytes, least significant first.
pub fn encode_uint16(state: &mut State, v: u16)
    requires
        old(state).start + 2 <= old(state).buffer@.len(),
    ensures
        wrote(*old(state), *final(state), le_bytes(v as nat, 2)),
{
    encode_le(state, v as u64, 2);
}

/// The 16-bit number in the first two bytes.
pub open spec fn parse_uint16(r: Seq<u8>) -> Option<(u16, int)> {
    match parse_le(r, 2) {
        Some((v, n)) => Some((v as u16, n)),
        None => None,
    }
}

/// Reads a 16-bit number.
pub fn decode_uint16(state: &mut State) -> (r: Result<u16>)
    ensures
        read_as(*old(state), *final(state), r, parse_uint16(old(state).rest())),
        r is Err ==> r == Err::<u16, EncodingError>(EncodingError::OutOfBounds),
{
    proof {
        lemma_widths();
    }
    match decode_le(state, 2) {
        Ok(v) => Ok(v as u16),
        Err(e) => Err(e),
    }
}

/// Accounts for three bytes.
pub fn preencode_uint24(state: &mut State, v: u32)
    requires
        old(state).end + 3 <= usize::MAX,
    ensures
        reserved(*old(state), *final(state), 3),
{
    state.end += 3;
}

/// Writes the three low bytes, least significant first.
pub fn encode_uint24(state: &mut State, v: u32)
    requires
        old(state).start + 3 <= old(state).buffer@.len(),
    ensures
        wrote(*old(state), *final(state), le_bytes(v as nat, 3)),
{
    encode_le(state, v as u64, 3);
}

/// The 24-bit number in the first three bytes.
pub open spec fn parse_uint24(r: Seq<u8>) -> Option<(u32, int)> {
    match parse_le(r, 3) {
        Some((v, n)) => Some((v as u32, n)),
        None => None,
    }
}

/// Reads a 24-bit number.
pub fn decode_uint24(state: &mut State) -> (r: Result<u32>)
    ensures
        read_as(*old(state), *final(state), r, parse_uint24(old(state).rest())),
        r is Err ==> r == Err::<u32, EncodingError>(EncodingError::OutOfBounds),
{
    proof {
        lemma_widths();
    }
    match decode_le(state, 3) {
        Ok(v) => Ok(v as u32),
        Err(e) => Err(e),
    }
}

/// Accounts for four bytes.
pub fn preencode_uint32(state: &mut State, v: u32)
    requires
        old(state).end + 4 <= usize::MAX,
    ensures
        reserved(*old(state), *final(state), 4),
{
    state.end += 4;
}

/// Writes four bytes, least significant first.
pub fn encode_uint32(state: &mut State, v: u32)
    requires
        old(state).start + 4 <= old(state).buffer@.len(),
    ensures
        wrote(*old(state), *final(state), le_bytes(v as nat, 4)),
{
    encode_le(state, v as u64, 4);
}

/// The 32-bit number in the first four bytes.
pub open spec fn parse_uint32(r: Seq<u8>) -> Option<(u32, int)> {
    match parse_le(r, 4) {
        Some((v, n)) => Some((v as u32, n)),
        None => None,
    }
}

/// Reads a 32-bit number.
pub fn decode_uint32(state: &mut State) -> (r: Result<u32>)
    ensures
        read_as(*old(state), *final(state), r, parse_uint32(old(state).rest())),
        r is Err ==> r == Err::<u32, EncodingError>(EncodingError::OutOfBounds),
{
    proof {
        lemma_widths();
    }
    match decode_le(state, 4) {
        Ok(v) => Ok(v as u32),
        Err(e) => Err(e),
    }
}

/// Accounts for eight bytes.
pub fn preencode_uint64(state: &mut State, v: u64)
    requires
        old(state).end + 8 <= usize::MAX,
    ensures
        reserved(*old(state), *final(state), 8),
{
    state.end += 8;
}

/// Writes eight bytes, least significant first.
pub fn encode_uint64(state: &mut State, v: u64)
    requires
        old(state).start + 8 <= old(state).buffer@.len(),
    ensures
        wrote(*old(state), *final(state), le_bytes(v as nat, 8)),
{
    encode_le(state, v, 8);
}

/// The 64-bit number in the first eight bytes.
pub open spec fn parse_uint64(r: Seq<u8>) -> Option<(u64, int)> {
    match parse_le(r, 8) {
        Some((v, n)) => Some((v as u64, n)),
        None => None,
    }
}

/// Reads a 64-bit number.
pub fn decode_uint64(state: &mut State) -> (r: Result<u64>)
    ensures
        read_as(*old(state), *final(state), r, parse_uint64(old(state).rest())),
        r is Err ==> r == Err::<u64, EncodingError>(EncodingError::OutOfBounds),
{
    proof {
        lemma_widths();
    }
    decode_le(state, 8)
}

/// Accounts for a 64-bit float, given as its bit pattern.
pub fn preencode_float64(state: &mut State, bits: u64)
    requires
        old(state).end + 8 <= usize::MAX,
    ensures
        reserved(*old(state), *final(state), 8),
{
    preencode_uint64(state, bits);
}

/// Writes a 64-bit float, given as its bit pattern: eight bytes, least significant first.
pub fn encode_float64(state: &mut State, bits: u64)
    requires
        old(state).start + 8 <= old(state).buffer@.len(),
    ensures
        wrote(*old(state), *final(state), le_bytes(bits as nat, 8)),
{
    encode_uint64(state, bits);
}

/// Reads the bit pattern of a 64-bit float.
pub fn decode_float64(state: &mut State) -> (r: Result<u64>)
    ensures
        read_as(*old(state), *final(state), r, parse_uint64(old(state).rest())),
        r is Err ==> r == Err::<u64, EncodingError>(EncodingError::OutOfBounds),
{
    decode_uint64(state)
}

// ── Variable-width integers ──────────────────────────────────────────────────

/// Wire form of an unsigned integer: one byte up to 0xfc, else a prefix byte that says how many
/// little-endian bytes follow.
pub open spec fn uint_bytes(v: u64) -> Seq<u8> {
    if v <= 0xfc {
        seq![v as u8]
    } else if v <= 0xffff {
        seq![0xfdu8] + le_bytes(v as nat, 2)
    } else if v <= 0xffff_ffff {
        seq![0xfeu8] + le_bytes(v as nat, 4)
    } else {
        seq![0xffu8] + le_bytes(v as nat, 8)
    }
}

/// Length of the wire form of an unsigned integer.
pub open spec fn uint_len(v: u64) -> int {
    if v <= 0xfc {
        1
    } else if v <= 0xffff {
        3
    } else if v <= 0xffff_ffff {
        5
    } else {
        9
    }
}

/// The unsigned integer at the front of `r`.
pub open spec fn parse_uint(r: Seq<u8>) -> Option<(u64, int)> {
    if r.len() == 0 {
        None
    } else if r[0] <= 0xfc {
        Some((r[0] as u64, 1))
    } else {
        let n: int = if r[0] == 0xfd {
            2
        } else if r[0] == 0xfe {
            4
        } else {
            8
        };
        match parse_le(r.skip(1), n) {
            Some((v, k)) => Some((v as u64, 1 + k)),
            None => None,
        }
    }
}

/// The wire form has the stated length.
pub proof fn lemma_uint_len(v: u64)
    ensures
        uint_bytes(v).len() == uint_len(v),
{
    lemma_le_bytes_len(v as nat, 2);
    lemma_le_bytes_len(v as nat, 4);
    lemma_le_bytes_len(v as nat, 8);
}

/// An unsigned integer that was written is read back, whatever follows it.
pub proof fn lemma_uint_roundtrip(v: u64, tail: Seq<u8>)
    ensures
        parse_uint(uint_bytes(v) + tail) == Some((v, uint_len(v))),
        (uint_bytes(v) + tail).skip(uint_len(v)) == tail,
{
    lemma_uint_len(v);
    lemma_widths();
    let r = uint_bytes(v) + tail;
    assert(r.skip(uint_len(v)) =~= tail);
    if v > 0xfc {
        let n: nat = (uint_len(v) - 1) as nat;
        lemma_le_bytes_len(v as nat, n);
        lemma_le_roundtrip(v as nat, n);
        assert(r.skip(1).take(n as int) =~= le_bytes(v as nat, n));
    }
}

/// Accounts for an unsigned integer.
pub fn preencode_uint(state: &mut State, v: u64)
    requires
        old(state).end + uint_len(v) <= usize::MAX,
    ensures
        reserved(*old(state), *final(state), uint_len(v)),
{
    if v <= 0xfc {
        state.end += 1;
    } else if v <= 0xffff {
        state.end += 3;
    } else if v <= 0xffff_ffff {
        state.end += 5;
    } else {
        state.end += 9;
    }
}

/// Two writes in a row are one write of both.
pub proof fn lemma_wrote_twice(a: State, b: State, c: State, x: Seq<u8>, y: Seq<u8>)
    requires
        wrote(a, b, x),
        wrote(b, c, y),
        a.start + x.len() + y.len() <= a.buffer@.len(),
    ensures
        wrote(a, c, x + y),
{
    assert(c.buffer@ =~= splice(a.buffer@, a.start as int, x + y));
}

/// Writes an unsigned integer.
pub fn encode_uint(state: &mut State, v: u64)
    requires
        old(state).start + uint_len(v) <= old(state).buffer@.len(),
    ensures
        wrote(*old(state), *final(state), uint_bytes(v)),
{
    proof {
        lemma_uint_len(v);
    }
    if v <= 0xfc {
        encode_uint8(state, v as u8);
    } else {
        let (prefix, n): (u8, usize) = if v <= 0xffff {
            (0xfd, 2)
        } else if v <= 0xffff_ffff {
            (0xfe, 4)
        } else {
            (0xff, 8)
        };
        let ghost s0 = *state;
        encode_uint8(state, prefix);
        let ghost s1 = *state;
        encode_le(state, v, n);
        proof {
            lemma_le_bytes_len(v as nat, n as nat);
            lemma_wrote_twice(s0, s1, *state, seq![prefix], le_bytes(v as nat, n as nat));
        }
    }
}

/// Reads an unsigned integer.
pub fn decode_uint(state: &mut State) -> (r: Result<u64>)
    ensures
        read_as(*old(state), *final(state), r, parse_uint(old(state).rest())),
        r is Err ==> r == Err::<u64, EncodingError>(EncodingError::OutOfBounds),
{
    proof {
        lemma_widths();
    }
    let prefix: u8 = match decode_uint8(state) {
        Ok(b) => b,
        Err(e) => {
            return Err(e);
        },
    };
    if prefix <= 0xfc {
        return Ok(prefix as u64);
    }
    let n: usize = if prefix == 0xfd {
        2
    } else if prefix == 0xfe {
        4
    } else {
        8
    };
    match decode_le(state, n) {
        Ok(v) => {
            assert(old(state).rest().skip(1).skip(n as int) =~= old(state).rest().skip(1 + n));
            Ok(v)
        },
        Err(e) => Err(e),
    }
}

// ── Signed integers ──────────────────────────────────────────────────────────

/// Signed integers folded onto unsigned ones: 0, -1, 1, -2, 2 become 0, 1, 2, 3, 4.
pub open spec fn zigzag(v: int) -> int {
    if v >= 0 {
        2 * v
    } else {
        -2 * v - 1
    }
}

/// Folds a signed integer onto an unsigned one.
pub fn zigzag_encode(v: i64) -> (r: u64)
    ensures
        r == zigzag(v as int),
{
    if v >= 0 {
        (v as u64) * 2
    } else {
        ((-(v + 1)) as u64) * 2 + 1
    }
}

/// Undoes [`zigzag_encode`].
pub fn zigzag_decode(v: u64) -> (r: i64)
    ensures
        zigzag(r as int) == v,
{
    if v % 2 == 0 {
        (v / 2) as i64
    } else {
        -((v / 2) as i64) - 1
    }
}

/// The signed integer that folds onto `v`.
pub open spec fn unzigzag(v: u64) -> i64 {
    (if v % 2 == 0 {
        v as int / 2
    } else {
        -(v as int / 2) - 1
    }) as i64
}

/// Accounts for a signed integer.
pub fn preencode_int(state: &mut State, v: i64)
    requires
        old(state).end + uint_len(zigzag(v as int) as u64) <= usize::MAX,
    ensures
        reserved(*old(state), *final(state), uint_len(zigzag(v as int) as u64)),
{
    preencode_uint(state, zigzag_encode(v));
}

/// Writes a signed integer.
pub fn encode_int(state: &mut State, v: i64)
    requires
        old(state).start + uint_len(zigzag(v as int) as u64) <= old(state).buffer@.len(),
    ensures
        wrote(*old(state), *final(state), uint_bytes(zigzag(v as int) as u64)),
{
    encode_uint(state, zigzag_encode(v));
}

/// The signed integer at the front of `r`.
pub open spec fn parse_int(r: Seq<u8>) -> Option<(i64, int)> {
    match parse_uint(r) {
        Some((v, n)) => Some((unzigzag(v), n)),
        None => None,
    }
}

/// Reads a signed integer.
pub fn decode_int(state: &mut State) -> (r: Result<i64>)
    ensures
        read_as(*old(state), *final(state), r, parse_int(old(state).rest())),
        r is Err ==> r == Err::<i64, EncodingError>(EncodingError::OutOfBounds),
{
    match decode_uint(state) {
        Ok(v) => Ok(zigzag_decode(v)),
        Err(e) => Err(e),
    }
}

// ── Booleans, byte strings, text ─────────────────────────────────────────────

/// Wire form of a boolean.
pub open spec fn bool_bytes(v: bool) -> Seq<u8> {
    seq![if v { 1u8 } else { 0u8 }]
}

/// Accounts for a boolean.
pub fn preencode_bool(state: &mut State, v: bool)
    requires
        old(state).end + 1 <= usize::MAX,
    ensures
        reserved(*old(state), *final(state), 1),
{
    state.end += 1;
}

/// Writes a boolean.
pub fn encode_bool(state: &mut State, v: bool)
    requires
        old(state).start + 1 <= old(state).buffer@.len(),
    ensures
        wrote(*old(state), *final(state), bool_bytes(v)),
{
    encode_uint8(state, if v { 1 } else { 0 });
}

/// The boolean at the front of `r`.
pub open spec fn parse_bool(r: Seq<u8>) -> Option<(bool, int)> {
    if r.len() >= 1 {
        Some((r[0] == 1, 1))
    } else {
        None
    }
}

/// Reads a boolean.
pub fn decode_bool(state: &mut State) -> (r: Result<bool>)
    ensures
        read_as(*old(state), *final(state), r, parse_bool(old(state).rest())),
        r is Err ==> r == Err::<bool, EncodingError>(EncodingError::OutOfBounds),
{
    match decode_uint8(state) {
        Ok(b) => Ok(b == 1),
        Err(e) => Err(e),
    }
}

/// Wire form of a byte string: its length, then the bytes.
pub open spec fn counted(b: Seq<u8>) -> Seq<u8> {
    uint_bytes(b.len() as u64) + b
}

/// The byte string at the front of `r`.
pub open spec fn parse_counted(r: Seq<u8>) -> Option<(Seq<u8>, int)> {
    match parse_uint(r) {
        Some((len, n)) => if n + len <= r.len() {
            Some((r.subrange(n, n + len), n + len))
        } else {
            None
        },
        None => None,
    }
}

/// A byte string that was written is read back, whatever follows it.
pub proof fn lemma_counted_roundtrip(b: Seq<u8>, tail: Seq<u8>)
    requires
        b.len() <= u64::MAX,
    ensures
        parse_counted(counted(b) + tail) == Some((b, counted(b).len() as int)),
        (counted(b) + tail).skip(counted(b).len() as int) == tail,
{
    let len = b.len() as u64;
    lemma_uint_len(len);
    lemma_uint_roundtrip(len, b + tail);
    assert(counted(b) + tail =~= uint_bytes(len) + (b + tail));
    assert((counted(b) + tail).subrange(uint_len(len), uint_len(len) + b.len()) =~= b);
    assert((counted(b) + tail).skip(counted(b).len() as int) =~= tail);
}

fn preencode_counted(state: &mut State, len: usize)
    requires
        old(state).end + uint_len(len as u64) + len <= usize::MAX,
    ensures
        reserved(*old(state), *final(state), uint_len(len as u64) + len),
{
    preencode_uint(state, len as u64);
    state.end += len;
}

fn encode_counted(state: &mut State, data: &[u8])
    requires
        old(state).start + counted(data@).len() <= old(state).buffer@.len(),
    ensures
        wrote(*old(state), *final(state), counted(data@)),
{
    let len: usize = data.len();
    proof {
        lemma_uint_len(len as u64);
    }
    let ghost s0 = *state;
    encode_uint(state, len as u64);
    let ghost s1 = *state;
    put_bytes(state, data);
    proof {
        lemma_wrote_twice(s0, s1, *state, uint_bytes(len as u64), data@);
    }
}

fn decode_counted(state: &mut State) -> (r: Result<Vec<u8>>)
    ensures
        match parse_counted(old(state).rest()) {
            Some((b, n)) => r matches Ok(v) && v@ == b && consumed(*old(state), *final(state), n),
            None => r == Err::<Vec<u8>, EncodingError>(EncodingError::OutOfBounds) && stalled(
                *old(state),
                *final(state),
            ),
        },
{
    let len: u64 = match decode_uint(state) {
        Ok(v) => v,
        Err(e) => {
            return Err(e);
        },
    };
    if !state.has(0) || len > (state.end - state.start) as u64 {
        return Err(EncodingError::OutOfBounds);
    }
    let at: usize = state.start;
    let n: usize = len as usize;
    let v = copy_range(state.buffer.as_slice(), at, at + n);
    state.start = at + n;
    proof {
        let r0 = old(state).rest();
        let (_, k) = parse_uint(r0)->0;
        assert(v@ =~= r0.subrange(k, k + len));
        assert(state.rest() =~= r0.skip(k + len));
    }
    Ok(v)
}

/// Wire form of an optional byte string: absent and empty look the same.
pub open spec fn buffer_bytes(v: Option<Seq<u8>>) -> Seq<u8> {
    match v {
        Some(b) => counted(b),
        None => seq![0u8],
    }
}

/// View of an optional slice.
pub open spec fn slice_view(v: Option<&[u8]>) -> Option<Seq<u8>> {
    match v {
        Some(b) => Some(b@),
        None => None,
    }
}

/// View of an optional vector.
pub open spec fn vec_view(v: Option<Vec<u8>>) -> Option<Seq<u8>> {
    match v {
        Some(b) => Some(b@),
        None => None,
    }
}

/// Accounts for an optional byte string.
pub fn preencode_buffer(state: &mut State, v: Option<&[u8]>)
    requires
        old(state).end + buffer_bytes(slice_view(v)).len() <= usize::MAX,
    ensures
        reserved(*old(state), *final(state), buffer_bytes(slice_view(v)).len() as int),
{
    match v {
        Some(b) => {
            proof {
                lemma_uint_len(b@.len() as u64);
            }
            preencode_counted(state, b.len());
        },
        None => {
            state.end += 1;
        },
    }
}

/// Writes an optional byte string.
pub fn encode_buffer(state: &mut State, v: Option<&[u8]>)
    requires
        old(state).start + buffer_bytes(slice_view(v)).len() <= old(state).buffer@.len(),
    ensures
        wrote(*old(state), *final(state), buffer_bytes(slice_view(v))),
{
    match v {
        Some(b) => encode_counted(state, b),
        None => encode_uint8(state, 0),
    }
}

/// The optional byte string at the front of `r`: absent where its length is zero.
pub open spec fn parse_buffer(r: Seq<u8>) -> Option<(Option<Seq<u8>>, int)> {
    match parse_counted(r) {
        Some((b, n)) => Some((if b.len() == 0 { None } else { Some(b) }, n)),
        None => None,
    }
}

/// Reads an optional byte string.
pub fn decode_buffer(state: &mut State) -> (r: Result<Option<Vec<u8>>>)
    ensures
        match parse_buffer(old(state).rest()) {
            Some((b, n)) => r matches Ok(v) && vec_view(v) == b && consumed(
                *old(state),
                *final(state),
                n,
            ),
            None => r == Err::<Option<Vec<u8>>, EncodingError>(EncodingError::OutOfBounds) && stalled(
                *old(state),
                *final(state),
            ),
        },
{
    match decode_counted(state) {
        Ok(v) => if v.len() == 0 {
            Ok(None)
        } else {
            Ok(Some(v))
        },
        Err(e) => Err(e),
    }
}

/// Accounts for a text.
pub fn preencode_string(state: &mut State, v: &str)
    requires
        old(state).end + counted(encode_utf8(v@)).len() <= usize::MAX,
    ensures
        reserved(*old(state), *final(state), counted(encode_utf8(v@)).len() as int),
{
    let b = v.as_bytes();
    proof {
        lemma_uint_len(b@.len() as u64);
    }
    preencode_counted(state, b.len());
}

/// Writes a text as counted UTF-8.
pub fn encode_string(state: &mut State, v: &str)
    requires
        old(state).start + counted(encode_utf8(v@)).len() <= old(state).buffer@.len(),
    ensures
        wrote(*old(state), *final(state), counted(encode_utf8(v@))),
{
    encode_counted(state, v.as_bytes());
}

/// Reads a text.
pub fn decode_string(state: &mut State) -> (r: Result<String>)
    ensures
        match parse_counted(old(state).rest()) {
            Some((b, n)) => if valid_utf8(b) {
                r matches Ok(v) && v@ == decode_utf8(b) && consumed(*old(state), *final(state), n)
            } else {
                r == Err::<String, EncodingError>(EncodingError::InvalidUtf8) && stalled(
                    *old(state),
                    *final(state),
                )
            },
            None => r == Err::<String, EncodingError>(EncodingError::OutOfBounds) && stalled(
                *old(state),
                *final(state),
            ),
        },
{
    match decode_counted(state) {
        Ok(v) => match string_from_utf8(v) {
            Some(s) => Ok(s),
            None => Err(EncodingError::InvalidUtf8),
        },
        Err(e) => Err(e),
    }
}

// ── Fixed-size byte strings ──────────────────────────────────────────────────

/// Accounts for 32 bytes, if `v` has that length.
pub fn preencode_fixed32(state: &mut State, v: &[u8]) -> (r: Result<()>)
    requires
        old(state).end + 32 <= usize::MAX,
    ensures
        if v@.len() == 32 {
            r == Ok::<(), EncodingError>(()) && reserved(*old(state), *final(state), 32)
        } else {
            r == Err::<(), EncodingError>(EncodingError::InvalidLength) && *final(state) == *old(state)
        },
{
    if v.len() != 32 {
        return Err(EncodingError::InvalidLength);
    }
    state.end += 32;
    Ok(())
}

/// Writes 32 bytes.
pub fn encode_fixed32(state: &mut State, v: &[u8; 32])
    requires
        old(state).start + 32 <= old(state).buffer@.len(),
    ensures
        wrote(*old(state), *final(state), v@),
{
    put_bytes(state, v.as_slice());
}

/// Reads 32 bytes.
pub fn decode_fixed32(state: &mut State) -> (r: Result<[u8; 32]>)
    ensures
        if old(state).rest().len() >= 32 {
            r matches Ok(v) && v@ == old(state).rest().take(32) && consumed(
                *old(state),
                *final(state),
                32,
            )
        } else {
            r == Err::<[u8; 32], EncodingError>(EncodingError::OutOfBounds) && *final(state) == *old(
                state,
            )
        },
{
    if !state.has(32) {
        return Err(EncodingError::OutOfBounds);
    }
    let at: usize = state.start;
    let mut v: [u8; 32] = [0u8; 32];
    let mut i: usize = 0;
    while i < 32
        invariant
            i <= 32,
            at + 32 <= state.buffer@.len(),
            at + 32 <= usize::MAX,
            forall|j: int| 0 <= j < i ==> v@[j] == state.buffer@[at + j],
        decreases 32 - i,
    {
        v[i] = state.buffer[at + i];
        i += 1;
    }
    state.start = at + 32;
    proof {
        assert(v@ =~= old(state).rest().take(32));
        assert(state.rest() =~= old(state).rest().skip(32));
    }
    Ok(v)
}

/// Accounts for 64 bytes, if `v` has that length.
pub fn preencode_fixed64(state: &mut State, v: &[u8]) -> (r: Result<()>)
    requires
        old(state).end + 64 <= usize::MAX,
    ensures
        if v@.len() == 64 {
            r == Ok::<(), EncodingError>(()) && reserved(*old(state), *final(state), 64)
        } else {
            r == Err::<(), EncodingError>(EncodingError::InvalidLength) && *final(state) == *old(state)
        },
{
    if v.len() != 64 {
        return Err(EncodingError::InvalidLength);
    }
    state.end += 64;
    Ok(())
}

/// Writes 64 bytes.
pub fn encode_fixed64(state: &mut State, v: &[u8; 64])
    requires
        old(state).start + 64 <= old(state).buffer@.len(),
    ensures
        wrote(*old(state), *final(state), v@),
{
    put_bytes(state, v.as_slice());
}

/// Reads 64 bytes.
pub fn decode_fixed64(state: &mut State) -> (r: Result<[u8; 64]>)
    ensures
        if old(state).rest().len() >= 64 {
            r matches Ok(v) && v@ == old(state).rest().take(64) && consumed(
                *old(state),
                *final(state),
                64,
            )
        } else {
            r == Err::<[u8; 64], EncodingError>(EncodingError::OutOfBounds) && *final(state) == *old(
                state,
            )
        },
{
    if !state.has(64) {
        return Err(EncodingError::OutOfBounds);
    }
    let at: usize = state.start;
    let mut v: [u8; 64] = [0u8; 64];
    let mut i: usize = 0;
    while i < 64
        invariant
            i <= 64,
            at + 64 <= state.buffer@.len(),
            at + 64 <= usize::MAX,
            forall|j: int| 0 <= j < i ==> v@[j] == state.buffer@[at + j],
        decreases 64 - i,
    {
        v[i] = state.buffer[at + i];
        i += 1;
    }
    state.start = at + 64;
    proof {
        assert(v@ =~= old(state).rest().take(64));
        assert(state.rest() =~= old(state).rest().skip(64));
    }
    Ok(v)
}

} // verus!
