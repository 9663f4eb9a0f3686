//! Wire form of the `pair` and `unpair` messages.

use vstd::prelude::*;

use crate::bytes::{key_of, lemma_key_bytes, lemma_key_of};
use crate::compact_encoding::{
    decode_fixed32, decode_uint, decode_uint8, encode_fixed32, encode_uint, encode_uint8,
    lemma_filled, lemma_uint_len, lemma_uint_roundtrip, lemma_wrote_twice, parse_uint, preencode_uint, read_as, reserved,
    uint_bytes, uint_len, wrote, EncodingError, Result, State,
};

verus! {

/// Pair message: requests relay pairing with a 32-byte token.
#[derive(Debug, Clone, Copy, PartialEq, Eq)]
pub struct PairMessage {
    /// Indicates whether this peer initiated the pair request.
    pub is_initiator: bool,
    /// Relay token used to match the pair and unpair messages.
    pub token: [u8; 32],
    /// Stream identifier assigned by the local peer.
    pub id: u64,
    /// Sequence number for the pair request.
    pub seq: u64,
}

/// Unpair message: cancels a relay pairing.
#[derive(Debug, Clone, Copy, PartialEq, Eq)]
pub struct UnpairMessage {
    /// Relay token used to cancel a pending pair request.
    pub token: [u8; 32],
}

/// Protocol name of the relay channel.
pub const PROTOCOL_NAME: &'static str = "blind-relay";

/// Channel message type of a pair message.
pub const MSG_TYPE_PAIR: u32 = 0;

/// Channel message type of an unpair message.
pub const MSG_TYPE_UNPAIR: u32 = 1;

/// Wire form of a pair message: a flag byte, the token, the stream id and the sequence number.
pub open spec fn pair_bytes(m: PairMessage) -> Seq<u8> {
    seq![if m.is_initiator { 1u8 } else { 0u8 }] + m.token@ + uint_bytes(m.id) + uint_bytes(m.seq)
}

/// Wire form of an unpair message: a flag byte without meaning, and the token.
pub open spec fn unpair_bytes(m: UnpairMessage) -> Seq<u8> {
    seq![0u8] + m.token@
}

/// The pair message at the front of `r` and its length. Of the flag byte only the lowest bit
/// counts.
pub open spec fn parse_pair(r: Seq<u8>) -> Option<(PairMessage, int)> {
    if r.len() < 33 {
        None
    } else {
        match parse_uint(r.skip(33)) {
            Some((id, k)) => match parse_uint(r.skip(33 + k)) {
                Some((seq, l)) => Some(
                    (
                        PairMessage {
                            is_initiator: r[0] % 2 == 1,
                            token: key_of(r.subrange(1, 33)),
                            id,
                            seq,
                        },
                        33 + k + l,
                    ),
                ),
                None => None,
            },
            None => None,
        }
    }
}

/// The unpair message at the front of `r` and its length.
pub open spec fn parse_unpair(r: Seq<u8>) -> Option<(UnpairMessage, int)> {
    if r.len() < 33 {
        None
    } else {
        Some((UnpairMessage { token: key_of(r.subrange(1, 33)) }, 33))
    }
}

/// The token of a message that was read holds the 32 bytes behind the flag byte.
pub proof fn law_token_is_what_was_received(r: Seq<u8>)
    ensures
        parse_pair(r) matches Some((m, _)) ==> m.token@ == r.subrange(1, 33),
        parse_unpair(r) matches Some((m, _)) ==> m.token@ == r.subrange(1, 33),
{
    if r.len() >= 33 {
        lemma_key_bytes(r.subrange(1, 33));
    }
}

/// A pair message that was written is read back, whatever follows it.
pub proof fn law_pair_roundtrip(m: PairMessage, tail: Seq<u8>)
    ensures
        parse_pair(pair_bytes(m) + tail) == Some((m, pair_bytes(m).len() as int)),
{
    let r = pair_bytes(m) + tail;
    lemma_key_of(m.token);
    lemma_uint_len(m.id);
    lemma_uint_len(m.seq);
    lemma_uint_roundtrip(m.id, uint_bytes(m.seq) + tail);
    lemma_uint_roundtrip(m.seq, tail);
    assert(r.subrange(1, 33) =~= m.token@);
    assert(r.skip(33) =~= uint_bytes(m.id) + (uint_bytes(m.seq) + tail));
    assert(r.skip(33 + uint_len(m.id)) =~= uint_bytes(m.seq) + tail);
}

/// An unpair message that was written is read back, whatever follows it.
pub proof fn law_unpair_roundtrip(m: UnpairMessage, tail: Seq<u8>)
    ensures
        parse_unpair(unpair_bytes(m) + tail) == Some((m, unpair_bytes(m).len() as int)),
{
    lemma_key_of(m.token);
    assert((unpair_bytes(m) + tail).subrange(1, 33) =~= m.token@);
}

/// Pre-encodes a [`PairMessage`], advancing the state cursor.
pub fn preencode_pair(state: &mut State, msg: &PairMessage)
    requires
        old(state).end + pair_bytes(*msg).len() <= usize::MAX,
    ensures
        reserved(*old(state), *final(state), pair_bytes(*msg).len() as int),
{
    proof {
        lemma_uint_len(msg.id);
        lemma_uint_len(msg.seq);
    }
    state.end += 1;
    state.end += 32;
    preencode_uint(state, msg.id);
    preencode_uint(state, msg.seq);
}

/// Encodes a [`PairMessage`] into the state buffer.
pub fn encode_pair(state: &mut State, msg: &PairMessage)
    requires
        old(state).start + pair_bytes(*msg).len() <= old(state).buffer@.len(),
    ensures
        wrote(*old(state), *final(state), pair_bytes(*msg)),
{
    proof {
        lemma_uint_len(msg.id);
        lemma_uint_len(msg.seq);
    }
    let flags: u8 = if msg.is_initiator {
        1
    } else {
        0
    };
    let ghost s0 = *state;
    encode_uint8(state, flags);
    let ghost s1 = *state;
    encode_fixed32(state, &msg.token);
    let ghost s2 = *state;
    encode_uint(state, msg.id);
    let ghost s3 = *state;
    encode_uint(state, msg.seq);
    proof {
        lemma_wrote_twice(s0, s1, s2, seq![flags], msg.token@);
        lemma_wrote_twice(s0, s2, s3, seq![flags] + msg.token@, uint_bytes(msg.id));
        lemma_wrote_twice(
            s0,
            s3,
            *state,
            seq![flags] + msg.token@ + uint_bytes(msg.id),
            uint_bytes(msg.seq),
        );
    }
}

/// Decodes a [`PairMessage`] from the state buffer.
pub fn decode_pair(state: &mut State) -> (r: Result<PairMessage>)
    ensures
        read_as(*old(state), *final(state), r, parse_pair(old(state).rest())),
        r is Err ==> r == Err::<PairMessage, EncodingError>(EncodingError::OutOfBounds),
{
    let ghost r0 = state.rest();
    let flags: u8 = match decode_uint8(state) {
        Ok(v) => v,
        Err(e) => {
            return Err(e);
        },
    };
    let is_initiator: bool = flags & 1 != 0;
    assert((flags & 1 != 0) == (flags % 2 == 1)) by (bit_vector);
    let token: [u8; 32] = match decode_fixed32(state) {
        Ok(v) => v,
        Err(e) => {
            return Err(e);
        },
    };
    assert(r0.skip(1).take(32) =~= r0.subrange(1, 33));
    assert(r0.skip(1).skip(32) =~= r0.skip(33));
    proof {
        lemma_key_of(token);
    }
    let id: u64 = match decode_uint(state) {
        Ok(v) => v,
        Err(e) => {
            return Err(e);
        },
    };
    let ghost (_, k) = parse_uint(r0.skip(33))->0;
    assert(r0.skip(33).skip(k) =~= r0.skip(33 + k));
    let seq: u64 = match decode_uint(state) {
        Ok(v) => v,
        Err(e) => {
            return Err(e);
        },
    };
    let m = PairMessage { is_initiator, token, id, seq };
    proof {
        let (_, l) = parse_uint(r0.skip(33 + k))->0;
        assert(r0.skip(33 + k).skip(l) =~= r0.skip(33 + k + l));
    }
    Ok(m)
}

/// Pre-encodes a [`UnpairMessage`], advancing the state cursor.
pub fn preencode_unpair(state: &mut State, _msg: &UnpairMessage)
    requires
        old(state).end + 33 <= usize::MAX,
    ensures
        reserved(*old(state), *final(state), unpair_bytes(*_msg).len() as int),
{
    state.end += 1;
    state.end += 32;
}

/// Encodes a [`UnpairMessage`] into the state buffer.
pub fn encode_unpair(state: &mut State, msg: &UnpairMessage)
    requires
        old(state).start + 33 <= old(state).buffer@.len(),
    ensures
        wrote(*old(state), *final(state), unpair_bytes(*msg)),
{
    let ghost s0 = *state;
    encode_uint8(state, 0);
    let ghost s1 = *state;
    encode_fixed32(state, &msg.token);
    proof {
        lemma_wrote_twice(s0, s1, *state, seq![0u8], msg.token@);
    }
}

/// Decodes a [`UnpairMessage`] from the state buffer.
pub fn decode_unpair(state: &mut State) -> (r: Result<UnpairMessage>)
    ensures
        read_as(*old(state), *final(state), r, parse_unpair(old(state).rest())),
        r is Err ==> r == Err::<UnpairMessage, EncodingError>(EncodingError::OutOfBounds),
{
    let ghost r0 = state.rest();
    match decode_uint8(state) {
        Ok(_) => {},
        Err(e) => {
            return Err(e);
        },
    }
    match decode_fixed32(state) {
        Ok(token) => {
            assert(r0.skip(1).take(32) =~= r0.subrange(1, 33));
            assert(r0.skip(1).skip(32) =~= r0.skip(33));
            proof {
                lemma_key_of(token);
            }
            Ok(UnpairMessage { token })
        },
        Err(e) => Err(e),
    }
}

/// Encodes a pair message to bytes.
pub fn encode_pair_to_vec(msg: &PairMessage) -> (r: Vec<u8>)
    ensures
        r@ == pair_bytes(*msg),
{
    proof {
        lemma_uint_len(msg.id);
        lemma_uint_len(msg.seq);
    }
    let mut state = State::new();
    preencode_pair(&mut state, msg);
    state.allocate();
    let ghost s0 = state;
    encode_pair(&mut state, msg);
    proof {
        lemma_filled(s0, state, pair_bytes(*msg));
    }
    state.buffer
}

/// Encodes an unpair message to bytes.
pub fn encode_unpair_to_vec(msg: &UnpairMessage) -> (r: Vec<u8>)
    ensures
        r@ == unpair_bytes(*msg),
{
    let mut state = State::new();
    preencode_unpair(&mut state, msg);
    state.allocate();
    let ghost s0 = state;
    encode_unpair(&mut state, msg);
    proof {
        lemma_filled(s0, state, unpair_bytes(*msg));
    }
    state.buffer
}

/// Decodes a pair message from bytes. Bytes behind the message are ignored.
pub fn decode_pair_from_slice(data: &[u8]) -> (r: Result<PairMessage>)
    ensures
        match parse_pair(data@) {
            Some((m, _)) => r == Ok::<PairMessage, EncodingError>(m),
            None => r == Err::<PairMessage, EncodingError>(EncodingError::OutOfBounds),
        },
{
    let mut state = State::from_buffer(data);
    decode_pair(&mut state)
}

/// Decodes an unpair message from bytes. Bytes behind the message are ignored.
pub fn decode_unpair_from_slice(data: &[u8]) -> (r: Result<UnpairMessage>)
    ensures
        match parse_unpair(data@) {
            Some((m, _)) => r == Ok::<UnpairMessage, EncodingError>(m),
            None => r == Err::<UnpairMessage, EncodingError>(EncodingError::OutOfBounds),
        },
{
    let mut state = State::from_buffer(data);
    decode_unpair(&mut state)
}

/// On the wire a pair message is a flag byte, the 32 bytes of the token, and two integers.
pub proof fn law_pair_layout(m: PairMessage)
    ensures
        pair_bytes(m).len() == 33 + uint_len(m.id) + uint_len(m.seq),
        pair_bytes(m)[0] == if m.is_initiator {
            1u8
        } else {
            0
        },
        pair_bytes(m).subrange(1, 33) == m.token@,
        pair_bytes(m).subrange(33, 33 + uint_len(m.id)) == uint_bytes(m.id),
        pair_bytes(m).skip(33 + uint_len(m.id)) == uint_bytes(m.seq),
{
    lemma_uint_len(m.id);
    lemma_uint_len(m.seq);
    let b = pair_bytes(m);
    assert(b.subrange(1, 33) =~= m.token@);
    assert(b.subrange(33, 33 + uint_len(m.id)) =~= uint_bytes(m.id));
    assert(b.skip(33 + uint_len(m.id)) =~= uint_bytes(m.seq));
}

/// On the wire an unpair message is a zero byte and the 32 bytes of the token.
pub proof fn law_unpair_layout(m: UnpairMessage)
    ensures
        unpair_bytes(m).len() == 33,
        unpair_bytes(m)[0] == 0,
        unpair_bytes(m).skip(1) == m.token@,
{
    assert(unpair_bytes(m).skip(1) =~= m.token@);
}

/// What is read as a pair message: 33 bytes and two integers, whatever they say. The side is in the
/// lowest bit of the first byte. What is read as an unpair message: any 33 bytes.
pub proof fn law_what_is_read(r: Seq<u8>)
    ensures
        parse_unpair(r) is Some <==> r.len() >= 33,
        parse_unpair(r) matches Some((_, n)) ==> n == 33,
        parse_pair(r) is Some <==> r.len() >= 33 && (parse_uint(r.skip(33)) matches Some((_, k))
            && parse_uint(r.skip(33 + k)) is Some),
        parse_pair(r) matches Some((m, n)) ==> {
            let (id, k) = parse_uint(r.skip(33))->0;
            let (seq, l) = parse_uint(r.skip(33 + k))->0;
            &&& m.is_initiator <==> r[0] % 2 == 1
            &&& m.id == id && m.seq == seq && n == 33 + k + l
        },
{
}

} // verus!
