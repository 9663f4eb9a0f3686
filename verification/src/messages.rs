//! Messages of the DHT: peers, and the responses of nodes.

use vstd::prelude::*;

use crate::bytes::{key_of, lemma_key_bytes, lemma_key_of};
use crate::compact_encoding::net::{
    all_ipv4, decode_ipv4_address, decode_peer_array, encode_ipv4_address, encode_peer_array,
    ipv4_address_bytes, law_ipv4_address_roundtrip, law_peer_array_roundtrip, lemma_ipv4_of_len,
    lemma_peers_len, parse_ipv4_address, parse_peer_array, peer_array_bytes,
    preencode_peer_array,
};
use crate::compact_encoding::wire::{
    law_address_layout, law_bytes_hold_a_number, law_fixed_widths_are_read, law_uint_is_read,
};
use crate::compact_encoding::{
    counted, decode_buffer, decode_fixed32, decode_uint, decode_uint16, decode_uint8,
    encode_buffer, encode_fixed32, encode_uint, encode_uint16, encode_uint8,
    lemma_counted_roundtrip, lemma_filled, lemma_uint_len, lemma_uint_roundtrip, lemma_wrote_twice,
    parse_buffer, parse_uint, parse_uint16, preencode_buffer, preencode_uint, slice_view,
    uint_bytes, uint_len, vec_view, wrote, EncodingError, Result, State,
};
use crate::ip::{ipv4_of, ipv4_text};
use crate::le::{le_bytes, lemma_le_bytes_len, lemma_le_roundtrip, lemma_widths};

verus! {

/// An IPv4 address and port.
#[derive(Debug, Clone, PartialEq, Eq)]
pub struct Ipv4Peer {
    /// The address in dotted form.
    pub host: String,
    /// The port.
    pub port: u16,
}

impl View for Ipv4Peer {
    type V = (Seq<char>, u16);

    open spec fn view(&self) -> (Seq<char>, u16) {
        (self.host@, self.port)
    }
}

/// An IPv6 address and port.
#[derive(Debug, Clone, PartialEq, Eq)]
pub struct Ipv6Peer {
    /// The address in text form.
    pub host: String,
    /// The port.
    pub port: u16,
}

/// Views of a list of peers.
pub open spec fn peers_view(v: Seq<Ipv4Peer>) -> Seq<(Seq<char>, u16)> {
    v.map_values(|p: Ipv4Peer| p@)
}

/// First byte of a response.
pub const RESPONSE_TYPE: u8 = 0x13;

/// The answer of a node to a request.
#[derive(Debug)]
pub struct Response {
    /// Transaction id of the request.
    pub tid: u16,
    /// The address that the request came from, as the node sees it.
    pub to: Ipv4Peer,
    /// Id of the node.
    pub id: Option<[u8; 32]>,
    /// Token that a later request can present.
    pub token: Option<[u8; 32]>,
    /// Nodes closer to the target.
    pub closer_nodes: Vec<Ipv4Peer>,
    /// Error code, zero for none.
    pub error: u64,
    /// Value of the answer.
    pub value: Option<Vec<u8>>,
}

/// What a [`Response`] says.
#[verifier::ext_equal]
pub struct ResponseModel {
    /// See [`Response::tid`].
    pub tid: u16,
    /// See [`Response::to`].
    pub to: (Seq<char>, u16),
    /// See [`Response::id`].
    pub id: Option<[u8; 32]>,
    /// See [`Response::token`].
    pub token: Option<[u8; 32]>,
    /// See [`Response::closer_nodes`].
    pub closer_nodes: Seq<(Seq<char>, u16)>,
    /// See [`Response::error`].
    pub error: u64,
    /// See [`Response::value`].
    pub value: Option<Seq<u8>>,
}

impl View for Response {
    type V = ResponseModel;

    open spec fn view(&self) -> ResponseModel {
        ResponseModel {
            tid: self.tid,
            to: self.to@,
            id: self.id,
            token: self.token,
            closer_nodes: peers_view(self.closer_nodes@),
            error: self.error,
            value: vec_view(self.value),
        }
    }
}

/// Bit `1 << k` of the flags, for `k` up to four.
pub open spec fn flag(flags: u64, k: int) -> bool {
    if k == 0 {
        flags % 2 == 1
    } else if k == 1 {
        flags / 2 % 2 == 1
    } else if k == 2 {
        flags / 4 % 2 == 1
    } else if k == 3 {
        flags / 8 % 2 == 1
    } else {
        flags / 16 % 2 == 1
    }
}

/// Which parts of a response are there: id, token, closer nodes, error and value.
pub open spec fn response_flags(m: ResponseModel) -> u8 {
    ((if m.id is Some { 1int } else { 0 }) + (if m.token is Some { 2int } else { 0 }) + (if
    m.closer_nodes.len() > 0 { 4int } else { 0 }) + (if m.error > 0 { 8int } else { 0 }) + (if
    m.value is Some { 16int } else { 0 })) as u8
}

/// Wire form of an optional key.
pub open spec fn key_bytes(k: Option<[u8; 32]>) -> Seq<u8> {
    match k {
        Some(a) => a@,
        None => Seq::empty(),
    }
}

/// Wire form of the closer nodes, empty where there are none.
pub open spec fn closer_bytes(s: Seq<(Seq<char>, u16)>) -> Seq<u8> {
    if s.len() > 0 {
        peer_array_bytes(s)
    } else {
        Seq::empty()
    }
}

/// Wire form of the error code, empty where there is none.
pub open spec fn error_bytes(e: u64) -> Seq<u8> {
    if e > 0 {
        uint_bytes(e)
    } else {
        Seq::empty()
    }
}

/// Wire form of the value, empty where there is none.
pub open spec fn value_bytes(v: Option<Seq<u8>>) -> Seq<u8> {
    match v {
        Some(b) => counted(b),
        None => Seq::empty(),
    }
}

/// Type byte, flags, transaction id and address: what every response begins with.
pub open spec fn head_bytes(m: ResponseModel) -> Seq<u8> {
    seq![RESPONSE_TYPE] + seq![response_flags(m)] + le_bytes(m.tid as nat, 2) + ipv4_address_bytes(
        ipv4_of(m.to.0)->0,
        m.to.1,
    )
}

/// Wire form of a response.
pub open spec fn response_bytes(m: ResponseModel) -> Seq<u8> {
    head_bytes(m) + key_bytes(m.id) + key_bytes(m.token) + closer_bytes(m.closer_nodes)
        + error_bytes(m.error) + value_bytes(m.value)
}

/// Whether all addresses of the response are IPv4 addresses.
pub open spec fn addressable(m: ResponseModel) -> bool {
    ipv4_of(m.to.0) is Some && all_ipv4(m.closer_nodes)
}

/// An optional key at the front of `r`, and what follows it.
#[verifier::opaque]
pub open spec fn parse_key(present: bool, r: Seq<u8>) -> Option<(Option<[u8; 32]>, Seq<u8>)> {
    if !present {
        Some((None, r))
    } else if r.len() >= 32 {
        Some((Some(key_of(r.take(32))), r.skip(32)))
    } else {
        None
    }
}

/// An optional list of peers at the front of `r`, and what follows it.
#[verifier::opaque]
pub open spec fn parse_closer(present: bool, r: Seq<u8>) -> Option<
    (Seq<(Seq<char>, u16)>, Seq<u8>),
> {
    if !present {
        Some((Seq::empty(), r))
    } else {
        match parse_peer_array(r) {
            Some((s, n)) => Some((s, r.skip(n))),
            None => None,
        }
    }
}

/// An optional error code at the front of `r`, and what follows it.
#[verifier::opaque]
pub open spec fn parse_error(present: bool, r: Seq<u8>) -> Option<(u64, Seq<u8>)> {
    if !present {
        Some((0, r))
    } else {
        match parse_uint(r) {
            Some((e, n)) => Some((e, r.skip(n))),
            None => None,
        }
    }
}

/// An optional value at the front of `r`. An empty one counts as absent.
#[verifier::opaque]
pub open spec fn parse_value(present: bool, r: Seq<u8>) -> Option<Option<Seq<u8>>> {
    if !present {
        Some(None)
    } else {
        match parse_buffer(r) {
            Some((v, _)) => Some(v),
            None => None,
        }
    }
}

/// The part of a response behind the address.
#[verifier::opaque]
pub open spec fn parse_tail(flags: u64, tid: u16, to: (Seq<char>, u16), r: Seq<u8>) -> Option<
    ResponseModel,
> {
    match parse_key(flag(flags, 0), r) {
        None => None,
        Some((id, r)) => match parse_key(flag(flags, 1), r) {
            None => None,
            Some((token, r)) => match parse_closer(flag(flags, 2), r) {
                None => None,
                Some((closer_nodes, r)) => match parse_error(flag(flags, 3), r) {
                    None => None,
                    Some((error, r)) => match parse_value(flag(flags, 4), r) {
                        None => None,
                        Some(value) => Some(
                            ResponseModel { tid, to, id, token, closer_nodes, error, value },
                        ),
                    },
                },
            },
        },
    }
}

/// The response that `b` begins with.
pub open spec fn parse_response(b: Seq<u8>) -> Option<ResponseModel> {
    if b.len() == 0 || b[0] != RESPONSE_TYPE {
        None
    } else {
        let r = b.skip(1);
        match parse_uint(r) {
            None => None,
            Some((flags, n)) => {
                let r = r.skip(n);
                match parse_uint16(r) {
                    None => None,
                    Some((tid, n)) => {
                        let r = r.skip(n);
                        match parse_ipv4_address(r) {
                            None => None,
                            Some((to, n)) => parse_tail(flags, tid, to, r.skip(n)),
                        }
                    },
                }
            },
        }
    }
}

fn decode_key(state: &mut State, present: bool) -> (r: Result<Option<[u8; 32]>>)
    ensures
        match parse_key(present, old(state).rest()) {
            Some((k, rest)) => r == Ok::<Option<[u8; 32]>, EncodingError>(k) && final(state).rest()
                == rest,
            None => r == Err::<Option<[u8; 32]>, EncodingError>(EncodingError::OutOfBounds),
        },
{
    proof {
        reveal(parse_key);
    }
    if !present {
        return Ok(None);
    }
    match decode_fixed32(state) {
        Ok(k) => {
            proof {
                lemma_key_of(k);
            }
            Ok(Some(k))
        },
        Err(e) => Err(e),
    }
}

fn decode_closer(state: &mut State, present: bool) -> (r: Result<Vec<Ipv4Peer>>)
    ensures
        match parse_closer(present, old(state).rest()) {
            Some((s, rest)) => r matches Ok(v) && peers_view(v@) == s && final(state).rest() == rest,
            None => r == Err::<Vec<Ipv4Peer>, EncodingError>(EncodingError::OutOfBounds),
        },
{
    proof {
        reveal(parse_closer);
    }
    if !present {
        let none: Vec<Ipv4Peer> = Vec::new();
        assert(peers_view(none@) =~= Seq::empty());
        return Ok(none);
    }
    decode_peer_array(state)
}

fn decode_error(state: &mut State, present: bool) -> (r: Result<u64>)
    ensures
        match parse_error(present, old(state).rest()) {
            Some((e, rest)) => r == Ok::<u64, EncodingError>(e) && final(state).rest() == rest,
            None => r == Err::<u64, EncodingError>(EncodingError::OutOfBounds),
        },
{
    proof {
        reveal(parse_error);
    }
    if !present {
        return Ok(0);
    }
    decode_uint(state)
}

fn decode_value(state: &mut State, present: bool) -> (r: Result<Option<Vec<u8>>>)
    ensures
        match parse_value(present, old(state).rest()) {
            Some(v) => r matches Ok(x) && vec_view(x) == v,
            None => r == Err::<Option<Vec<u8>>, EncodingError>(EncodingError::OutOfBounds),
        },
{
    proof {
        reveal(parse_value);
    }
    if !present {
        return Ok(None);
    }
    decode_buffer(state)
}

fn decode_tail(state: &mut State, flags: u64, tid: u16, to: Ipv4Peer) -> (r: Result<Response>)
    ensures
        match parse_tail(flags, tid, to@, old(state).rest()) {
            Some(m) => r matches Ok(x) && x@ == m,
            None => r == Err::<Response, EncodingError>(EncodingError::OutOfBounds),
        },
{
    proof {
        reveal(parse_tail);
    }
    let id = match decode_key(state, flags % 2 == 1) {
        Ok(v) => v,
        Err(e) => {
            return Err(e);
        },
    };
    let token = match decode_key(state, flags / 2 % 2 == 1) {
        Ok(v) => v,
        Err(e) => {
            return Err(e);
        },
    };
    let closer_nodes = match decode_closer(state, flags / 4 % 2 == 1) {
        Ok(v) => v,
        Err(e) => {
            return Err(e);
        },
    };
    let error: u64 = match decode_error(state, flags / 8 % 2 == 1) {
        Ok(v) => v,
        Err(e) => {
            return Err(e);
        },
    };
    let value = match decode_value(state, flags / 16 % 2 == 1) {
        Ok(v) => v,
        Err(e) => {
            return Err(e);
        },
    };
    Ok(Response { tid, to, id, token, closer_nodes, error, value })
}

/// Decodes a response. Anything else, and a response that is cut off, is an error.
pub fn decode_response(buf: &[u8]) -> (r: Result<Response>)
    ensures
        match parse_response(buf@) {
            Some(m) => r matches Ok(x) && x@ == m,
            None => r == Err::<Response, EncodingError>(
                if buf@.len() > 0 && buf@[0] != RESPONSE_TYPE {
                    EncodingError::UnknownType
                } else {
                    EncodingError::OutOfBounds
                },
            ),
        },
{
    let mut state = State::from_buffer(buf);
    match decode_uint8(&mut state) {
        Ok(t) => {
            if t != RESPONSE_TYPE {
                return Err(EncodingError::UnknownType);
            }
        },
        Err(e) => {
            return Err(e);
        },
    }
    let flags: u64 = match decode_uint(&mut state) {
        Ok(v) => v,
        Err(e) => {
            return Err(e);
        },
    };
    let tid: u16 = match decode_uint16(&mut state) {
        Ok(v) => v,
        Err(e) => {
            return Err(e);
        },
    };
    match decode_ipv4_address(&mut state) {
        Ok((host, port)) => decode_tail(&mut state, flags, tid, Ipv4Peer { host, port }),
        Err(e) => Err(e),
    }
}

fn optional_slice(v: &Option<Vec<u8>>) -> (r: Option<&[u8]>)
    ensures
        slice_view(r) == vec_view(*v),
{
    match v {
        Some(b) => Some(b.as_slice()),
        None => None,
    }
}

/// Two pieces of a message in a row are one piece.
proof fn lemma_next(a: State, b: State, c: State, x: Seq<u8>, y: Seq<u8>)
    requires
        wrote(a, b, x),
        wrote(b, c, y),
        a.start + x.len() + y.len() <= a.buffer@.len(),
    ensures
        wrote(a, c, x + y),
{
    lemma_wrote_twice(a, b, c, x, y);
}

proof fn lemma_wrote_nothing(a: State)
    requires
        a.start <= a.buffer@.len(),
    ensures
        wrote(a, a, Seq::<u8>::empty()),
{
    assert(crate::le::splice(a.buffer@, a.start as int, Seq::<u8>::empty()) =~= a.buffer@);
}

fn encode_head(state: &mut State, flags: u8, tid: u16, to: &Ipv4Peer) -> (r: Result<()>)
    requires
        old(state).start + 10 <= old(state).buffer@.len(),
    ensures
        match ipv4_of(to.host@) {
            Some(o) => r == Ok::<(), EncodingError>(()) && wrote(
                *old(state),
                *final(state),
                seq![RESPONSE_TYPE] + seq![flags] + le_bytes(tid as nat, 2) + ipv4_address_bytes(
                    o,
                    to.port,
                ),
            ),
            None => r == Err::<(), EncodingError>(EncodingError::InvalidAddress),
        },
{
    proof {
        lemma_le_bytes_len(tid as nat, 2);
        lemma_le_bytes_len(to.port as nat, 2);
        lemma_ipv4_of_len(to.host@);
    }
    let ghost s0 = *state;
    encode_uint8(state, RESPONSE_TYPE);
    let ghost s1 = *state;
    encode_uint8(state, flags);
    let ghost s2 = *state;
    encode_uint16(state, tid);
    let ghost s3 = *state;
    proof {
        lemma_next(s0, s1, s2, seq![RESPONSE_TYPE], seq![flags]);
        lemma_next(s0, s2, s3, seq![RESPONSE_TYPE] + seq![flags], le_bytes(tid as nat, 2));
    }
    match encode_ipv4_address(state, to.host.as_str(), to.port) {
        Ok(_) => {
            proof {
                let o = ipv4_of(to.host@)->0;
                lemma_next(
                    s0,
                    s3,
                    *state,
                    seq![RESPONSE_TYPE] + seq![flags] + le_bytes(tid as nat, 2),
                    ipv4_address_bytes(o, to.port),
                );
            }
            Ok(())
        },
        Err(e) => Err(e),
    }
}

fn encode_key(state: &mut State, k: &Option<[u8; 32]>)
    requires
        old(state).start + key_bytes(*k).len() <= old(state).buffer@.len(),
    ensures
        wrote(*old(state), *final(state), key_bytes(*k)),
{
    match k {
        Some(a) => encode_fixed32(state, a),
        None => {
            proof {
                lemma_wrote_nothing(*state);
            }
        },
    }
}

fn encode_closer(state: &mut State, peers: &Vec<Ipv4Peer>) -> (r: Result<()>)
    requires
        old(state).start <= old(state).buffer@.len(),
        peers@.len() > 0 ==> old(state).start + uint_len(peers@.len() as u64) + 6 * peers@.len()
            <= old(state).buffer@.len(),
    ensures
        if all_ipv4(peers_view(peers@)) {
            r == Ok::<(), EncodingError>(()) && wrote(
                *old(state),
                *final(state),
                closer_bytes(peers_view(peers@)),
            )
        } else {
            r == Err::<(), EncodingError>(EncodingError::InvalidAddress)
        },
{
    if peers.len() > 0 {
        encode_peer_array(state, peers)
    } else {
        proof {
            lemma_wrote_nothing(*state);
        }
        Ok(())
    }
}

fn encode_error(state: &mut State, e: u64)
    requires
        old(state).start + error_bytes(e).len() <= old(state).buffer@.len(),
    ensures
        wrote(*old(state), *final(state), error_bytes(e)),
{
    proof {
        lemma_uint_len(e);
    }
    if e > 0 {
        encode_uint(state, e);
    } else {
        proof {
            lemma_wrote_nothing(*state);
        }
    }
}

fn encode_value(state: &mut State, v: &Option<Vec<u8>>)
    requires
        old(state).start + value_bytes(vec_view(*v)).len() <= old(state).buffer@.len(),
    ensures
        wrote(*old(state), *final(state), value_bytes(vec_view(*v))),
{
    if v.is_some() {
        encode_buffer(state, optional_slice(v));
    } else {
        proof {
            lemma_wrote_nothing(*state);
        }
    }
}

/// Length of the wire form of a response.
pub open spec fn response_len(m: ResponseModel) -> int {
    10 + key_bytes(m.id).len() + key_bytes(m.token).len() + (if m.closer_nodes.len() > 0 {
        uint_len(m.closer_nodes.len() as u64) + 6 * m.closer_nodes.len()
    } else {
        0
    }) + error_bytes(m.error).len() + value_bytes(m.value).len()
}

/// The wire form has the stated length.
pub proof fn lemma_response_len(m: ResponseModel)
    requires
        addressable(m),
    ensures
        response_bytes(m).len() == response_len(m),
        head_bytes(m).len() == 10,
        closer_bytes(m.closer_nodes).len() == (if m.closer_nodes.len() > 0 {
            uint_len(m.closer_nodes.len() as u64) + 6 * m.closer_nodes.len()
        } else {
            0
        }),
{
    lemma_le_bytes_len(m.tid as nat, 2);
    lemma_le_bytes_len(m.to.1 as nat, 2);
    lemma_ipv4_of_len(m.to.0);
    lemma_uint_len(m.closer_nodes.len() as u64);
    lemma_peers_len(m.closer_nodes);
}

fn preencode_response(m: &Response) -> (state: State)
    requires
        response_len(m@) <= usize::MAX,
    ensures
        state.start == 0,
        state.end == response_len(m@),
{
    proof {
        lemma_uint_len(m.error);
        if let Some(v) = &m.value {
            lemma_uint_len(v@.len() as u64);
        }
    }
    let mut state = State::new();
    state.end = 10;
    if m.id.is_some() {
        state.end += 32;
    }
    if m.token.is_some() {
        state.end += 32;
    }
    if m.closer_nodes.len() > 0 {
        preencode_peer_array(&mut state, &m.closer_nodes);
    }
    if m.error > 0 {
        preencode_uint(&mut state, m.error);
    }
    if m.value.is_some() {
        preencode_buffer(&mut state, optional_slice(&m.value));
    }
    state
}

fn flags_of(m: &Response) -> (flags: u8)
    ensures
        flags == response_flags(m@),
{
    let mut flags: u8 = 0;
    if m.id.is_some() {
        flags += 1;
    }
    if m.token.is_some() {
        flags += 2;
    }
    if m.closer_nodes.len() > 0 {
        flags += 4;
    }
    if m.error > 0 {
        flags += 8;
    }
    if m.value.is_some() {
        flags += 16;
    }
    flags
}

/// Encodes a response to bytes. An address that is not an IPv4 address is an error.
pub fn encode_response_to_bytes(m: &Response) -> (r: Result<Vec<u8>>)
    requires
        response_len(m@) <= usize::MAX,
    ensures
        if addressable(m@) {
            r matches Ok(b) && b@ == response_bytes(m@)
        } else {
            r == Err::<Vec<u8>, EncodingError>(EncodingError::InvalidAddress)
        },
{
    let ghost w = m@;
    proof {
        if addressable(w) {
            lemma_response_len(w);
        }
        lemma_uint_len(w.closer_nodes.len() as u64);
    }
    let mut state = preencode_response(m);
    state.allocate();
    let ghost s0 = state;
    match encode_head(&mut state, flags_of(m), m.tid, &m.to) {
        Ok(_) => {},
        Err(e) => {
            return Err(e);
        },
    }
    let ghost s1 = state;
    let ghost x1 = head_bytes(w);
    assert(x1.len() == 10) by {
        lemma_le_bytes_len(w.tid as nat, 2);
        lemma_le_bytes_len(w.to.1 as nat, 2);
        lemma_ipv4_of_len(w.to.0);
    }
    encode_key(&mut state, &m.id);
    let ghost s2 = state;
    let ghost x2 = x1 + key_bytes(w.id);
    proof {
        lemma_next(s0, s1, s2, x1, key_bytes(w.id));
    }
    encode_key(&mut state, &m.token);
    let ghost s3 = state;
    let ghost x3 = x2 + key_bytes(w.token);
    proof {
        lemma_next(s0, s2, s3, x2, key_bytes(w.token));
    }
    match encode_closer(&mut state, &m.closer_nodes) {
        Ok(_) => {},
        Err(e) => {
            return Err(e);
        },
    }
    let ghost s4 = state;
    let ghost x4 = x3 + closer_bytes(w.closer_nodes);
    proof {
        assert(addressable(w));
        lemma_next(s0, s3, s4, x3, closer_bytes(w.closer_nodes));
    }
    encode_error(&mut state, m.error);
    let ghost s5 = state;
    let ghost x5 = x4 + error_bytes(w.error);
    proof {
        lemma_next(s0, s4, s5, x4, error_bytes(w.error));
    }
    encode_value(&mut state, &m.value);
    proof {
        lemma_next(s0, s5, state, x5, value_bytes(w.value));
        lemma_filled(s0, state, response_bytes(w));
    }
    Ok(state.buffer)
}

/// A response that was written is read back. An empty value reads back as none.
pub proof fn law_response_roundtrip(m: ResponseModel)
    requires
        addressable(m),
        m.closer_nodes.len() <= u64::MAX,
        m.value matches Some(v) ==> v.len() <= u64::MAX,
    ensures
        parse_response(response_bytes(m)) == Some(
            ResponseModel {
                value: match m.value {
                    Some(v) => if v.len() == 0 {
                        None
                    } else {
                        Some(v)
                    },
                    None => None,
                },
                ..m
            },
        ),
{
    let b = response_bytes(m);
    let f = response_flags(m);
    let flags = f as u64;
    let o = ipv4_of(m.to.0)->0;
    lemma_ipv4_of_len(m.to.0);
    lemma_le_bytes_len(m.tid as nat, 2);
    lemma_widths();
    lemma_le_roundtrip(m.tid as nat, 2);
    let t1 = tail_bytes(m);
    let addr = ipv4_address_bytes(o, m.to.1);
    law_ipv4_address_roundtrip(o, m.to.1, t1);
    lemma_regroup(
        head_bytes(m),
        key_bytes(m.id),
        key_bytes(m.token),
        closer_bytes(m.closer_nodes),
        error_bytes(m.error),
        value_bytes(m.value),
    );
    lemma_head_parts(RESPONSE_TYPE, f, le_bytes(m.tid as nat, 2), addr, t1);
    assert(f <= 31);
    let r1 = b.skip(1);
    assert(parse_uint(r1) == Some((flags, 1int)));
    let r2 = r1.skip(1);
    assert(parse_uint16(r2) == Some((m.tid, 2int)));
    let r3 = r2.skip(2);
    assert(parse_ipv4_address(r3) == Some((m.to, 6int)));
    lemma_tail_roundtrip(m);
}

proof fn lemma_regroup(
    h: Seq<u8>,
    a: Seq<u8>,
    b: Seq<u8>,
    c: Seq<u8>,
    d: Seq<u8>,
    e: Seq<u8>,
)
    ensures
        h + a + b + c + d + e == h + (a + (b + (c + (d + e)))),
{
    assert(h + a + b + c + d + e =~= h + (a + (b + (c + (d + e)))));
}

proof fn lemma_head_parts(t: u8, f: u8, le: Seq<u8>, addr: Seq<u8>, tail: Seq<u8>)
    requires
        le.len() == 2,
        addr.len() == 6,
    ensures
        ({
            let b = seq![t] + seq![f] + le + addr + tail;
            let r2 = b.skip(1).skip(1);
            &&& b.len() > 1
            &&& b[0] == t
            &&& b.skip(1)[0] == f
            &&& r2.len() >= 2
            &&& r2.take(2) == le
            &&& r2.skip(2) == addr + tail
            &&& (addr + tail).skip(6) == tail
        }),
{
    let b = seq![t] + seq![f] + le + addr + tail;
    let r2 = b.skip(1).skip(1);
    assert(r2.take(2) =~= le);
    assert(r2.skip(2) =~= addr + tail);
    assert((addr + tail).skip(6) =~= tail);
}

spec fn tail_bytes(m: ResponseModel) -> Seq<u8> {
    key_bytes(m.id) + (key_bytes(m.token) + (closer_bytes(m.closer_nodes) + (error_bytes(m.error)
        + value_bytes(m.value))))
}

spec fn without_empty_value(m: ResponseModel) -> ResponseModel {
    ResponseModel {
        value: match m.value {
            Some(v) => if v.len() == 0 {
                None
            } else {
                Some(v)
            },
            None => None,
        },
        ..m
    }
}

proof fn lemma_tail_roundtrip(m: ResponseModel)
    requires
        addressable(m),
        m.closer_nodes.len() <= u64::MAX,
        m.value matches Some(v) ==> v.len() <= u64::MAX,
    ensures
        parse_tail(response_flags(m) as u64, m.tid, m.to, tail_bytes(m)) == Some(
            without_empty_value(m),
        ),
{
    reveal(parse_tail);
    lemma_flags(m);
    let t5 = value_bytes(m.value);
    let t4 = error_bytes(m.error) + t5;
    let t3 = closer_bytes(m.closer_nodes) + t4;
    let t2 = key_bytes(m.token) + t3;
    lemma_key_roundtrip(m.id, t2);
    lemma_key_roundtrip(m.token, t3);
    lemma_closer_roundtrip(m.closer_nodes, t4);
    lemma_error_roundtrip(m.error, t5);
    lemma_value_roundtrip(m.value);
}

proof fn lemma_flags(m: ResponseModel)
    ensures
        flag(response_flags(m) as u64, 0) == (m.id is Some),
        flag(response_flags(m) as u64, 1) == (m.token is Some),
        flag(response_flags(m) as u64, 2) == (m.closer_nodes.len() > 0),
        flag(response_flags(m) as u64, 3) == (m.error > 0),
        flag(response_flags(m) as u64, 4) == (m.value is Some),
{
}

proof fn lemma_closer_roundtrip(s: Seq<(Seq<char>, u16)>, tail: Seq<u8>)
    requires
        all_ipv4(s),
        s.len() <= u64::MAX,
    ensures
        parse_closer(s.len() > 0, closer_bytes(s) + tail) == Some((s, tail)),
{
    reveal(parse_closer);
    if s.len() > 0 {
        law_peer_array_roundtrip(s, tail);
        assert((peer_array_bytes(s) + tail).skip(peer_array_bytes(s).len() as int) =~= tail);
    } else {
        assert(s =~= Seq::empty());
        assert(closer_bytes(s) + tail =~= tail);
    }
}

proof fn lemma_error_roundtrip(e: u64, tail: Seq<u8>)
    ensures
        parse_error(e > 0, error_bytes(e) + tail) == Some((e, tail)),
{
    reveal(parse_error);
    if e > 0 {
        lemma_uint_roundtrip(e, tail);
    } else {
        assert(error_bytes(e) + tail =~= tail);
    }
}

proof fn lemma_value_roundtrip(v: Option<Seq<u8>>)
    requires
        v matches Some(b) ==> b.len() <= u64::MAX,
    ensures
        parse_value(v is Some, value_bytes(v)) == Some(
            match v {
                Some(b) => if b.len() == 0 {
                    None
                } else {
                    Some(b)
                },
                None => None,
            },
        ),
{
    reveal(parse_value);
    if let Some(b) = v {
        lemma_counted_roundtrip(b, Seq::empty());
        assert(counted(b) + Seq::<u8>::empty() =~= counted(b));
    }
}

proof fn lemma_key_roundtrip(k: Option<[u8; 32]>, tail: Seq<u8>)
    ensures
        parse_key(k is Some, key_bytes(k) + tail) == Some((k, tail)),
{
    reveal(parse_key);
    match k {
        Some(a) => {
            lemma_key_of(a);
            assert((a@ + tail).take(32) =~= a@);
            assert((a@ + tail).skip(32) =~= tail);
        },
        None => {
            assert(key_bytes(k) + tail =~= tail);
        },
    }
}

/// The bits of the flags say which parts a response has.
pub proof fn law_flags_name_the_parts(m: ResponseModel)
    ensures
        ({
            let f = response_flags(m) as int;
            &&& f < 32
            &&& f % 2 == 1 <==> m.id is Some
            &&& f / 2 % 2 == 1 <==> m.token is Some
            &&& f / 4 % 2 == 1 <==> m.closer_nodes.len() > 0
            &&& f / 8 % 2 == 1 <==> m.error != 0
            &&& f / 16 % 2 == 1 <==> m.value is Some
        }),
{
}

/// On the wire a response is a type byte, the flags, the transaction id with the low byte first and
/// an address. Behind these ten bytes stand the parts that it has: id, token, closer nodes, error
/// and value.
pub proof fn law_response_layout(m: ResponseModel)
    requires
        addressable(m),
    ensures
        ({
            let b = response_bytes(m);
            let o = ipv4_of(m.to.0)->0;
            let i = 10 + (if m.id is Some {
                32int
            } else {
                0
            });
            let j = i + (if m.token is Some {
                32int
            } else {
                0
            });
            &&& b.len() >= j
            &&& b[0] == 0x13 && b[1] == response_flags(m)
            &&& b[2] + 0x100 * b[3] == m.tid
            &&& b.subrange(4, 8) == o
            &&& b[8] + 0x100 * b[9] == m.to.1
            &&& m.id matches Some(k) ==> b.subrange(10, 42) == k@
            &&& m.token matches Some(k) ==> b.subrange(i, i + 32) == k@
            &&& b.skip(j) == (if m.closer_nodes.len() > 0 {
                peer_array_bytes(m.closer_nodes)
            } else {
                Seq::empty()
            }) + (if m.error != 0 {
                uint_bytes(m.error)
            } else {
                Seq::empty()
            }) + (match m.value {
                Some(v) => uint_bytes(v.len() as u64) + v,
                None => Seq::empty(),
            })
        }),
{
    let b = response_bytes(m);
    let o = ipv4_of(m.to.0)->0;
    lemma_ipv4_of_len(m.to.0);
    lemma_le_bytes_len(m.tid as nat, 2);
    lemma_widths();
    lemma_le_roundtrip(m.tid as nat, 2);
    law_bytes_hold_a_number(le_bytes(m.tid as nat, 2));
    law_address_layout(o, m.to.1, Seq::empty());
    let a = ipv4_address_bytes(o, m.to.1);
    let h = head_bytes(m);
    assert(h.len() == 10);
    assert(b.take(10) =~= h);
    assert(h[2] == le_bytes(m.tid as nat, 2)[0] && h[3] == le_bytes(m.tid as nat, 2)[1]);
    assert(h.skip(4) =~= a);
    assert(b.subrange(4, 8) =~= a.take(4));
    assert(b[8] == a[4] && b[9] == a[5]);
    let i = 10 + key_bytes(m.id).len() as int;
    let j = i + key_bytes(m.token).len() as int;
    if let Some(k) = m.id {
        assert(b.subrange(10, 42) =~= k@);
    }
    if let Some(k) = m.token {
        assert(b.subrange(i, i + 32) =~= k@);
    }
    assert(b.skip(j) =~= closer_bytes(m.closer_nodes) + error_bytes(m.error) + value_bytes(
        m.value,
    ));
}

/// What is read of a response: it begins with the type byte. The flags behind it say which parts
/// are there, and a part that is not there is absent, empty or zero. The transaction id and the
/// address stand behind the flags, then come the id and the token.
pub proof fn law_parts_follow_the_flags(b: Seq<u8>)
    ensures
        parse_response(b) matches Some(m) ==> {
            &&& b[0] == 0x13
            &&& parse_uint(b.skip(1)) matches Some((f, n)) && {
                let at = 1 + n;
                let i = at + 8;
                let j = i + (if m.id is Some {
                    32int
                } else {
                    0
                });
                &&& b.len() >= i
                &&& m.tid == b[at] + 0x100 * b[at + 1]
                &&& m.to.0 == ipv4_text(b.subrange(at + 2, at + 6))
                &&& m.to.1 == b[at + 6] + 0x100 * b[at + 7]
                &&& m.id is Some <==> f % 2 == 1
                &&& m.token is Some <==> f / 2 % 2 == 1
                &&& m.id matches Some(k) ==> b.len() >= i + 32 && k@ == b.subrange(i, i + 32)
                &&& m.token matches Some(k) ==> b.len() >= j + 32 && k@ == b.subrange(j, j + 32)
                &&& f / 4 % 2 == 0 ==> m.closer_nodes.len() == 0
                &&& f / 8 % 2 == 0 ==> m.error == 0
                &&& f / 16 % 2 == 0 ==> m.value is None
                &&& m.value matches Some(v) ==> v.len() > 0
            }
        },
{
    reveal(parse_tail);
    reveal(parse_key);
    reveal(parse_closer);
    reveal(parse_error);
    reveal(parse_value);
    if let Some(m) = parse_response(b) {
        law_uint_is_read(b.skip(1));
        let (f, n) = parse_uint(b.skip(1))->0;
        let r2 = b.skip(1).skip(n);
        let at = 1 + n;
        assert(r2 =~= b.skip(at));
        law_fixed_widths_are_read(r2);
        let r3 = r2.skip(2);
        assert(r3 =~= b.skip(at + 2));
        law_address_layout(seq![0u8, 0, 0, 0], 0, r3);
        assert(r3.take(4) =~= b.subrange(at + 2, at + 6));
        let r4 = r3.skip(6);
        let i = at + 8;
        assert(r4 =~= b.skip(i));
        if f % 2 == 1 {
            lemma_key_bytes(r4.take(32));
            assert(r4.take(32) =~= b.subrange(i, i + 32));
        }
        let j = i + (if m.id is Some {
            32int
        } else {
            0
        });
        let r5 = if f % 2 == 1 {
            r4.skip(32)
        } else {
            r4
        };
        assert(r5 =~= b.skip(j));
        if f / 2 % 2 == 1 {
            lemma_key_bytes(r5.take(32));
            assert(r5.take(32) =~= b.subrange(j, j + 32));
        }
    }
}

/// A response without parts is read wherever its head is there, whatever else the flags hold.
pub proof fn law_head_is_enough(b: Seq<u8>)
    requires
        b.len() > 0,
        b[0] == 0x13,
        parse_uint(b.skip(1)) is Some,
        ({
            let (f, n) = parse_uint(b.skip(1))->0;
            &&& f % 32 == 0
            &&& b.len() >= n + 9
        }),
    ensures
        parse_response(b) is Some,
{
    reveal(parse_tail);
    reveal(parse_key);
    reveal(parse_closer);
    reveal(parse_error);
    reveal(parse_value);
    law_uint_is_read(b.skip(1));
    let (f, n) = parse_uint(b.skip(1))->0;
    let r2 = b.skip(1).skip(n);
    law_fixed_widths_are_read(r2);
    law_address_layout(seq![0u8, 0, 0, 0], 0, r2.skip(2));
}

/// What a list of peers says: the host and the port of each, in order.
pub proof fn law_peers_say_host_and_port(v: Seq<Ipv4Peer>)
    ensures
        peers_view(v).len() == v.len(),
        forall|i: int|
            0 <= i < v.len() ==> #[trigger] peers_view(v)[i] == (v[i].host@, v[i].port),
{
}

/// What a response says is what its fields hold.
pub proof fn law_response_says_its_fields(r: Response)
    ensures
        r@.tid == r.tid,
        r@.to == (r.to.host@, r.to.port),
        r@.id == r.id,
        r@.token == r.token,
        r@.closer_nodes == peers_view(r.closer_nodes@),
        r@.error == r.error,
        r@.value is Some <==> r.value is Some,
        r.value matches Some(v) ==> r@.value == Some(v@),
{
}

} // verus!
