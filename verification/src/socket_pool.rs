//! Rules of the sockets that NAT hole punching uses: what arrives on them, what is sent, and where
//! they are bound.

use vstd::prelude::*;
use vstd::string::StringExecFns;

use crate::ascii::{ascii_chars, digits, law_digits_spell_the_number, number_string};
use crate::hyperdht_messages::{FIREWALL_CONSISTENT, FIREWALL_OPEN};
use crate::outside::random_below;
use crate::messages::{
    addressable, decode_response, law_response_roundtrip, lemma_response_len, parse_response,
    response_bytes, ResponseModel, RESPONSE_TYPE,
};

verus! {

/// The only byte of a hole punching probe.
pub const HOLEPUNCH_BYTE: u8 = 0;

/// Time to live of a probe that is meant to die on the way.
pub const HOLEPUNCH_TTL: u32 = 5;

/// Time to live of everything else.
pub const DEFAULT_TTL: u32 = 64;

/// What an inbound datagram on a hole punching socket is.
#[derive(Debug, Clone, Copy, PartialEq, Eq, Structural)]
pub enum InboundClass {
    /// A hole punching probe.
    Holepunch,
    /// A frame of the stream transport.
    UdxFrame,
    /// A response of a DHT node.
    DhtResponse,
    /// Nothing of interest.
    Drop,
}

/// What an inbound datagram is.
pub open spec fn class_of(buf: Seq<u8>) -> InboundClass {
    if buf.len() <= 1 {
        InboundClass::Holepunch
    } else if buf.len() >= 20 && buf[0] == 0xff {
        InboundClass::UdxFrame
    } else if parse_response(buf) is Some {
        InboundClass::DhtResponse
    } else {
        InboundClass::Drop
    }
}

/// Classifies an inbound datagram on a hole punching socket.
pub fn classify_inbound(buf: &[u8]) -> (r: InboundClass)
    ensures
        r == class_of(buf@),
{
    if buf.len() <= 1 {
        return InboundClass::Holepunch;
    }
    if buf.len() >= 20 && buf[0] == 0xff {
        return InboundClass::UdxFrame;
    }
    match decode_response(buf) {
        Ok(_) => InboundClass::DhtResponse,
        Err(_) => InboundClass::Drop,
    }
}

/// Every encoded response classifies as one.
pub proof fn law_responses_reach_the_reply_lane(m: ResponseModel)
    requires
        addressable(m),
        m.closer_nodes.len() <= u64::MAX,
        m.value matches Some(v) ==> v.len() <= u64::MAX,
    ensures
        class_of(response_bytes(m)) == InboundClass::DhtResponse,
{
    law_response_roundtrip(m);
    lemma_response_len(m);
    assert(response_bytes(m)[0] == RESPONSE_TYPE);
}

/// Maps a firewall value to the punch strategy: an open peer is punched like a consistent one, and
/// every other value stays.
pub fn coerce_firewall(fw: u64) -> (r: u64)
    ensures
        r == (if fw == FIREWALL_OPEN { FIREWALL_CONSISTENT } else { fw }),
{
    if fw == FIREWALL_OPEN {
        FIREWALL_CONSISTENT
    } else {
        fw
    }
}

/// The lowest port that is probed at random.
pub const LOWEST_RANDOM_PORT: u16 = 1000;

/// How many ports are probed at random: all from the lowest up.
pub const RANDOM_PORTS: u64 = 64536;

/// The port that a draw below [`RANDOM_PORTS`] stands for.
pub fn port_of_draw(draw: u64) -> (r: u16)
    requires
        draw < RANDOM_PORTS,
    ensures
        r == LOWEST_RANDOM_PORT + draw,
{
    LOWEST_RANDOM_PORT + draw as u16
}

/// A random port to probe, none of the lowest thousand.
pub fn random_port() -> (r: u16)
    ensures
        r >= LOWEST_RANDOM_PORT,
{
    port_of_draw(random_below(RANDOM_PORTS))
}

/// Time to live of a probe.
pub fn holepunch_ttl(low_ttl: bool) -> (r: u32)
    ensures
        r == (if low_ttl { HOLEPUNCH_TTL } else { DEFAULT_TTL }),
{
    if low_ttl {
        HOLEPUNCH_TTL
    } else {
        DEFAULT_TTL
    }
}

/// The bytes of a probe.
pub fn holepunch_message() -> (r: Vec<u8>)
    ensures
        r@ == seq![HOLEPUNCH_BYTE],
{
    let mut r: Vec<u8> = Vec::new();
    r.push(HOLEPUNCH_BYTE);
    assert(r@ =~= seq![HOLEPUNCH_BYTE]);
    r
}

/// A host and a port as one text.
pub open spec fn socket_text(host: Seq<char>, port: u16) -> Seq<char> {
    host + ":"@ + ascii_chars(digits(port as nat))
}

/// Joins a host and a port with a colon.
pub fn socket_address(host: &str, port: u16) -> (r: String)
    ensures
        r@ == socket_text(host@, port),
{
    let number = number_string(port as u64);
    host.to_owned().concat(":").concat(number.as_str())
}

/// Hands out sockets that are bound on one host.
#[derive(Debug)]
pub struct SocketPool {
    /// The host to bind on.
    pub host: String,
}

impl SocketPool {
    /// A pool of sockets on this host.
    pub fn new(host: String) -> (r: Self)
        ensures
            r.host == host,
    {
        SocketPool { host }
    }

    /// Where a socket of the pool is bound: on any free port of the host.
    pub fn bind_address(&self) -> (r: String)
        ensures
            r@ == socket_text(self.host@, 0),
    {
        socket_address(self.host.as_str(), 0)
    }
}

/// What each datagram is: one of at most a byte is a probe. Of the longer ones, a frame has at least
/// twenty bytes and begins with 0xff, a response is one that can be read, and the rest is dropped.
pub proof fn law_datagrams_are_told_apart(buf: Seq<u8>)
    ensures
        class_of(buf) is Holepunch <==> buf.len() < 2,
        class_of(buf) is UdxFrame <==> buf.len() > 19 && buf[0] == 255,
        class_of(buf) is DhtResponse <==> buf.len() > 1 && parse_response(buf) is Some,
        class_of(buf) is Drop <==> buf.len() > 1 && parse_response(buf) is None && (buf.len() < 20
            || buf[0] != 255),
{
}

/// A host and a port as one text: the host as it is, a colon, and the decimal digits of the port.
pub proof fn law_socket_text_spells_host_and_port(host: Seq<char>, port: u16)
    ensures
        ({
            let t = socket_text(host, port);
            let n = host.len() as int;
            &&& t.len() > n + 1
            &&& t.take(n) == host
            &&& t[n] == ':'
            &&& t.skip(n + 1) == ascii_chars(digits(port as nat))
        }),
{
    reveal_strlit(":");
    law_digits_spell_the_number(port as nat);
    let t = socket_text(host, port);
    let n = host.len() as int;
    assert(t.take(n) =~= host);
    assert(t.skip(n + 1) =~= ascii_chars(digits(port as nat)));
}

} // verus!
