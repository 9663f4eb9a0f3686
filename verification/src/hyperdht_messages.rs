//! Values of the HyperDHT handshake and holepunch messages.

use vstd::prelude::*;

use crate::messages::{Ipv4Peer, Ipv6Peer};

verus! {

/// Nothing is known about the NAT yet.
pub const FIREWALL_UNKNOWN: u64 = 0;

/// Not behind a NAT.
pub const FIREWALL_OPEN: u64 = 1;

/// Behind a NAT that keeps one outer port per socket.
pub const FIREWALL_CONSISTENT: u64 = 2;

/// Behind a NAT that picks a new outer port per destination.
pub const FIREWALL_RANDOM: u64 = 3;

/// A message that comes from the client itself.
pub const MODE_FROM_CLIENT: u64 = 0;

/// A message that comes from the server itself.
pub const MODE_FROM_SERVER: u64 = 1;

/// A message that a node passed on for the client.
pub const MODE_FROM_RELAY: u64 = 2;

/// A message that a second node passed on for the client.
pub const MODE_FROM_SECOND_RELAY: u64 = 3;

/// A direct reply.
pub const MODE_REPLY: u64 = 4;

/// No error.
pub const ERROR_NONE: u64 = 0;

/// The stream transport of a peer.
#[derive(Debug, Clone, Copy)]
pub struct UdxInfo {
    /// Version of the transport.
    pub version: u64,
    /// Whether the socket of the handshake can be used.
    pub reusable_socket: bool,
    /// Stream id.
    pub id: u64,
    /// Sequence number.
    pub seq: u64,
}

/// The encryption of a peer's stream.
#[derive(Debug, Clone, Copy)]
pub struct SecretStreamInfo {
    /// Version of the encryption.
    pub version: u64,
}

/// A relay that the other side has to go through.
#[derive(Debug, Clone, Copy)]
pub struct RelayThroughInfo {
    /// Version of the relay protocol.
    pub version: u64,
    /// Public key of the relay.
    pub public_key: [u8; 32],
    /// Token of the pairing.
    pub token: [u8; 32],
}

/// A node through which a holepunch can be arranged.
#[derive(Debug)]
pub struct RelayInfo {
    /// Address of the node.
    pub relay_address: Ipv4Peer,
    /// Address of the peer as the node sees it.
    pub peer_address: Ipv4Peer,
}

/// A holepunch session that was prepared.
#[derive(Debug)]
pub struct HolepunchInfo {
    /// Id of the session.
    pub id: u64,
    /// Nodes through which it can be arranged.
    pub relays: Vec<RelayInfo>,
}

/// The encrypted part of a handshake.
#[derive(Debug)]
pub struct NoisePayload {
    /// Version of the handshake.
    pub version: u64,
    /// Error code.
    pub error: u64,
    /// Firewall value of the sender.
    pub firewall: u64,
    /// Holepunch session that the sender prepared.
    pub holepunch: Option<HolepunchInfo>,
    /// IPv4 addresses of the sender.
    pub addresses4: Vec<Ipv4Peer>,
    /// IPv6 addresses of the sender.
    pub addresses6: Vec<Ipv6Peer>,
    /// Stream transport of the sender.
    pub udx: Option<UdxInfo>,
    /// Encryption of the sender's stream.
    pub secret_stream: Option<SecretStreamInfo>,
    /// Relay to go through.
    pub relay_through: Option<RelayThroughInfo>,
    /// Addresses of that relay.
    pub relay_addresses: Option<Vec<Ipv4Peer>>,
}

/// A handshake message.
#[derive(Debug)]
pub struct HandshakeMessage {
    /// How it is routed.
    pub mode: u64,
    /// Its encrypted part.
    pub noise: Vec<u8>,
    /// Address of the peer, where a node passes the message on.
    pub peer_address: Option<Ipv4Peer>,
    /// Address of the node that passes the message on.
    pub relay_address: Option<Ipv4Peer>,
}

/// A holepunch message.
#[derive(Debug)]
pub struct HolepunchMessage {
    /// How it is routed.
    pub mode: u64,
    /// Id of the holepunch session.
    pub id: u64,
    /// Its encrypted part.
    pub payload: Vec<u8>,
    /// Address of the peer.
    pub peer_address: Option<Ipv4Peer>,
}

/// What the encrypted part of a dialling peer's handshake says, as far as the answer depends on
/// it.
#[derive(Debug, Clone, Copy)]
pub struct RemotePayload {
    /// Error code.
    pub error: u64,
    /// Firewall value of the peer.
    pub firewall: u64,
    /// How the peer's stream is reached.
    pub udx: Option<UdxInfo>,
}

/// The encrypted part of a holepunch message.
#[derive(Debug)]
pub struct HolepunchPayload {
    /// Error code.
    pub error: u64,
    /// Firewall value of the sender.
    pub firewall: u64,
    /// Number of the round.
    pub round: u64,
    /// Whether the sender is connected.
    pub connected: bool,
    /// Whether the sender is punching.
    pub punching: bool,
    /// Addresses at which the sender can be punched.
    pub addresses: Option<Vec<Ipv4Peer>>,
    /// Address of the receiver as the sender sees it.
    pub remote_address: Option<Ipv4Peer>,
    /// Token of the sender for the receiver's host.
    pub token: Option<[u8; 32]>,
    /// Token that the receiver sent.
    pub remote_token: Option<[u8; 32]>,
}

/// How an answer to a handshake or holepunch message is routed.
pub open spec fn reply_mode_of(mode: u64) -> u64 {
    if mode == MODE_FROM_RELAY || mode == MODE_FROM_SECOND_RELAY {
        MODE_FROM_SERVER
    } else {
        MODE_REPLY
    }
}

/// Picks the routing of an answer: messages that were passed on are answered as a server, through
/// the node that passed them on; all others get a direct reply.
pub fn reply_mode(mode: u64) -> (r: u64)
    ensures
        r == reply_mode_of(mode),
{
    if mode == MODE_FROM_RELAY || mode == MODE_FROM_SECOND_RELAY {
        MODE_FROM_SERVER
    } else {
        MODE_REPLY
    }
}

/// The answer to a handshake message of this mode.
pub open spec fn reply_of(mode: u64, noise: Vec<u8>, peer_address: Option<Ipv4Peer>) -> HandshakeMessage {
    HandshakeMessage {
        mode: reply_mode_of(mode),
        noise,
        peer_address: if reply_mode_of(mode) == MODE_FROM_SERVER {
            peer_address
        } else {
            None
        },
        relay_address: None,
    }
}

/// Frames the answer to a handshake message of this mode.
pub fn handshake_reply(mode: u64, noise: Vec<u8>, peer_address: Option<Ipv4Peer>) -> (r:
    HandshakeMessage)
    ensures
        r == reply_of(mode, noise, peer_address),
{
    HandshakeMessage {
        mode: reply_mode(mode),
        noise,
        peer_address: reply_peer_address(mode, peer_address),
        relay_address: None,
    }
}

/// The client's address that an answer to a handshake carries: the one that came with a message
/// that was passed on, and none in a direct reply.
pub fn reply_peer_address(mode: u64, peer_address: Option<Ipv4Peer>) -> (r: Option<Ipv4Peer>)
    ensures
        r == (if reply_mode_of(mode) == MODE_FROM_SERVER { peer_address } else { None }),
{
    if mode == MODE_FROM_RELAY || mode == MODE_FROM_SECOND_RELAY {
        peer_address
    } else {
        None
    }
}

/// The stream transport that a server announces for a new stream.
pub open spec fn udx_info_of(local_stream_id: u32) -> UdxInfo {
    UdxInfo { version: 1, reusable_socket: true, id: local_stream_id as u64, seq: 0 }
}

/// Stream ids are 32 bits wide on the wire and 64 bits in messages: gives the narrow id where it
/// fits.
pub fn narrow_id(id: u64) -> (r: Option<u32>)
    ensures
        r == (if id <= u32::MAX { Some(id as u32) } else { None::<u32> }),
{
    if id <= 0xffff_ffff {
        Some(id as u32)
    } else {
        None
    }
}

/// Hands out stream ids one after the other, starting at one and wrapping around.
#[derive(Debug)]
pub struct StreamIds {
    next: u32,
}

impl StreamIds {
    /// The id that is handed out next.
    pub closed spec fn upcoming(&self) -> u32 {
        self.next
    }

    /// A fresh supply of ids.
    pub fn new() -> (r: Self)
        ensures
            r.upcoming() == 1,
    {
        StreamIds { next: 1 }
    }

    /// Takes the next id.
    pub fn take(&mut self) -> (r: u32)
        ensures
            r == old(self).upcoming(),
            final(self).upcoming() == (if old(self).upcoming() == u32::MAX {
                0
            } else {
                old(self).upcoming() + 1
            }),
    {
        let id: u32 = self.next;
        self.next = id.wrapping_add(1);
        id
    }
}

/// A message that a relay passed on, the first or the second, is answered as a server, with the
/// client's address for the relay to pass the answer on to. Every other is answered directly and
/// without an address. The noise message stays as it is.
pub proof fn law_answers_go_back_the_way_they_came(
    mode: u64,
    noise: Vec<u8>,
    peer_address: Option<Ipv4Peer>,
)
    ensures
        ({
            let r = reply_of(mode, noise, peer_address);
            let passed_on = mode == 2 || mode == 3;
            &&& reply_mode_of(mode) == r.mode
            &&& r.mode == if passed_on {
                1u64
            } else {
                4
            }
            &&& passed_on ==> r.peer_address == peer_address
            &&& !passed_on ==> r.peer_address is None
            &&& r.noise == noise && r.relay_address is None
        }),
{
}

/// A new stream is announced under its own id, from the start, on a socket that is shared.
pub proof fn law_streams_are_announced_by_id(local_stream_id: u32)
    ensures
        udx_info_of(local_stream_id).id == local_stream_id,
        udx_info_of(local_stream_id).seq == 0,
        udx_info_of(local_stream_id).version == 1,
        udx_info_of(local_stream_id).reusable_socket,
{
}

} // verus!
