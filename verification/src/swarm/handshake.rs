//! How a swarm answers the handshake of a peer that dials it.

use vstd::prelude::*;

use super::state::{Admission, SwarmModel, SwarmState};
use crate::blind_relay::client::{sends, BlindRelayClient, ChannelCommand, PairStep, RelayError};
use crate::blind_relay::codec::{pair_bytes, PairMessage, MSG_TYPE_PAIR};
use crate::hyperdht_messages::{
    handshake_reply, narrow_id, reply_of, udx_info_of, HandshakeMessage, HolepunchInfo,
    NoisePayload, RelayInfo, RelayThroughInfo, RemotePayload, SecretStreamInfo, StreamIds, UdxInfo,
    FIREWALL_CONSISTENT, FIREWALL_RANDOM, FIREWALL_UNKNOWN,
};
use crate::messages::{peers_view, Ipv4Peer};
use crate::outside::random_token;

verus! {

/// Time that a prepared holepunch is waited for, in milliseconds.
pub const HOLEPUNCH_TIMEOUT_MS: u64 = 10_000;

/// Time that a connection to a relay is waited for, in milliseconds.
pub const RELAY_CONNECT_TIMEOUT_MS: u64 = 15_000;

/// What the client is told of a relay, given the token of the pairing.
pub open spec fn through(relay: Option<[u8; 32]>, token: [u8; 32]) -> Option<RelayThroughInfo> {
    match relay {
        Some(public_key) => Some(RelayThroughInfo { version: 1, public_key, token }),
        None => None,
    }
}

/// What the client is told of a relay, given the token of the pairing.
pub fn relay_through_with(relay: Option<[u8; 32]>, token: [u8; 32]) -> (r: Option<RelayThroughInfo>)
    ensures
        r == through(relay, token),
{
    match relay {
        Some(public_key) => Some(RelayThroughInfo { version: 1, public_key, token }),
        None => None,
    }
}

/// Whether a holepunch is prepared: only where the own NAT is known to be in the way, and no relay
/// is gone through. `firewall_state` is nothing where it could not be found out.
pub open spec fn punch_wanted(firewall_state: Option<u64>, relayed: bool) -> bool {
    !relayed && (firewall_state == Some(FIREWALL_CONSISTENT) || firewall_state == Some(
        FIREWALL_RANDOM,
    ))
}

/// Decides whether a holepunch is prepared.
pub fn attempts_holepunch(firewall_state: Option<u64>, relayed: bool) -> (r: bool)
    ensures
        r == punch_wanted(firewall_state, relayed),
{
    let state: u64 = match firewall_state {
        Some(s) => s,
        None => FIREWALL_UNKNOWN,
    };
    (state == FIREWALL_CONSISTENT || state == FIREWALL_RANDOM) && !relayed
}

/// Views of a list of holepunch relays: the relay and the peer as it sees it.
pub open spec fn relays_view(v: Seq<RelayInfo>) -> Seq<((Seq<char>, u16), (Seq<char>, u16))> {
    v.map_values(|r: RelayInfo| (r.relay_address@, r.peer_address@))
}

/// What the client is told of a prepared holepunch: its id, and the nodes through which it can be
/// arranged, each with the client's address.
pub fn holepunch_info(id: u64, relays: &Vec<Ipv4Peer>, client: &Ipv4Peer) -> (r: HolepunchInfo)
    ensures
        r.id == id,
        relays_view(r.relays@) == peers_view(relays@).map_values(
            |a: (Seq<char>, u16)| (a, client@),
        ),
{
    let ghost f = |a: (Seq<char>, u16)| (a, client@);
    let mut out: Vec<RelayInfo> = Vec::new();
    let mut i: usize = 0;
    assert(relays_view(out@) =~= peers_view(relays@).take(0).map_values(f));
    while i < relays.len()
        invariant
            i <= relays@.len(),
            f == (|a: (Seq<char>, u16)| (a, client@)),
            relays_view(out@) == peers_view(relays@).take(i as int).map_values(f),
        decreases relays@.len() - i,
    {
        let ghost before = out@;
        let info = RelayInfo {
            relay_address: Ipv4Peer { host: relays[i].host.clone(), port: relays[i].port },
            peer_address: Ipv4Peer { host: client.host.clone(), port: client.port },
        };
        let ghost pair = (info.relay_address@, info.peer_address@);
        out.push(info);
        proof {
            assert(relays_view(out@) =~= relays_view(before).push(pair));
            assert(peers_view(relays@).take(i + 1).map_values(f) =~= peers_view(relays@).take(
                i as int,
            ).map_values(f).push(pair));
        }
        i += 1;
    }
    assert(peers_view(relays@).take(relays@.len() as int) =~= peers_view(relays@));
    HolepunchInfo { id, relays: out }
}

/// What the swarm says of itself in the answer to a handshake.
pub fn server_payload(
    firewall: u64,
    holepunch: Option<HolepunchInfo>,
    addresses4: Vec<Ipv4Peer>,
    local_stream_id: u32,
    relay_through: Option<RelayThroughInfo>,
    relay_address: Option<&Ipv4Peer>,
) -> (r: NoisePayload)
    ensures
        r.version == 1,
        r.error == 0,
        r.firewall == firewall,
        r.holepunch == holepunch,
        r.addresses4 == addresses4,
        r.addresses6@.len() == 0,
        r.udx == Some(udx_info_of(local_stream_id)),
        r.secret_stream == Some(SecretStreamInfo { version: 1 }),
        r.relay_through == relay_through,
        match relay_address {
            Some(a) => r.relay_addresses matches Some(v) && peers_view(v@) == seq![a@],
            None => r.relay_addresses is None,
        },
{
    let relay_addresses: Option<Vec<Ipv4Peer>> = match relay_address {
        Some(a) => {
            let mut v: Vec<Ipv4Peer> = Vec::new();
            v.push(Ipv4Peer { host: a.host.clone(), port: a.port });
            assert(peers_view(v@) =~= seq![a@]);
            Some(v)
        },
        None => None,
    };
    NoisePayload {
        version: 1,
        error: 0,
        firewall,
        holepunch,
        addresses4,
        addresses6: Vec::new(),
        udx: Some(UdxInfo { version: 1, reusable_socket: true, id: local_stream_id as u64, seq: 0 }),
        secret_stream: Some(SecretStreamInfo { version: 1 }),
        relay_through,
        relay_addresses,
    }
}

// ── The steps of an answer ───────────────────────────────────────────────────
//
// A handshake is answered in five steps, each with what came of some outside work: the noise
// message was read, a holepunch was prepared, the reply was written, the keys were derived. The
// types keep the order of the steps.

/// What a swarm answers handshakes with.
#[derive(Debug)]
pub struct HandshakeConfig {
    /// Firewall value sent in handshakes.
    pub firewall: u64,
    /// Port of the DHT socket.
    pub local_port: u16,
    /// Public key of a relay to force connections through.
    pub relay_through: Option<[u8; 32]>,
    /// Address of that relay.
    pub relay_address: Option<Ipv4Peer>,
}

/// A holepunch that was prepared for a handshake.
#[derive(Debug, Clone, Copy)]
pub struct StagedPunch {
    /// Its id.
    pub id: u64,
    /// The port of its socket.
    pub port: u16,
}

/// A handshake message that was received.
#[derive(Debug)]
pub struct ReceivedHandshake {
    /// How it was routed.
    pub mode: u64,
    /// Address of the client.
    pub client: Ipv4Peer,
    /// Address of the client as a node that passed the message on reports it.
    pub peer_address: Option<Ipv4Peer>,
}

/// A handshake whose noise message was read.
#[derive(Debug)]
pub struct ReadHandshake {
    /// The message.
    pub received: ReceivedHandshake,
    /// What it says.
    pub remote: RemotePayload,
    /// Stream id for the connection.
    pub local_stream_id: u32,
    /// What the client is told of a relay.
    pub relay_through: Option<RelayThroughInfo>,
}

/// A handshake for which a holepunch was prepared, or not.
#[derive(Debug)]
pub struct StagedHandshake {
    /// What was read.
    pub read: ReadHandshake,
    /// The holepunch.
    pub staged: Option<StagedPunch>,
}

/// A handshake whose reply was written.
#[derive(Debug)]
pub struct WrittenHandshake {
    /// What was read and prepared.
    pub handshake: StagedHandshake,
    /// The noise message of the reply.
    pub noise: Vec<u8>,
}

/// What follows an answered handshake.
#[derive(Debug)]
pub enum Followup {
    /// The prepared holepunch is waited for; the connection gets its slot when it lands.
    AwaitPunch(StagedPunch),
    /// There is no connection, for this reason.
    Refused(Admission),
    /// The connection has a slot and is made through the relay.
    ThroughRelay {
        /// The relay and the token of the pairing.
        relay: RelayThroughInfo,
        /// Stream id for the connection.
        local_stream_id: u32,
    },
    /// The connection has a slot and is made directly.
    Direct {
        /// How the peer's stream is reached.
        remote: UdxInfo,
        /// Stream id for the connection.
        local_stream_id: u32,
    },
}

/// A handshake that is not answered. The timer of a holepunch that was prepared for it is stopped.
#[derive(Debug, Clone, Copy)]
pub struct Declined {
    /// Id of the holepunch.
    pub abort: Option<u64>,
}

/// The id of a prepared holepunch.
pub open spec fn staged_id(s: Option<StagedPunch>) -> Option<u64> {
    match s {
        Some(p) => Some(p.id),
        None => None,
    }
}

impl ReceivedHandshake {
    /// Takes a handshake message in.
    pub fn new(mode: u64, from: Ipv4Peer, peer_address: Option<Ipv4Peer>) -> (r: Self)
        ensures
            r.mode == mode,
            r.client@ == (match peer_address {
                Some(a) => a@,
                None => from@,
            }),
            r.peer_address == peer_address,
    {
        let client: Ipv4Peer = match &peer_address {
            Some(a) => Ipv4Peer { host: a.host.clone(), port: a.port },
            None => from,
        };
        ReceivedHandshake { mode, client, peer_address }
    }

    /// Goes on with what the noise message says, given the token for a relay. A message that could
    /// not be read, or that reports an error, is declined before a stream id is used up.
    pub fn read_with(
        self,
        remote: Option<RemotePayload>,
        config: &HandshakeConfig,
        token: [u8; 32],
        ids: &mut StreamIds,
    ) -> (r: Result<ReadHandshake, Declined>)
        ensures
            match remote {
                Some(p) => if p.error == 0 {
                    &&& r == Ok::<ReadHandshake, Declined>(
                        ReadHandshake {
                            received: self,
                            remote: p,
                            local_stream_id: old(ids).upcoming(),
                            relay_through: through(config.relay_through, token),
                        },
                    )
                    &&& final(ids).upcoming() == (if old(ids).upcoming() == u32::MAX {
                        0
                    } else {
                        old(ids).upcoming() + 1
                    })
                } else {
                    r == Err::<ReadHandshake, Declined>(Declined { abort: None }) && *final(ids)
                        == *old(ids)
                },
                None => r == Err::<ReadHandshake, Declined>(Declined { abort: None }) && *final(ids)
                    == *old(ids),
            },
    {
        match remote {
            Some(p) => {
                if p.error != 0 {
                    return Err(Declined { abort: None });
                }
                let local_stream_id: u32 = ids.take();
                Ok(
                    ReadHandshake {
                        received: self,
                        remote: p,
                        local_stream_id,
                        relay_through: relay_through_with(config.relay_through, token),
                    },
                )
            },
            None => Err(Declined { abort: None }),
        }
    }

    /// As [`Self::read_with`], with a random token.
    pub fn read(
        self,
        remote: Option<RemotePayload>,
        config: &HandshakeConfig,
        ids: &mut StreamIds,
    ) -> (r: Result<ReadHandshake, Declined>)
        ensures
            match remote {
                Some(p) => if p.error == 0 {
                    &&& r matches Ok(h) && h.received == self && h.remote == p && h.local_stream_id
                        == old(ids).upcoming() && exists|token: [u8; 32]|
                        h.relay_through == #[trigger] through(config.relay_through, token)
                    &&& final(ids).upcoming() == (if old(ids).upcoming() == u32::MAX {
                        0
                    } else {
                        old(ids).upcoming() + 1
                    })
                } else {
                    r == Err::<ReadHandshake, Declined>(Declined { abort: None }) && *final(ids)
                        == *old(ids)
                },
                None => r == Err::<ReadHandshake, Declined>(Declined { abort: None }) && *final(ids)
                    == *old(ids),
            },
    {
        self.read_with(remote, config, random_token(), ids)
    }
}

impl ReadHandshake {
    /// Whether a holepunch is to be prepared, given the own firewall state.
    pub fn wants_punch(&self, firewall_state: Option<u64>) -> (r: bool)
        ensures
            r == punch_wanted(firewall_state, self.relay_through is Some),
    {
        attempts_holepunch(firewall_state, self.relay_through.is_some())
    }

    /// Goes on with the holepunch that was prepared, or without one where none was wanted or
    /// preparing it failed.
    pub fn stage(self, staged: Option<StagedPunch>) -> (r: StagedHandshake)
        ensures
            r == (StagedHandshake { read: self, staged }),
    {
        StagedHandshake { read: self, staged }
    }
}

impl StagedHandshake {
    /// The port that goes with the announced addresses.
    pub fn port(&self, config: &HandshakeConfig) -> (r: u16)
        ensures
            r == (match self.staged {
                Some(p) => p.port,
                None => config.local_port,
            }),
    {
        match self.staged {
            Some(p) => p.port,
            None => config.local_port,
        }
    }

    /// The payload of the reply. `addresses4` are the own addresses, and `relays` the nodes
    /// through which a holepunch can be arranged.
    pub fn payload(
        &self,
        config: &HandshakeConfig,
        addresses4: Vec<Ipv4Peer>,
        relays: &Vec<Ipv4Peer>,
    ) -> (r: NoisePayload)
        ensures
            r.version == 1,
            r.error == 0,
            r.firewall == config.firewall,
            match self.staged {
                Some(p) => r.holepunch matches Some(h) && h.id == p.id && relays_view(h.relays@)
                    == peers_view(relays@).map_values(
                    |a: (Seq<char>, u16)| (a, self.read.received.client@),
                ),
                None => r.holepunch is None,
            },
            r.addresses4 == addresses4,
            r.addresses6@.len() == 0,
            r.udx == Some(udx_info_of(self.read.local_stream_id)),
            r.secret_stream == Some(SecretStreamInfo { version: 1 }),
            r.relay_through == self.read.relay_through,
            match config.relay_address {
                Some(a) => r.relay_addresses matches Some(v) && peers_view(v@) == seq![a@],
                None => r.relay_addresses is None,
            },
    {
        let holepunch: Option<HolepunchInfo> = match self.staged {
            Some(p) => Some(holepunch_info(p.id, relays, &self.read.received.client)),
            None => None,
        };
        let relay_address: Option<&Ipv4Peer> = match &config.relay_address {
            Some(a) => Some(a),
            None => None,
        };
        server_payload(
            config.firewall,
            holepunch,
            addresses4,
            self.read.local_stream_id,
            self.read.relay_through,
            relay_address,
        )
    }

    /// Goes on with the noise message of the reply, where it could be written.
    pub fn written(self, noise: Option<Vec<u8>>) -> (r: Result<WrittenHandshake, Declined>)
        ensures
            r == (match noise {
                Some(n) => Ok::<WrittenHandshake, Declined>(
                    WrittenHandshake { handshake: self, noise: n },
                ),
                None => Err(Declined { abort: staged_id(self.staged) }),
            }),
    {
        match noise {
            Some(n) => Ok(WrittenHandshake { handshake: self, noise: n }),
            None => {
                let abort: Option<u64> = match self.staged {
                    Some(p) => Some(p.id),
                    None => None,
                };
                Err(Declined { abort })
            },
        }
    }
}

/// What follows a handshake with the peer `pk`: a prepared holepunch is waited for, else the
/// connection gets a slot where it may.
pub open spec fn followup_of(h: StagedHandshake, swarm: SwarmModel, pk: [u8; 32]) -> (
    Followup,
    SwarmModel,
) {
    match h.staged {
        Some(p) => (Followup::AwaitPunch(p), swarm),
        None => {
            let has_stream = h.read.remote.udx is Some;
            let admission = swarm.admission(pk, has_stream);
            let after = swarm.admitted(pk, has_stream);
            if admission != Admission::Accepted {
                (Followup::Refused(admission), after)
            } else {
                match h.read.relay_through {
                    Some(relay) => (
                        Followup::ThroughRelay {
                            relay,
                            local_stream_id: h.read.local_stream_id,
                        },
                        after,
                    ),
                    None => (
                        Followup::Direct {
                            remote: h.read.remote.udx->0,
                            local_stream_id: h.read.local_stream_id,
                        },
                        after,
                    ),
                }
            }
        },
    }
}

impl WrittenHandshake {
    /// Concludes the handshake: `remote_pk` is the peer's key where the keys could be derived.
    /// Gives the reply and what follows it.
    pub fn conclude(self, remote_pk: Option<[u8; 32]>, swarm: &mut SwarmState) -> (r: Result<
        (HandshakeMessage, Followup),
        Declined,
    >)
        requires
            old(swarm).wf(),
        ensures
            final(swarm).wf(),
            match remote_pk {
                Some(pk) => {
                    let (next, after) = followup_of(self.handshake, old(swarm)@, pk);
                    &&& final(swarm)@ == after
                    &&& r == Ok::<(HandshakeMessage, Followup), Declined>(
                        (
                            reply_of(
                                self.handshake.read.received.mode,
                                self.noise,
                                self.handshake.read.received.peer_address,
                            ),
                            next,
                        ),
                    )
                },
                None => {
                    &&& final(swarm)@ == old(swarm)@
                    &&& r == Err::<(HandshakeMessage, Followup), Declined>(
                        Declined { abort: staged_id(self.handshake.staged) },
                    )
                },
            },
    {
        let WrittenHandshake { handshake, noise } = self;
        let StagedHandshake { read, staged } = handshake;
        let pk: [u8; 32] = match remote_pk {
            Some(pk) => pk,
            None => {
                let abort: Option<u64> = match staged {
                    Some(p) => Some(p.id),
                    None => None,
                };
                return Err(Declined { abort });
            },
        };
        let next = match staged {
            Some(p) => Followup::AwaitPunch(p),
            None => match swarm.accept_inbound(pk, read.remote.udx.is_some()) {
                Admission::Accepted => match read.relay_through {
                    Some(relay) => Followup::ThroughRelay {
                        relay,
                        local_stream_id: read.local_stream_id,
                    },
                    None => match read.remote.udx {
                        Some(remote) => Followup::Direct {
                            remote,
                            local_stream_id: read.local_stream_id,
                        },
                        None => Followup::Refused(Admission::NoStream),
                    },
                },
                other => Followup::Refused(other),
            },
        };
        let reply = handshake_reply(read.received.mode, noise, read.received.peer_address);
        Ok((reply, next))
    }
}

/// A connection that is forced through a relay prepares no holepunch and is made through that
/// relay, with the token that the client was told.
pub proof fn law_relayed_connections_go_through_the_relay(
    h: StagedHandshake,
    swarm: SwarmModel,
    pk: [u8; 32],
    relay: [u8; 32],
    token: [u8; 32],
    firewall_state: Option<u64>,
)
    requires
        h.read.relay_through == through(Some(relay), token),
        h.staged is Some ==> punch_wanted(firewall_state, h.read.relay_through is Some),
        swarm.admission(pk, h.read.remote.udx is Some) == Admission::Accepted,
    ensures
        h.staged is None,
        ({
            let (next, _) = followup_of(h, swarm, pk);
            next matches Followup::ThroughRelay { relay: info, local_stream_id } && info.public_key
                == relay && info.token == token && local_stream_id == h.read.local_stream_id
        }),
{
}

/// A handshake for which a holepunch is waited for takes no slot yet.
pub proof fn law_awaited_punch_takes_no_slot(h: StagedHandshake, swarm: SwarmModel, pk: [u8; 32])
    requires
        h.staged is Some,
    ensures
        ({
            let (next, after) = followup_of(h, swarm, pk);
            next is AwaitPunch && after == swarm
        }),
{
}

/// The client is told of a relay exactly where there is one: its key and the token of the pairing.
/// A holepunch is prepared exactly where no relay is gone through and the own NAT keeps its
/// addresses or changes them at random: not where there is none, or nothing is known of it.
pub proof fn law_ways_in(relay: Option<[u8; 32]>, token: [u8; 32], firewall_state: Option<u64>)
    ensures
        through(relay, token) is Some <==> relay is Some,
        through(relay, token) matches Some(t) ==> t.version == 1 && Some(t.public_key) == relay
            && t.token == token,
        punch_wanted(firewall_state, relay is Some) <==> relay is None && (firewall_state == Some(
            2u64,
        ) || firewall_state == Some(3u64)),
{
}

/// What follows a handshake. A prepared holepunch is waited for. Else the connection is made where
/// the peer has none yet, there is room and the peer says how its stream is reached: through the
/// relay where there is one, else directly to the peer's stream. The slot is taken in these two
/// cases and in no other.
pub proof fn law_followups(h: StagedHandshake, swarm: SwarmModel, pk: [u8; 32])
    ensures
        ({
            let (next, after) = followup_of(h, swarm, pk);
            let connected = swarm.connections.contains_key(pk);
            let full = swarm.connections.dom().len() >= swarm.max_peers;
            let stream = h.read.remote.udx is Some;
            let taken = h.staged is None && !connected && !full && stream;
            &&& h.staged matches Some(p) ==> next == Followup::AwaitPunch(p)
            &&& h.staged is None && connected ==> next == Followup::Refused(
                Admission::AlreadyConnected,
            )
            &&& h.staged is None && !connected && full ==> next == Followup::Refused(
                Admission::AtCapacity,
            )
            &&& h.staged is None && !connected && !full && !stream ==> next == Followup::Refused(
                Admission::NoStream,
            )
            &&& taken ==> match h.read.relay_through {
                Some(relay) => next == (Followup::ThroughRelay {
                    relay,
                    local_stream_id: h.read.local_stream_id,
                }),
                None => next == (Followup::Direct {
                    remote: h.read.remote.udx->0,
                    local_stream_id: h.read.local_stream_id,
                }),
            }
            &&& taken ==> after == (SwarmModel {
                connections: swarm.connections.insert(pk, false),
                ..swarm
            })
            &&& !taken ==> after == swarm
        }),
{
}

// ── Connections through a relay ──────────────────────────────────────────────

/// How the relay of a connection is reached.
#[derive(Debug)]
pub enum RelayRoute {
    /// At this address.
    Direct(Ipv4Peer),
    /// Over the DHT.
    Lookup,
}

/// Picks how the relay is reached: at its address where that is known.
pub fn relay_route(relay_address: Option<Ipv4Peer>) -> (r: RelayRoute)
    ensures
        r == (match relay_address {
            Some(a) => RelayRoute::Direct(a),
            None => RelayRoute::Lookup,
        }),
{
    match relay_address {
        Some(a) => RelayRoute::Direct(a),
        None => RelayRoute::Lookup,
    }
}

/// What came of dialling a relay.
#[derive(Debug)]
pub enum RelayDial {
    /// It took too long.
    TimedOut,
    /// It failed.
    Failed,
    /// It is connected, from this address where that is known.
    Connected(Option<Ipv4Peer>),
}

/// Why a connection through a relay cannot be made.
#[derive(Debug)]
pub enum RelayConnectError {
    /// The relay did not answer in time.
    Timeout,
    /// The relay could not be dialled.
    DialFailed,
    /// The connection to the relay does not tell its address.
    NoRemoteAddress,
    /// The relay did not pair.
    Relay(RelayError),
    /// The stream id that the relay gave does not fit.
    Stream(PeerStreamError),
}

/// The address of the relay, once it was dialled.
pub fn relay_dialled(dial: RelayDial) -> (r: Result<Ipv4Peer, RelayConnectError>)
    ensures
        r == (match dial {
            RelayDial::TimedOut => Err::<Ipv4Peer, RelayConnectError>(RelayConnectError::Timeout),
            RelayDial::Failed => Err(RelayConnectError::DialFailed),
            RelayDial::Connected(None) => Err(RelayConnectError::NoRemoteAddress),
            RelayDial::Connected(Some(a)) => Ok(a),
        }),
{
    match dial {
        RelayDial::TimedOut => Err(RelayConnectError::Timeout),
        RelayDial::Failed => Err(RelayConnectError::DialFailed),
        RelayDial::Connected(a) => match a {
            Some(addr) => Ok(addr),
            None => Err(RelayConnectError::NoRemoteAddress),
        },
    }
}

/// Asks the relay to pair. The server of a connection is the initiator of the pairing.
pub fn relay_pair_request(client: &mut BlindRelayClient, token: &[u8; 32], local_stream_id: u32) -> (r:
    ChannelCommand)
    ensures
        final(client).request() == Some((true, *token)),
        sends(
            r,
            MSG_TYPE_PAIR,
            pair_bytes(
                (PairMessage {
                    is_initiator: true,
                    token: *token,
                    id: local_stream_id as u64,
                    seq: 0,
                }),
            ),
        ),
{
    client.pair(true, token, local_stream_id as u64)
}

/// Where the pairing stands after an event of the relay channel: nothing while it is waited for,
/// else the stream id to connect to.
pub fn relay_paired(step: PairStep) -> (r: Option<Result<u32, RelayConnectError>>)
    ensures
        r == (match step {
            PairStep::Waiting => None,
            PairStep::Failed(e) => Some(Err::<u32, RelayConnectError>(RelayConnectError::Relay(e))),
            PairStep::Paired(p) => Some(
                if p.remote_id <= u32::MAX {
                    Ok::<u32, RelayConnectError>(p.remote_id as u32)
                } else {
                    Err(RelayConnectError::Stream(PeerStreamError::RelayIdOutOfRange))
                },
            ),
        }),
{
    match step {
        PairStep::Waiting => None,
        PairStep::Failed(e) => Some(Err(RelayConnectError::Relay(e))),
        PairStep::Paired(p) => match relayed_stream_id(p.remote_id) {
            Ok(id) => Some(Ok(id)),
            Err(e) => Some(Err(RelayConnectError::Stream(e))),
        },
    }
}

/// Why a stream to a peer cannot be made.
#[derive(Debug, Clone, Copy, PartialEq, Eq, Structural)]
pub enum PeerStreamError {
    /// The peer did not say how its stream is reached.
    NoStream,
    /// The peer's stream id is wider than 32 bits.
    RemoteIdOutOfRange,
    /// The stream id that a relay gave is wider than 32 bits.
    RelayIdOutOfRange,
}

impl PeerStreamError {
    /// What the error says.
    pub open spec fn text(&self) -> Seq<char> {
        match *self {
            PeerStreamError::NoStream => {
                "passive holepunch: client did not advertise UDX info"@
            },
            PeerStreamError::RemoteIdOutOfRange => "remote UDX id out of u32 range"@,
            PeerStreamError::RelayIdOutOfRange => "relay remote_id out of u32 range"@,
        }
    }

    /// The error as a text for people.
    pub fn message(&self) -> (r: &'static str)
        ensures
            r@ == self.text(),
    {
        match self {
            PeerStreamError::NoStream => "passive holepunch: client did not advertise UDX info",
            PeerStreamError::RemoteIdOutOfRange => "remote UDX id out of u32 range",
            PeerStreamError::RelayIdOutOfRange => "relay remote_id out of u32 range",
        }
    }
}

/// The stream id under which a peer is reached directly.
pub fn peer_stream_id(remote: Option<UdxInfo>) -> (r: Result<u32, PeerStreamError>)
    ensures
        r == (match remote {
            None => Err::<u32, PeerStreamError>(PeerStreamError::NoStream),
            Some(u) => if u.id <= u32::MAX {
                Ok(u.id as u32)
            } else {
                Err(PeerStreamError::RemoteIdOutOfRange)
            },
        }),
{
    match remote {
        None => Err(PeerStreamError::NoStream),
        Some(u) => match narrow_id(u.id) {
            Some(id) => Ok(id),
            None => Err(PeerStreamError::RemoteIdOutOfRange),
        },
    }
}

/// The stream id under which a peer is reached through a relay.
pub fn relayed_stream_id(remote_id: u64) -> (r: Result<u32, PeerStreamError>)
    ensures
        r == (if remote_id <= u32::MAX {
            Ok::<u32, PeerStreamError>(remote_id as u32)
        } else {
            Err(PeerStreamError::RelayIdOutOfRange)
        }),
{
    match narrow_id(remote_id) {
        Some(id) => Ok(id),
        None => Err(PeerStreamError::RelayIdOutOfRange),
    }
}

/// What a list of holepunch relays says: the relay and the peer as it sees it, in order.
pub proof fn law_relays_say_both_addresses(v: Seq<RelayInfo>)
    ensures
        relays_view(v).len() == v.len(),
        forall|i: int|
            0 <= i < v.len() ==> (#[trigger] relays_view(v)[i]).0 == v[i].relay_address@
                && relays_view(v)[i].1 == v[i].peer_address@,
{
}

/// A handshake that is declined gives up the holepunch that was prepared for it, if any.
pub proof fn law_declined_handshake_gives_its_punch_up(s: Option<StagedPunch>)
    ensures
        staged_id(s) is Some <==> s is Some,
        s matches Some(p) ==> staged_id(s) == Some(p.id),
{
}

/// The words for each error.
pub proof fn law_words_for_stream_errors()
    ensures
        PeerStreamError::NoStream.text()
            == "passive holepunch: client did not advertise UDX info"@,
        PeerStreamError::RemoteIdOutOfRange.text() == "remote UDX id out of u32 range"@,
        PeerStreamError::RelayIdOutOfRange.text() == "relay remote_id out of u32 range"@,
{
}

} // verus!
