//! Rules of the service that runs a blind relay: which handshakes it answers and how, how a
//! matched pairing is bridged, and what its periodic sweep does.

use vstd::prelude::*;

use crate::blind_relay::client::{
    law_reply_answers_request, pair_step, ChannelEvent, PairResponse, PairStep,
};
use crate::blind_relay::codec::{pair_bytes, PairMessage, MSG_TYPE_PAIR};
use crate::blind_relay::server::{
    lists, BlindRelayServer, BlindRelayServerConfig, MatchedPairing, SessionOutbound,
};
use crate::hyperdht_messages::{
    handshake_reply, narrow_id, reply_of, udx_info_of, HandshakeMessage, NoisePayload,
    RemotePayload, SecretStreamInfo, StreamIds, UdxInfo, FIREWALL_UNKNOWN,
};
use crate::messages::Ipv4Peer;

verus! {

/// Configuration of a relay service.
#[derive(Debug, Clone, Copy)]
#[non_exhaustive]
pub struct RelayServiceConfig {
    /// Limits and timeouts of the pairing engine.
    pub relay: BlindRelayServerConfig,
    /// How often to sweep pairings and sessions that timed out, in nanoseconds.
    pub sweep_interval: u128,
    /// Firewall state announced to connecting peers.
    pub firewall: u64,
}

impl Default for RelayServiceConfig {
    fn default() -> (r: Self)
        ensures
            r.relay.max_sessions == 10_000,
            r.relay.max_pairings_per_session == 256,
            r.relay.pairing_timeout == 300_000_000_000,
            r.relay.idle_session_timeout == 600_000_000_000,
            r.sweep_interval == 30_000_000_000,
            r.firewall == FIREWALL_UNKNOWN,
    {
        RelayServiceConfig {
            relay: Default::default(),
            sweep_interval: 30_000_000_000,
            firewall: FIREWALL_UNKNOWN,
        }
    }
}

/// Errors from running the relay service.
#[derive(Debug, Clone, Copy, PartialEq, Eq, Structural)]
#[non_exhaustive]
pub enum RelayServiceError {
    /// The channel of server events closed unexpectedly.
    ChannelClosed,
}

impl RelayServiceError {
    /// The error as a text for people.
    pub fn message(&self) -> (r: &'static str)
        ensures
            r@ == "DHT server-event channel closed"@,
    {
        "DHT server-event channel closed"
    }
}

/// Why a stream for a relay connection cannot be made.
#[derive(Debug, Clone, Copy, PartialEq, Eq, Structural)]
pub enum StreamError {
    /// The stream id of the connecting peer is wider than 32 bits.
    RemoteIdOutOfRange,
    /// The stream id of a pair message is wider than 32 bits.
    ClientIdOutOfRange,
}

impl StreamError {
    /// What the error says.
    pub open spec fn text(&self) -> Seq<char> {
        match *self {
            StreamError::RemoteIdOutOfRange => "remote UDX id out of u32 range"@,
            StreamError::ClientIdOutOfRange => "client stream id out of range"@,
        }
    }

    /// The error as a text for people.
    pub fn message(&self) -> (r: &'static str)
        ensures
            r@ == self.text(),
    {
        match self {
            StreamError::RemoteIdOutOfRange => "remote UDX id out of u32 range",
            StreamError::ClientIdOutOfRange => "client stream id out of range",
        }
    }
}

/// The next stream id of the relay.
pub fn next_relay_stream_id(ids: &mut StreamIds) -> (r: u32)
    ensures
        r == old(ids).upcoming(),
        final(ids).upcoming() == (if old(ids).upcoming() == u32::MAX {
            0
        } else {
            old(ids).upcoming() + 1
        }),
{
    ids.take()
}

/// Something that the DHT hands to a server, as far as the relay tells it apart.
#[derive(Debug)]
pub enum ServerRequest {
    /// A handshake message of this mode, with the address of the client where a node passed the
    /// message on.
    Handshake(u64, Option<Ipv4Peer>),
    /// A holepunch message. A relay runs at a reachable address and declines those.
    Holepunch,
}

/// A handshake that the relay has to answer.
#[derive(Debug)]
pub struct RelayHandshake {
    /// How the message was routed.
    pub mode: u64,
    /// Address of the client.
    pub peer_address: Option<Ipv4Peer>,
}

/// A handshake whose noise message was read.
#[derive(Debug)]
pub struct ReadRelayHandshake {
    /// The message.
    pub handshake: RelayHandshake,
    /// Stream id for the control connection.
    pub local_stream_id: u32,
    /// How the connecting peer's stream is reached.
    pub remote_udx: Option<UdxInfo>,
}

/// A handshake whose reply was written.
#[derive(Debug)]
pub struct WrittenRelayHandshake {
    /// What was read.
    pub read: ReadRelayHandshake,
    /// The noise message of the reply.
    pub noise: Vec<u8>,
}

/// The control connection that an answered handshake leads to.
#[derive(Debug, Clone, Copy)]
pub struct ControlConnection {
    /// The relay's own stream id.
    pub local_stream_id: u32,
    /// How the connecting peer's stream is reached.
    pub remote: UdxInfo,
    /// Key of the connecting peer, the id of its relay channel.
    pub remote_pk: [u8; 32],
}

/// Sorts a request: a handshake is answered, and a holepunch is declined.
pub fn on_request(request: ServerRequest) -> (r: Option<RelayHandshake>)
    ensures
        r == (match request {
            ServerRequest::Handshake(mode, peer_address) => Some(
                RelayHandshake { mode, peer_address },
            ),
            ServerRequest::Holepunch => None,
        }),
{
    match request {
        ServerRequest::Handshake(mode, peer_address) => {
            Some(RelayHandshake { mode, peer_address })
        },
        ServerRequest::Holepunch => None,
    }
}

impl RelayHandshake {
    /// Goes on with what the noise message says. A message that could not be read, or that reports
    /// an error, is declined before a stream id is used up.
    pub fn read(self, remote: Option<RemotePayload>, ids: &mut StreamIds) -> (r: Option<
        ReadRelayHandshake,
    >)
        ensures
            match remote {
                Some(p) => if p.error == 0 {
                    &&& r == Some(
                        ReadRelayHandshake {
                            handshake: self,
                            local_stream_id: old(ids).upcoming(),
                            remote_udx: p.udx,
                        },
                    )
                    &&& final(ids).upcoming() == (if old(ids).upcoming() == u32::MAX {
                        0
                    } else {
                        old(ids).upcoming() + 1
                    })
                } else {
                    r is None && *final(ids) == *old(ids)
                },
                None => r is None && *final(ids) == *old(ids),
            },
    {
        match remote {
            Some(p) => {
                if p.error != 0 {
                    return None;
                }
                Some(
                    ReadRelayHandshake {
                        handshake: self,
                        local_stream_id: next_relay_stream_id(ids),
                        remote_udx: p.udx,
                    },
                )
            },
            None => None,
        }
    }
}

impl ReadRelayHandshake {
    /// What the relay says of itself in the reply.
    pub fn payload(&self, firewall: u64, addresses4: Vec<Ipv4Peer>) -> (r: NoisePayload)
        ensures
            r.version == 1,
            r.error == 0,
            r.firewall == firewall,
            r.holepunch is None,
            r.addresses4 == addresses4,
            r.addresses6@.len() == 0,
            r.udx == Some(udx_info_of(self.local_stream_id)),
            r.secret_stream == Some(SecretStreamInfo { version: 1 }),
            r.relay_through is None,
            r.relay_addresses is None,
    {
        NoisePayload {
            version: 1,
            error: 0,
            firewall,
            holepunch: None,
            addresses4,
            addresses6: Vec::new(),
            udx: Some(
                UdxInfo {
                    version: 1,
                    reusable_socket: true,
                    id: self.local_stream_id as u64,
                    seq: 0,
                },
            ),
            secret_stream: Some(SecretStreamInfo { version: 1 }),
            relay_through: None,
            relay_addresses: None,
        }
    }

    /// Goes on with the noise message of the reply, where it could be written.
    pub fn written(self, noise: Option<Vec<u8>>) -> (r: Option<WrittenRelayHandshake>)
        ensures
            r == (match noise {
                Some(n) => Some(WrittenRelayHandshake { read: self, noise: n }),
                None => None,
            }),
    {
        match noise {
            Some(n) => Some(WrittenRelayHandshake { read: self, noise: n }),
            None => None,
        }
    }
}

impl WrittenRelayHandshake {
    /// Concludes the handshake: `remote_pk` is the peer's key where the keys could be derived.
    /// Gives the reply, and the control connection unless the peer did not say how its stream is
    /// reached.
    pub fn conclude(self, remote_pk: Option<[u8; 32]>) -> (r: Option<
        (HandshakeMessage, Option<ControlConnection>),
    >)
        ensures
            r == (match remote_pk {
                Some(pk) => Some(
                    (
                        reply_of(
                            self.read.handshake.mode,
                            self.noise,
                            self.read.handshake.peer_address,
                        ),
                        match self.read.remote_udx {
                            Some(remote) => Some(
                                ControlConnection {
                                    local_stream_id: self.read.local_stream_id,
                                    remote,
                                    remote_pk: pk,
                                },
                            ),
                            None => None,
                        },
                    ),
                ),
                None => None,
            }),
    {
        let WrittenRelayHandshake { read, noise } = self;
        match remote_pk {
            None => None,
            Some(pk) => {
                let control: Option<ControlConnection> = match read.remote_udx {
                    Some(remote) => Some(
                        ControlConnection {
                            local_stream_id: read.local_stream_id,
                            remote,
                            remote_pk: pk,
                        },
                    ),
                    None => None,
                };
                let reply = handshake_reply(
                    read.handshake.mode,
                    noise,
                    read.handshake.peer_address,
                );
                Some((reply, control))
            },
        }
    }
}

/// The stream id under which a connecting peer is reached.
pub fn control_stream_id(remote: &UdxInfo) -> (r: Result<u32, StreamError>)
    ensures
        r == (if remote.id <= u32::MAX {
            Ok::<u32, StreamError>(remote.id as u32)
        } else {
            Err(StreamError::RemoteIdOutOfRange)
        }),
{
    match narrow_id(remote.id) {
        Some(id) => Ok(id),
        None => Err(StreamError::RemoteIdOutOfRange),
    }
}

/// The two streams that bridge a matched pairing.
#[derive(Debug, Clone, Copy)]
pub struct BridgePlan {
    /// The relay's own stream id on the first side.
    pub first_local_id: u32,
    /// The client's stream id on the first side.
    pub first_remote_id: u32,
    /// The relay's own stream id on the second side.
    pub second_local_id: u32,
    /// The client's stream id on the second side.
    pub second_remote_id: u32,
}

/// Plans the bridge of a matched pairing. Two ids are used up even where a client's id does not
/// fit.
pub fn plan_bridge(ids: &mut StreamIds, matched: &MatchedPairing) -> (r: Result<
    BridgePlan,
    StreamError,
>)
    ensures
        ({
            let a = old(ids).upcoming();
            let b: u32 = if a == u32::MAX {
                0
            } else {
                (a + 1) as u32
            };
            &&& final(ids).upcoming() == (if b == u32::MAX {
                0
            } else {
                b + 1
            })
            &&& r == (if matched.first.client_stream_id <= u32::MAX
                && matched.second.client_stream_id <= u32::MAX {
                Ok::<BridgePlan, StreamError>(
                    BridgePlan {
                        first_local_id: a,
                        first_remote_id: matched.first.client_stream_id as u32,
                        second_local_id: b,
                        second_remote_id: matched.second.client_stream_id as u32,
                    },
                )
            } else {
                Err(StreamError::ClientIdOutOfRange)
            })
        }),
{
    let first_local_id: u32 = next_relay_stream_id(ids);
    let second_local_id: u32 = next_relay_stream_id(ids);
    let first_remote_id: u32 = match narrow_id(matched.first.client_stream_id) {
        Some(id) => id,
        None => {
            return Err(StreamError::ClientIdOutOfRange);
        },
    };
    let second_remote_id: u32 = match narrow_id(matched.second.client_stream_id) {
        Some(id) => id,
        None => {
            return Err(StreamError::ClientIdOutOfRange);
        },
    };
    Ok(BridgePlan { first_local_id, first_remote_id, second_local_id, second_remote_id })
}

/// What the two sides of a bridged pairing are told: each the relay's stream id on its own side.
pub open spec fn notices_of(p: MatchedPairing, plan: BridgePlan) -> (SessionOutbound, SessionOutbound) {
    (
        SessionOutbound::PairMatched {
            token: p.token,
            is_initiator: p.first.is_initiator,
            local_stream_id: plan.first_local_id as u64,
        },
        SessionOutbound::PairMatched {
            token: p.token,
            is_initiator: p.second.is_initiator,
            local_stream_id: plan.second_local_id as u64,
        },
    )
}

/// Records a bridged pairing as active and gives what its first and its second side are told.
/// `teardown_tx` is the handle that drops its streams. Where one of the two sessions ended since
/// the match, nothing is recorded and nobody is told: the streams are to be dropped.
pub fn activate_bridge(
    server: &mut BlindRelayServer,
    matched: &MatchedPairing,
    plan: &BridgePlan,
    teardown_tx: u64,
) -> (r: Option<(SessionOutbound, SessionOutbound)>)
    requires
        old(server).wf(),
    ensures
        final(server).wf(),
        if old(server)@.is_bridging(
            matched.token,
            matched.first.session_id,
            matched.second.session_id,
        ) {
            &&& r == Some(notices_of(*matched, *plan))
            &&& final(server)@.active.contains_key(matched.token)
            &&& final(server)@.active[matched.token].session_ids@ == seq![
                matched.first.session_id,
                matched.second.session_id,
            ]
            &&& final(server)@.active[matched.token].teardown_tx == teardown_tx
            &&& final(server)@ == old(server)@.marked(
                matched.token,
                final(server)@.active[matched.token],
            )
        } else {
            r is None && final(server)@ == old(server)@
        },
{
    if !server.awaits_bridge(matched) {
        return None;
    }
    let session_ids: [u64; 2] = [matched.first.session_id, matched.second.session_id];
    server.mark_active(matched.token, session_ids, teardown_tx);
    proof {
        assert(session_ids@ =~= seq![matched.first.session_id, matched.second.session_id]);
    }
    Some(
        (
            SessionOutbound::PairMatched {
                token: matched.token,
                is_initiator: matched.first.is_initiator,
                local_stream_id: plan.first_local_id as u64,
            },
            SessionOutbound::PairMatched {
                token: matched.token,
                is_initiator: matched.second.is_initiator,
                local_stream_id: plan.second_local_id as u64,
            },
        ),
    )
}

/// Each side of a bridged pairing learns the relay's stream id on its own side from what it is
/// told, and does not take the other side's for its own.
pub proof fn law_sides_learn_their_own_stream(
    p: MatchedPairing,
    plan: BridgePlan,
    first_data: Vec<u8>,
    second_data: Vec<u8>,
)
    requires
        p.first.is_initiator != p.second.is_initiator,
        first_data@ == pair_bytes(
            PairMessage {
                is_initiator: p.first.is_initiator,
                token: p.token,
                id: plan.first_local_id as u64,
                seq: 0,
            },
        ),
        second_data@ == pair_bytes(
            PairMessage {
                is_initiator: p.second.is_initiator,
                token: p.token,
                id: plan.second_local_id as u64,
                seq: 0,
            },
        ),
    ensures
        ({
            let first = Some(
                ChannelEvent::Message { message_type: MSG_TYPE_PAIR, data: first_data },
            );
            let second = Some(
                ChannelEvent::Message { message_type: MSG_TYPE_PAIR, data: second_data },
            );
            let a = p.first.is_initiator;
            let b = p.second.is_initiator;
            &&& pair_step(a, p.token, first) == PairStep::Paired(
                PairResponse { remote_id: plan.first_local_id as u64 },
            )
            &&& pair_step(b, p.token, second) == PairStep::Paired(
                PairResponse { remote_id: plan.second_local_id as u64 },
            )
            &&& pair_step(a, p.token, second) == PairStep::Waiting
            &&& pair_step(b, p.token, first) == PairStep::Waiting
        }),
{
    let x = PairMessage {
        is_initiator: p.first.is_initiator,
        token: p.token,
        id: plan.first_local_id as u64,
        seq: 0,
    };
    let y = PairMessage {
        is_initiator: p.second.is_initiator,
        token: p.token,
        id: plan.second_local_id as u64,
        seq: 0,
    };
    law_reply_answers_request(p.first.is_initiator, p.token, x, first_data);
    law_reply_answers_request(p.second.is_initiator, p.token, y, second_data);
    law_reply_answers_request(p.first.is_initiator, p.token, y, second_data);
    law_reply_answers_request(p.second.is_initiator, p.token, x, first_data);
}

/// The periodic sweep: pairings that waited too long are dropped, and sessions that were silent
/// too long are told to close. Gives the number of the first and the ids of the second.
pub fn sweep(server: &mut BlindRelayServer, now: u128) -> (r: (usize, Vec<u64>))
    requires
        old(server).wf(),
    ensures
        final(server).wf(),
        r.0 == old(server)@.expired(now).len(),
        lists(r.1@, old(server)@.idle(now)),
        final(server)@ == old(server)@.swept(now).closing(r.1@),
{
    let dropped: usize = server.sweep_expired_pairings(now);
    let closed = server.sweep_idle_sessions(now);
    (dropped, closed)
}

/// Each side of a bridged pairing is told the token, its own side and the relay's stream id there.
pub proof fn law_notices_name_token_side_and_stream(p: MatchedPairing, plan: BridgePlan)
    ensures
        notices_of(p, plan).0 matches SessionOutbound::PairMatched {
            token,
            is_initiator,
            local_stream_id,
        } && token == p.token && is_initiator == p.first.is_initiator && local_stream_id
            == plan.first_local_id,
        notices_of(p, plan).1 matches SessionOutbound::PairMatched {
            token,
            is_initiator,
            local_stream_id,
        } && token == p.token && is_initiator == p.second.is_initiator && local_stream_id
            == plan.second_local_id,
{
}

/// The words for each error.
pub proof fn law_words_for_stream_errors()
    ensures
        StreamError::RemoteIdOutOfRange.text() == "remote UDX id out of u32 range"@,
        StreamError::ClientIdOutOfRange.text() == "client stream id out of range"@,
{
}

} // verus!
