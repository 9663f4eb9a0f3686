//! One accepted connection of a relay: its messages are registered with the shared
//! [`BlindRelayServer`], and the server's instructions become messages on the wire.

use vstd::prelude::*;

use super::client::ChannelEvent;
use super::codec::{
    decode_pair_from_slice, decode_unpair_from_slice, encode_pair_to_vec, pair_bytes, parse_pair,
    parse_unpair, PairMessage, MSG_TYPE_PAIR, MSG_TYPE_UNPAIR,
};
use super::server::{
    capped, lists, BlindRelayServer, MatchedPairing, PairOutcome, PendingLink, ServerModel,
    SessionOutbound,
};

verus! {

/// What a session knows of itself.
pub struct SessionModel {
    /// Its id.
    pub session_id: u64,
    /// Handle of its outbound queue.
    pub outbound_tx: u64,
}

/// Drives one accepted connection's pair and unpair traffic.
pub struct BlindRelaySession {
    session_id: u64,
    outbound_tx: u64,
}

impl View for BlindRelaySession {
    type V = SessionModel;

    closed spec fn view(&self) -> SessionModel {
        SessionModel {
            session_id: self.session_id,
            outbound_tx: self.outbound_tx,
        }
    }
}

/// What the driver of a session waits for.
#[derive(Debug)]
pub enum SessionEvent {
    /// The next instruction on the outbound queue, or its end.
    Outbound(Option<SessionOutbound>),
    /// The next event of the channel, or its end.
    Channel(Option<ChannelEvent>),
}

/// What the driver of a session does next.
#[derive(Debug)]
pub enum SessionAction {
    /// Wait for the next event.
    Continue,
    /// Send this message on the channel. Where that fails, the session ends.
    Send {
        /// Its type.
        message_type: u32,
        /// Its bytes.
        data: Vec<u8>,
    },
    /// Hand the matched pairing to whoever wires the data plane.
    Matched(MatchedPairing),
    /// The session ends: call [`BlindRelaySession::finish`].
    Stop,
}

/// What a message of a session changes in it and in the server, and the pairing that it matched.
pub open spec fn on_message_spec(
    s: SessionModel,
    m: ServerModel,
    message_type: u32,
    data: Seq<u8>,
    now: u128,
) -> (SessionModel, ServerModel, Option<MatchedPairing>) {
    if message_type == MSG_TYPE_PAIR {
        match parse_pair(data) {
            None => (s, m, None),
            Some((msg, _)) => {
                let link = PendingLink {
                    session_id: s.session_id,
                    is_initiator: msg.is_initiator,
                    client_stream_id: msg.id,
                    outbound_tx: s.outbound_tx,
                    created_at: now,
                };
                let held = capped(m.held(s.session_id) as int);
                match m.paired(msg.token, link, held) {
                    (m2, PairOutcome::Matched(p)) => (s, m2, Some(p)),
                    (m2, _) => (s, m2, None),
                }
            },
        }
    } else if message_type == MSG_TYPE_UNPAIR {
        match parse_unpair(data) {
            None => (s, m, None),
            Some((msg, _)) => {
                let (m2, _) = m.unpaired(s.session_id, msg.token, now);
                (s, m2, None)
            },
        }
    } else {
        (s, m, None)
    }
}

impl BlindRelaySession {
    /// Takes a session slot for a newly accepted connection, or gives nothing where the server is
    /// at capacity. `outbound_tx` is the handle of the session's outbound queue.
    pub fn new(server: &mut BlindRelayServer, outbound_tx: u64, now: u128) -> (r: Option<Self>)
        requires
            old(server).wf(),
        ensures
            final(server).wf(),
            if old(server)@.session_count >= old(server)@.config.max_sessions {
                r is None && final(server)@ == old(server)@
            } else {
                let id = old(server)@.next_session_id;
                let m = old(server)@.accepted();
                &&& r matches Some(s) && s@ == (SessionModel {
                    session_id: id,
                    outbound_tx,
                })
                &&& final(server)@ == (ServerModel {
                    outbound: m.outbound.insert(id, outbound_tx),
                    ..m
                }).touched(id, now)
            },
    {
        match server.try_accept_session() {
            None => None,
            Some(session_id) => {
                server.register_session(session_id, outbound_tx, now);
                Some(BlindRelaySession { session_id, outbound_tx })
            },
        }
    }

    /// This session's id.
    pub fn session_id(&self) -> (r: u64)
        ensures
            r == self@.session_id,
    {
        self.session_id
    }

    /// Takes one event and says what to do next.
    pub fn step(&mut self, server: &mut BlindRelayServer, event: &SessionEvent, now: u128) -> (r:
        SessionAction)
        requires
            old(server).wf(),
        ensures
            final(server).wf(),
            match *event {
                SessionEvent::Outbound(Some(SessionOutbound::PairMatched {
                    token,
                    is_initiator,
                    local_stream_id,
                })) => {
                    &&& r matches SessionAction::Send { message_type, data } && message_type
                        == MSG_TYPE_PAIR && data@ == pair_bytes(
                        (PairMessage { is_initiator, token, id: local_stream_id, seq: 0 }),
                    )
                    &&& final(self)@ == old(self)@
                    &&& final(server)@ == old(server)@
                },
                SessionEvent::Channel(Some(ChannelEvent::Message { message_type, data })) => {
                    let (s, m, matched) = on_message_spec(
                        old(self)@,
                        old(server)@,
                        message_type,
                        data@,
                        now,
                    );
                    &&& final(self)@ == s
                    &&& final(server)@ == m
                    &&& r == match matched {
                        Some(p) => SessionAction::Matched(p),
                        None => SessionAction::Continue,
                    }
                },
                SessionEvent::Channel(Some(ChannelEvent::Opened)) => {
                    &&& r == SessionAction::Continue
                    &&& final(self)@ == old(self)@
                    &&& final(server)@ == old(server)@
                },
                _ => {
                    &&& r == SessionAction::Stop
                    &&& final(self)@ == old(self)@
                    &&& final(server)@ == old(server)@
                },
            },
    {
        match event {
            SessionEvent::Outbound(outbound) => match outbound {
                Some(SessionOutbound::PairMatched { token, is_initiator, local_stream_id }) => {
                    let msg = PairMessage {
                        is_initiator: *is_initiator,
                        token: *token,
                        id: *local_stream_id,
                        seq: 0,
                    };
                    SessionAction::Send {
                        message_type: MSG_TYPE_PAIR,
                        data: encode_pair_to_vec(&msg),
                    }
                },
                Some(SessionOutbound::Close) => SessionAction::Stop,
                None => SessionAction::Stop,
            },
            SessionEvent::Channel(event) => match event {
                Some(ChannelEvent::Message { message_type, data }) => {
                    match self.on_message(server, *message_type, data.as_slice(), now) {
                        Some(p) => SessionAction::Matched(p),
                        None => SessionAction::Continue,
                    }
                },
                Some(ChannelEvent::Opened) => SessionAction::Continue,
                Some(ChannelEvent::Closed) => SessionAction::Stop,
                None => SessionAction::Stop,
            },
        }
    }

    /// Registers one message with the server. A pair request counts against the pairings that the
    /// session holds at this moment. Malformed messages and unknown types are dropped.
    pub fn on_message(
        &mut self,
        server: &mut BlindRelayServer,
        message_type: u32,
        data: &[u8],
        now: u128,
    ) -> (r: Option<MatchedPairing>)
        requires
            old(server).wf(),
        ensures
            final(server).wf(),
            (final(self)@, final(server)@, r) == on_message_spec(
                old(self)@,
                old(server)@,
                message_type,
                data@,
                now,
            ),
    {
        if message_type == MSG_TYPE_PAIR {
            let msg = match decode_pair_from_slice(data) {
                Ok(m) => m,
                Err(_) => {
                    return None;
                },
            };
            let held: usize = server.pairings_held(self.session_id);
            let outcome = server.try_pair(
                self.session_id,
                msg.is_initiator,
                msg.token,
                msg.id,
                held,
                self.outbound_tx,
                now,
            );
            match outcome {
                PairOutcome::Matched(p) => Some(p),
                PairOutcome::Pending => None,
                PairOutcome::AlreadyPairing => None,
                PairOutcome::LimitExceeded => None,
            }
        } else if message_type == MSG_TYPE_UNPAIR {
            let msg = match decode_unpair_from_slice(data) {
                Ok(m) => m,
                Err(_) => {
                    return None;
                },
            };
            server.unpair(self.session_id, msg.token, now);
            None
        } else {
            None
        }
    }

    /// Gives the session slot back once the session has ended.
    pub fn finish(self, server: &mut BlindRelayServer)
        requires
            old(server).wf(),
        ensures
            final(server).wf(),
            exists|order: Seq<[u8; 32]>| #[trigger]
                lists(order, old(server)@.active_of(self@.session_id)) && final(server)@ == old(
                    server,
                )@.released(self@.session_id, order),
    {
        let id: u64 = self.session_id();
        server.release_session(id);
    }
}

} // verus!
