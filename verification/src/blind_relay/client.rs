//! The client's side of the relay exchange: what to send, and what the relay's answers mean.

use vstd::prelude::*;
use vstd::string::StringExecFns;

use super::codec::{
    decode_pair_from_slice, encode_pair_to_vec, encode_unpair_to_vec, law_pair_roundtrip,
    pair_bytes, parse_pair, unpair_bytes, PairMessage, UnpairMessage, MSG_TYPE_PAIR,
    MSG_TYPE_UNPAIR, PROTOCOL_NAME,
};
use crate::bytes::key_eq;
use crate::compact_encoding::EncodingError;

verus! {

/// Errors that can occur while using the blind relay client.
#[derive(Debug)]
#[non_exhaustive]
pub enum RelayError {
    /// Opening, sending on or receiving from the channel failed, with the reason.
    Protomux(String),
    /// Encoding or decoding of relay messages failed.
    Encoding(EncodingError),
    /// The channel closed before a matching pair response arrived.
    ChannelClosed,
    /// The client was destroyed before the operation could complete.
    Destroyed,
    /// A pair request with this token is already in flight.
    AlreadyPairing,
}

impl RelayError {
    /// What the error says.
    pub open spec fn text(&self) -> Seq<char> {
        match *self {
            RelayError::Protomux(reason) => "protomux error: "@ + reason@,
            RelayError::Encoding(e) => "encoding error: "@ + e.text(),
            RelayError::ChannelClosed => "channel closed before pair response"@,
            RelayError::Destroyed => "relay client destroyed"@,
            RelayError::AlreadyPairing => "already pairing with this token"@,
        }
    }

    /// The error as a text for people.
    pub fn message(&self) -> (r: String)
        ensures
            r@ == self.text(),
    {
        match self {
            RelayError::Protomux(reason) => {
                "protomux error: ".to_owned().concat(reason.as_str())
            },
            RelayError::Encoding(e) => "encoding error: ".to_owned().concat(e.message()),
            RelayError::ChannelClosed => "channel closed before pair response".to_owned(),
            RelayError::Destroyed => "relay client destroyed".to_owned(),
            RelayError::AlreadyPairing => "already pairing with this token".to_owned(),
        }
    }
}

/// Response from a successful relay pairing.
#[derive(Debug, Clone, Copy)]
#[non_exhaustive]
pub struct PairResponse {
    /// Relay-assigned remote stream identifier.
    pub remote_id: u64,
}

/// Something that happened on a relay channel.
#[derive(Debug)]
pub enum ChannelEvent {
    /// The remote side opened the channel.
    Opened,
    /// A message arrived.
    Message {
        /// Its type.
        message_type: u32,
        /// Its bytes.
        data: Vec<u8>,
    },
    /// The channel closed.
    Closed,
}

/// Something to do with a relay channel.
#[derive(Debug)]
pub enum ChannelCommand {
    /// Open a channel of this protocol under this id.
    Open {
        /// Protocol name.
        protocol: &'static str,
        /// Channel id, the connecting peer's public key.
        id: Option<Vec<u8>>,
    },
    /// Send a message.
    Send {
        /// Its type.
        message_type: u32,
        /// Its bytes.
        data: Vec<u8>,
    },
    /// Close the channel.
    Close,
}

/// Whether the command sends `data` as a message of this type.
pub open spec fn sends(c: ChannelCommand, message_type: u32, data: Seq<u8>) -> bool {
    c matches ChannelCommand::Send { message_type: t, data: d } && t == message_type && d@ == data
}

/// Where a pair request stands after an event.
#[derive(Debug)]
pub enum PairStep {
    /// No answer yet.
    Waiting,
    /// The relay answered.
    Paired(PairResponse),
    /// There will be no answer.
    Failed(RelayError),
}

/// What an event means to a pair request for a side of a token. An end of events counts as a
/// closed channel.
pub open spec fn pair_step(
    is_initiator: bool,
    token: [u8; 32],
    event: Option<ChannelEvent>,
) -> PairStep {
    match event {
        None => PairStep::Failed(RelayError::ChannelClosed),
        Some(ChannelEvent::Closed) => PairStep::Failed(RelayError::ChannelClosed),
        Some(ChannelEvent::Opened) => PairStep::Waiting,
        Some(ChannelEvent::Message { message_type, data }) => if message_type != MSG_TYPE_PAIR {
            PairStep::Waiting
        } else {
            match parse_pair(data@) {
                None => PairStep::Failed(RelayError::Encoding(EncodingError::OutOfBounds)),
                Some((m, _)) => if m.token == token && m.is_initiator == is_initiator {
                    PairStep::Paired(PairResponse { remote_id: m.id })
                } else {
                    PairStep::Waiting
                },
            }
        },
    }
}

/// Client side of the relay exchange over one channel.
pub struct BlindRelayClient {
    request: Option<(bool, [u8; 32])>,
}

impl BlindRelayClient {
    /// The side and token that were asked for and not answered yet.
    pub closed spec fn request(&self) -> Option<(bool, [u8; 32])> {
        self.request
    }

    /// Opens a relay channel. `id` is the local public key used when connecting to the relay;
    /// both ends use the same one.
    pub fn open(id: Option<Vec<u8>>) -> (r: (Self, ChannelCommand))
        ensures
            r.0.request() is None,
            r.1 == (ChannelCommand::Open { protocol: PROTOCOL_NAME, id }),
    {
        (BlindRelayClient { request: None }, ChannelCommand::Open { protocol: PROTOCOL_NAME, id })
    }

    /// Starts a pair request: the command to carry out before events are handed to
    /// [`Self::on_event`].
    pub fn pair(&mut self, is_initiator: bool, token: &[u8; 32], stream_id: u64) -> (r: ChannelCommand)
        ensures
            final(self).request() == Some((is_initiator, *token)),
            sends(
                r,
                MSG_TYPE_PAIR,
                pair_bytes(
                    (PairMessage { is_initiator, token: *token, id: stream_id, seq: 0 }),
                ),
            ),
    {
        let msg = PairMessage { is_initiator, token: *token, id: stream_id, seq: 0 };
        self.request = Some((is_initiator, *token));
        ChannelCommand::Send { message_type: MSG_TYPE_PAIR, data: encode_pair_to_vec(&msg) }
    }

    /// Takes the next event of the channel while a pair request is open.
    pub fn on_event(&mut self, event: &Option<ChannelEvent>) -> (r: PairStep)
        requires
            old(self).request() is Some,
        ensures
            old(self).request() matches Some((is_initiator, token)) ==> r == pair_step(
                is_initiator,
                token,
                *event,
            ),
            final(self).request() == (if r is Waiting {
                old(self).request()
            } else {
                None
            }),
    {
        let (is_initiator, token) = match self.request {
            Some(q) => q,
            None => {
                return PairStep::Waiting;
            },
        };
        let step = match event {
            None => PairStep::Failed(RelayError::ChannelClosed),
            Some(ChannelEvent::Closed) => PairStep::Failed(RelayError::ChannelClosed),
            Some(ChannelEvent::Opened) => PairStep::Waiting,
            Some(ChannelEvent::Message { message_type, data }) => {
                if *message_type != MSG_TYPE_PAIR {
                    PairStep::Waiting
                } else {
                    match decode_pair_from_slice(data.as_slice()) {
                        Err(e) => PairStep::Failed(RelayError::Encoding(e)),
                        Ok(m) => {
                            if key_eq(&m.token, &token) && m.is_initiator == is_initiator {
                                PairStep::Paired(PairResponse { remote_id: m.id })
                            } else {
                                PairStep::Waiting
                            }
                        },
                    }
                }
            },
        };
        match &step {
            PairStep::Waiting => {},
            _ => {
                self.request = None;
            },
        }
        step
    }

    /// Cancels a pending pair request.
    pub fn unpair(&self, token: &[u8; 32]) -> (r: ChannelCommand)
        ensures
            sends(r, MSG_TYPE_UNPAIR, unpair_bytes((UnpairMessage { token: *token }))),
    {
        let msg = UnpairMessage { token: *token };
        ChannelCommand::Send { message_type: MSG_TYPE_UNPAIR, data: encode_unpair_to_vec(&msg) }
    }

    /// Closes the relay channel. An open pair request is given up.
    pub fn close(&mut self) -> (r: ChannelCommand)
        ensures
            r == ChannelCommand::Close,
            final(self).request() is None,
    {
        self.request = None;
        ChannelCommand::Close
    }
}

/// A pair reply answers exactly the request for the same side of the same token, with the stream
/// id that it carries. Other requests keep waiting.
pub proof fn law_reply_answers_request(
    is_initiator: bool,
    token: [u8; 32],
    reply: PairMessage,
    data: Vec<u8>,
)
    requires
        data@ == pair_bytes(reply),
    ensures
        ({
            let event = Some(ChannelEvent::Message { message_type: MSG_TYPE_PAIR, data });
            let step = pair_step(is_initiator, token, event);
            if reply.token == token && reply.is_initiator == is_initiator {
                step == PairStep::Paired(PairResponse { remote_id: reply.id })
            } else {
                step == PairStep::Waiting
            }
        }),
{
    law_pair_roundtrip(reply, Seq::empty());
    assert(pair_bytes(reply) + Seq::<u8>::empty() =~= pair_bytes(reply));
}

/// Where a pair request stands after an event. It is answered by a readable pair message for the
/// same side of the same token. It fails where the channel ends and on a pair message that cannot
/// be read. Everything else lets it wait.
pub proof fn law_what_answers_a_request(
    is_initiator: bool,
    token: [u8; 32],
    event: Option<ChannelEvent>,
)
    ensures
        ({
            let step = pair_step(is_initiator, token, event);
            let ended = event is None || event == Some(ChannelEvent::Closed);
            &&& step == PairStep::Failed(RelayError::ChannelClosed) <==> ended
            &&& event == Some(ChannelEvent::Opened) ==> step is Waiting
            &&& event matches Some(ChannelEvent::Message { message_type, data }) ==> {
                let p = parse_pair(data@);
                let fits = p matches Some((m, _)) && m.token == token && m.is_initiator
                    == is_initiator;
                &&& step == PairStep::Failed(RelayError::Encoding(EncodingError::OutOfBounds))
                    <==> message_type == 0 && p is None
                &&& step is Failed ==> message_type == 0 && p is None
                &&& step is Paired <==> message_type == 0 && fits
                &&& step matches PairStep::Paired(x) ==> p matches Some((m, _)) && x.remote_id
                    == m.id
            }
        }),
{
}

/// The words for each error: where there is a reason, it follows them.
pub proof fn law_words_for_relay_errors(reason: String, e: EncodingError)
    ensures
        RelayError::Protomux(reason).text() == "protomux error: "@ + reason@,
        RelayError::Encoding(e).text() == "encoding error: "@ + e.text(),
        RelayError::ChannelClosed.text() == "channel closed before pair response"@,
        RelayError::Destroyed.text() == "relay client destroyed"@,
        RelayError::AlreadyPairing.text() == "already pairing with this token"@,
{
}

} // verus!
