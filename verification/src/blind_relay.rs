//! The blind relay: `pair` and `unpair` messages keyed by a 32-byte token, the client's side of
//! the exchange, and the pairing engine that a relay shares between its sessions.
//!
//! Each accepted connection of a relay has a [`BlindRelaySession`]; all of them share one
//! [`BlindRelayServer`]. Once both sides of a token have sent a pair message, the server yields a
//! [`MatchedPairing`]. The caller then creates two data-plane streams and bridges them. Nothing
//! here looks at what is relayed.

pub mod bridging;
pub mod client;
pub mod codec;
pub mod history;
pub mod laws;
pub mod server;
pub mod session;

pub use self::client::{
    BlindRelayClient, ChannelCommand, ChannelEvent, PairResponse, PairStep, RelayError,
};
pub use self::codec::{
    decode_pair, decode_pair_from_slice, decode_unpair, decode_unpair_from_slice, encode_pair,
    encode_pair_to_vec, encode_unpair, encode_unpair_to_vec, preencode_pair, preencode_unpair,
    PairMessage, UnpairMessage, MSG_TYPE_PAIR, MSG_TYPE_UNPAIR, PROTOCOL_NAME,
};
pub use self::server::{
    BlindRelayServer, BlindRelayServerConfig, MatchedPairing, MatchedSide, PairOutcome,
    RelayStats, RelayStatsSnapshot, SessionOutbound, Signal, UnpairOutcome,
};
pub use self::session::{BlindRelaySession, SessionAction, SessionEvent};
