//! Blind relay, NAT classification and swarm logic for a HyperDHT node.

pub mod ascii;
pub mod blind_relay;
pub mod bytes;
pub mod compact_encoding;
pub mod counter;
pub mod hyperdht_messages;
pub mod ip;
pub mod ip6;
pub mod le;
pub mod messages;
pub mod nat_analysis;
pub mod outside;
pub mod peer_discovery;
pub mod peer_info;
pub mod relay_command;
pub mod relay_service;
pub mod socket_pool;
pub mod swarm;
pub mod table;
