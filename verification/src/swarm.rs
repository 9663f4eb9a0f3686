//! Rules of a swarm: its configuration, how long a failed peer waits, which of two crossing
//! connections stays, and the state of topics, peers and connections.

pub mod handshake;
pub mod holepunch;
pub mod laws;
pub mod state;

pub use self::holepunch::PassivePunches;
pub use self::state::SwarmState;

use vstd::prelude::*;

use crate::ascii::ascii_chars;
use crate::hyperdht_messages::StreamIds;
use crate::messages::Ipv4Peer;
use crate::outside::random_below;
use crate::peer_discovery::{first_four, hex_of, hex_short};
use crate::peer_info::PeerInfo;

verus! {

/// Connections that a swarm keeps by default.
pub const DEFAULT_MAX_PEERS: usize = 64;

/// Dials that a swarm makes at once by default.
pub const DEFAULT_MAX_PARALLEL: usize = 3;

/// An identity: a public key and the secret that belongs to it.
#[derive(Debug, Clone, Copy)]
pub struct KeyPair {
    /// The public key.
    pub public_key: [u8; 32],
    /// The secret key.
    pub secret_key: [u8; 64],
}

/// Configuration of a swarm.
#[derive(Debug)]
#[non_exhaustive]
pub struct SwarmConfig {
    /// Identity of the swarm. A fresh one is made where there is none.
    pub key_pair: Option<KeyPair>,
    /// Maximum total peer connections.
    pub max_peers: usize,
    /// Maximum concurrent outgoing connection attempts.
    pub max_parallel: usize,
    /// Firewall value sent in handshakes.
    pub firewall: u64,
    /// Public key of a relay to force all server connections through.
    pub relay_through: Option<[u8; 32]>,
    /// Address of that relay.
    pub relay_address: Option<Ipv4Peer>,
    /// Whether peers behind the same NAT connect over the local network.
    pub local_connection: bool,
}

impl Default for SwarmConfig {
    fn default() -> (r: Self)
        ensures
            r == (SwarmConfig {
                key_pair: None,
                max_peers: DEFAULT_MAX_PEERS,
                max_parallel: DEFAULT_MAX_PARALLEL,
                firewall: 0,
                relay_through: None,
                relay_address: None,
                local_connection: true,
            }),
    {
        SwarmConfig {
            key_pair: None,
            max_peers: DEFAULT_MAX_PEERS,
            max_parallel: DEFAULT_MAX_PARALLEL,
            firewall: 0,
            relay_through: None,
            relay_address: None,
            local_connection: true,
        }
    }
}

/// Options for joining a topic.
#[derive(Debug, Clone, Copy)]
#[non_exhaustive]
pub struct JoinOpts {
    /// Announce on this topic.
    pub server: bool,
    /// Look up peers on this topic.
    pub client: bool,
}

impl Default for JoinOpts {
    fn default() -> (r: Self)
        ensures
            r.server,
            r.client,
    {
        JoinOpts { server: true, client: true }
    }
}

/// The port that a swarm announces: that of the socket on which its streams arrive, and that of
/// the DHT where there is no such socket or its port cannot be told.
pub fn primary_port(dht_port: u16, stream_socket: Option<Option<u16>>) -> (r: u16)
    ensures
        r == (match stream_socket {
            Some(Some(port)) => port,
            _ => dht_port,
        }),
{
    match stream_socket {
        Some(Some(port)) => port,
        _ => dht_port,
    }
}

/// The next stream id of the swarm.
pub fn next_stream_id(ids: &mut StreamIds) -> (r: u32)
    ensures
        r == old(ids).upcoming(),
        final(ids).upcoming() == (if old(ids).upcoming() == u32::MAX {
            0
        } else {
            old(ids).upcoming() + 1
        }),
{
    ids.take()
}

/// The first four bytes in hexadecimal, for logs.
pub fn short_hex(bytes: &[u8]) -> (r: String)
    ensures
        r@ == ascii_chars(hex_of(first_four(bytes@))),
{
    hex_short(bytes)
}

// ── Retry backoff ────────────────────────────────────────────────────────────

/// How long to wait before a retry: a base, and three random parts below their bounds, all in
/// milliseconds.
#[derive(Debug, Clone, Copy)]
pub struct Backoff {
    /// The base.
    pub base: u64,
    /// Bound of the first random part.
    pub jitter1: u64,
    /// Bound of the second random part.
    pub jitter2: u64,
    /// Bound of the third random part.
    pub jitter3: u64,
}

/// The waiting time of each step, the last one for all further steps.
pub open spec fn backoff_at(step: int) -> Backoff {
    if step <= 0 {
        Backoff { base: 1000, jitter1: 250, jitter2: 100, jitter3: 50 }
    } else if step == 1 {
        Backoff { base: 5000, jitter1: 1000, jitter2: 500, jitter3: 250 }
    } else if step == 2 {
        Backoff { base: 15_000, jitter1: 5000, jitter2: 2500, jitter3: 1000 }
    } else {
        Backoff { base: 600_000, jitter1: 60_000, jitter2: 30_000, jitter3: 15_000 }
    }
}

/// The waiting time of a peer: it grows with the dials so far, and a peer that never connected is
/// one step ahead.
pub open spec fn backoff_of(proven: bool, attempts: u32) -> Backoff {
    backoff_at(
        if proven {
            attempts as int
        } else {
            attempts + 1
        },
    )
}

/// The waiting time that a peer is due.
pub fn backoff(proven: bool, attempts: u32) -> (r: Backoff)
    ensures
        r == backoff_of(proven, attempts),
{
    let step: u32 = if proven {
        attempts
    } else if attempts >= 3 {
        3
    } else {
        attempts + 1
    };
    if step == 0 {
        Backoff { base: 1000, jitter1: 250, jitter2: 100, jitter3: 50 }
    } else if step == 1 {
        Backoff { base: 5000, jitter1: 1000, jitter2: 500, jitter3: 250 }
    } else if step == 2 {
        Backoff { base: 15_000, jitter1: 5000, jitter2: 2500, jitter3: 1000 }
    } else {
        Backoff { base: 600_000, jitter1: 60_000, jitter2: 30_000, jitter3: 15_000 }
    }
}

/// The delay before a retry of a peer, given the random parts, in milliseconds.
pub fn retry_delay_with(info: &PeerInfo, j1: u64, j2: u64, j3: u64) -> (r: u64)
    requires
        j1 < backoff_of(info.proven, info.attempts).jitter1,
        j2 < backoff_of(info.proven, info.attempts).jitter2,
        j3 < backoff_of(info.proven, info.attempts).jitter3,
    ensures
        r == backoff_of(info.proven, info.attempts).base + j1 + j2 + j3,
{
    let b = backoff(info.proven, info.attempts);
    b.base + (j1 + j2 + j3)
}

/// Whether a delay fits a waiting time.
pub open spec fn fits(delay: u64, b: Backoff) -> bool {
    b.base <= delay <= b.base + (b.jitter1 - 1) + (b.jitter2 - 1) + (b.jitter3 - 1)
}

/// The delay before a retry of a peer, in milliseconds.
pub fn retry_delay(info: &PeerInfo) -> (r: u64)
    ensures
        fits(r, backoff_of(info.proven, info.attempts)),
{
    let b = backoff(info.proven, info.attempts);
    let j1: u64 = random_below(b.jitter1);
    let j2: u64 = random_below(b.jitter2);
    let j3: u64 = random_below(b.jitter3);
    retry_delay_with(info, j1, j2, j3)
}

/// A peer that never connected waits at least as long as one that did, and more dials never
/// shorten the wait: whatever the random parts are.
pub proof fn law_backoff_grows(proven: bool, a: u32, b: u32, x: u64, y: u64)
    requires
        a < b <= 3,
        fits(x, backoff_of(proven, a)),
        fits(y, backoff_of(proven, b)),
    ensures
        backoff_of(proven, a) != backoff_of(proven, b) ==> x < y,
        backoff_of(false, a).base >= backoff_of(true, a).base,
{
}

// ── Crossing connections ─────────────────────────────────────────────────────

/// Whether `a` comes after `b` in the order of keys, byte by byte.
pub open spec fn key_after(a: [u8; 32], b: [u8; 32]) -> bool {
    exists|i: int| #[trigger] differs_at(a, b, i) && a[i] > b[i]
}

/// Whether position `i` is the first where the keys differ.
pub open spec fn differs_at(a: [u8; 32], b: [u8; 32], i: int) -> bool {
    0 <= i < 32 && a[i] != b[i] && forall|j: int| 0 <= j < i ==> a[j] == b[j]
}

/// Compares two keys byte by byte.
pub fn is_key_after(a: &[u8; 32], b: &[u8; 32]) -> (r: bool)
    ensures
        r == key_after(*a, *b),
{
    let mut i: usize = 0;
    while i < 32
        invariant
            i <= 32,
            forall|j: int| 0 <= j < i ==> a[j] == b[j],
        decreases 32 - i,
    {
        if a[i] != b[i] {
            proof {
                assert(differs_at(*a, *b, i as int));
                assert forall|k: int| #[trigger] differs_at(*a, *b, k) implies k == i by {
                    if k < i {
                        assert(a[k] == b[k]);
                    }
                    if i < k {
                        assert(a[i as int] == b[i as int]);
                    }
                }
            }
            return a[i] > b[i];
        }
        i += 1;
    }
    false
}

/// Of two different keys exactly one comes after the other.
pub proof fn law_key_order_is_total(a: [u8; 32], b: [u8; 32])
    requires
        a != b,
    ensures
        key_after(a, b) != key_after(b, a),
{
    assert(exists|i: int| 0 <= i < 32 && a[i] != b[i]) by {
        if forall|i: int| 0 <= i < 32 ==> a[i] == b[i] {
            assert(a =~= b);
        }
    }
    let w = choose|i: int| 0 <= i < 32 && a[i] != b[i];
    let i = first_difference(a, b, w);
    assert(differs_at(b, a, i));
    assert forall|k: int| #[trigger] differs_at(a, b, k) implies k == i by {
        if k < i {
            assert(a[k] == b[k]);
        }
        if i < k {
            assert(a[i] == b[i]);
        }
    }
    assert forall|k: int| #[trigger] differs_at(b, a, k) implies k == i by {
        if k < i {
            assert(a[k] == b[k]);
        }
        if i < k {
            assert(b[i] == a[i]);
        }
    }
}

proof fn first_difference(a: [u8; 32], b: [u8; 32], w: int) -> (i: int)
    requires
        0 <= w < 32,
        a[w] != b[w],
    ensures
        differs_at(a, b, i),
    decreases w,
{
    if forall|j: int| 0 <= j < w ==> a[j] == b[j] {
        w
    } else {
        let v = choose|j: int| 0 <= j < w && a[j] != b[j];
        first_difference(a, b, v)
    }
}

/// Whether a connection that is there stays when a dialled one comes up: the one that the greater
/// key dialled stays.
pub open spec fn keeps_existing(own: [u8; 32], peer: [u8; 32], existing_is_initiator: bool) -> bool {
    existing_is_initiator == key_after(own, peer)
}

/// When two peers dial each other and each sees the other's connection first, both keep the same
/// one of the two: one of them its own, and the other the inbound one.
pub proof fn law_crossing_dials_agree(a: [u8; 32], b: [u8; 32])
    requires
        a != b,
    ensures
        keeps_existing(a, b, false) != keeps_existing(b, a, false),
{
    law_key_order_is_total(a, b);
}

/// How long a peer waits after so many dials: a peer that connected before about one second after
/// none, five after one, fifteen after two and ten minutes after more. One that never connected
/// waits as if it had been dialled once more.
pub proof fn law_waiting_times(proven: bool, attempts: u32, delay: u64)
    ensures
        ({
            let b = backoff_of(proven, attempts);
            let dials = if proven {
                attempts as int
            } else {
                attempts + 1
            };
            &&& dials == 0 ==> b.base == 1000 && b.jitter1 == 250 && b.jitter2 == 100 && b.jitter3
                == 50
            &&& dials == 1 ==> b.base == 5000 && b.jitter1 == 1000 && b.jitter2 == 500
                && b.jitter3 == 250
            &&& dials == 2 ==> b.base == 15_000 && b.jitter1 == 5000 && b.jitter2 == 2500
                && b.jitter3 == 1000
            &&& dials >= 3 ==> b.base == 600_000 && b.jitter1 == 60_000 && b.jitter2 == 30_000
                && b.jitter3 == 15_000
            &&& fits(delay, b) <==> {
                ||| dials == 0 && 1000 <= delay <= 1397
                ||| dials == 1 && 5000 <= delay <= 6747
                ||| dials == 2 && 15_000 <= delay <= 23_497
                ||| dials >= 3 && 600_000 <= delay <= 704_997
            }
        }),
{
}

/// Bytes as a number, the first one the highest.
pub open spec fn number_of(b: Seq<u8>) -> int
    decreases b.len(),
{
    if b.len() == 0 {
        0
    } else {
        number_of(b.drop_last()) * 256 + b.last()
    }
}

proof fn lemma_numbers(a: Seq<u8>, b: Seq<u8>, i: int, n: int)
    requires
        a.len() == b.len(),
        0 <= i < a.len(),
        i <= n <= a.len(),
        forall|j: int| 0 <= j < i ==> a[j] == b[j],
        a[i] > b[i],
    ensures
        n == i ==> number_of(a.take(n)) == number_of(b.take(n)),
        n > i ==> number_of(a.take(n)) > number_of(b.take(n)),
    decreases n,
{
    if n == i {
        assert(a.take(n) =~= b.take(n));
    } else {
        lemma_numbers(a, b, i, n - 1);
        assert(a.take(n).drop_last() =~= a.take(n - 1));
        assert(b.take(n).drop_last() =~= b.take(n - 1));
    }
}

proof fn lemma_key_after(a: [u8; 32], b: [u8; 32])
    ensures
        key_after(a, b) ==> number_of(a@) > number_of(b@),
{
    if key_after(a, b) {
        let i = choose|i: int| #[trigger] differs_at(a, b, i) && a[i] > b[i];
        lemma_numbers(a@, b@, i, 32);
        assert(a@.take(32) =~= a@);
        assert(b@.take(32) =~= b@);
    }
}

/// Keys are ordered as the numbers that their bytes spell.
pub proof fn law_keys_are_ordered_as_numbers(a: [u8; 32], b: [u8; 32])
    ensures
        key_after(a, b) <==> number_of(a@) > number_of(b@),
{
    lemma_key_after(a, b);
    lemma_key_after(b, a);
    if a != b {
        law_key_order_is_total(a, b);
    }
}

/// Of two crossing connections the one that the peer with the greater key dialled stays: a peer
/// keeps one that it dialled where its own key is the greater one, and one that it was dialled
/// through where it is not.
pub proof fn law_greater_key_dials(own: [u8; 32], peer: [u8; 32])
    ensures
        keeps_existing(own, peer, true) <==> number_of(own@) > number_of(peer@),
        keeps_existing(own, peer, false) <==> number_of(own@) <= number_of(peer@),
{
    law_keys_are_ordered_as_numbers(own, peer);
}

} // verus!
