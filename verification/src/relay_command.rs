//! The `relay` command: its arguments, and the settings that they and the configuration file lead
//! to.

use vstd::prelude::*;
use vstd::utf8::encode_utf8;

use crate::ascii::{ascii_chars, lemma_ascii_utf8};
use crate::blind_relay::server::BlindRelayServerConfig;
use crate::bytes::{key_of, lemma_key_bytes, lemma_key_of};
use crate::outside::{all_hex, hex_decode, hex_digit, unhex, HexError};
use crate::peer_discovery::{digit_value, hex_of, law_hex_spells_the_bytes, spells};

verus! {

/// Port that a relay binds by default.
pub const DEFAULT_PORT: u16 = 49737;

/// Seconds between two lines of statistics by default.
pub const DEFAULT_STATS_INTERVAL: u64 = 60;

/// Arguments of the command.
#[derive(Debug)]
pub struct RelayArgs {
    /// Bind port.
    pub port: Option<u16>,
    /// Bind address.
    pub host: Option<String>,
    /// Hex-encoded 32-byte seed for a deterministic identity key pair.
    pub key_seed: Option<String>,
    /// How often to log statistics, in seconds.
    pub stats_interval: Option<u64>,
    /// Maximum concurrently accepted relay sessions.
    pub max_sessions: Option<usize>,
    /// Maximum concurrent pending and active pairings per session.
    pub max_pairings_per_session: Option<usize>,
    /// Drop an unmatched pairing after this many seconds.
    pub pairing_timeout: Option<u64>,
    /// Close a session with no pair or unpair activity for this many seconds.
    pub idle_session_timeout: Option<u64>,
}

/// What the command runs with.
#[derive(Debug)]
pub struct RelaySettings {
    /// Bind port.
    pub port: u16,
    /// Bind address.
    pub host: String,
    /// Seconds between two lines of statistics.
    pub stats_interval: u64,
    /// Seed of the identity key pair; without one a fresh key pair is made.
    pub key_seed: Option<[u8; 32]>,
    /// Limits and timeouts of the relay.
    pub relay: BlindRelayServerConfig,
}

/// Why a key seed cannot be used.
#[derive(Debug, Clone, Copy)]
pub enum KeySeedError {
    /// It is not hexadecimal.
    InvalidHex(HexError),
    /// It does not have 32 bytes.
    WrongLength,
}

/// Why the arguments cannot be used.
#[derive(Debug, Clone, Copy)]
pub enum RelayArgsError {
    /// The interval between two lines of statistics is zero.
    ZeroStatsInterval,
    /// The key seed cannot be used.
    KeySeed(KeySeedError),
}

/// Whether `e` says why `b` is not hexadecimal.
pub open spec fn explains(e: HexError, b: Seq<u8>) -> bool {
    match e {
        HexError::OddLength => b.len() % 2 == 1,
        HexError::InvalidHexCharacter { c, index } => {
            &&& b.len() % 2 == 0
            &&& index < b.len()
            &&& all_hex(b.take(index as int))
            &&& hex_digit(b[index as int]) is None
            &&& c == b[index as int] as char
        },
        HexError::InvalidStringLength => false,
    }
}

/// What comes of a key seed: none without one, its 32 bytes where it is 64 hexadecimal digits, and
/// an error otherwise.
pub open spec fn key_seed_outcome(
    seed_hex: Option<Seq<char>>,
    r: Result<Option<[u8; 32]>, KeySeedError>,
) -> bool {
    match seed_hex {
        None => r == Ok::<Option<[u8; 32]>, KeySeedError>(None),
        Some(text) => {
            let b = encode_utf8(text);
            if b.len() % 2 == 0 && all_hex(b) {
                r == (if b.len() == 64 {
                    Ok::<Option<[u8; 32]>, KeySeedError>(Some(key_of(unhex(b))))
                } else {
                    Err(KeySeedError::WrongLength)
                })
            } else {
                r matches Err(KeySeedError::InvalidHex(e)) && explains(e, b)
            }
        },
    }
}

/// View of an optional text.
pub open spec fn text_view(t: Option<&str>) -> Option<Seq<char>> {
    match t {
        Some(s) => Some(s@),
        None => None,
    }
}

/// View of an optional owned text.
pub open spec fn string_view(t: Option<String>) -> Option<Seq<char>> {
    match t {
        Some(s) => Some(s@),
        None => None,
    }
}

/// Takes exactly 32 bytes as a key.
pub fn key_from_bytes(bytes: &Vec<u8>) -> (r: Option<[u8; 32]>)
    ensures
        r == (if bytes@.len() == 32 { Some(key_of(bytes@)) } else { None::<[u8; 32]> }),
{
    if bytes.len() != 32 {
        return None;
    }
    let mut key: [u8; 32] = [0u8; 32];
    let mut i: usize = 0;
    while i < 32
        invariant
            i <= 32,
            bytes@.len() == 32,
            forall|j: int| 0 <= j < i ==> key@[j] == bytes@[j],
        decreases 32 - i,
    {
        key[i] = bytes[i];
        i += 1;
    }
    proof {
        assert(key@ =~= bytes@);
        lemma_key_of(key);
    }
    Some(key)
}

/// Reads the seed of the identity key pair.
pub fn parse_key_seed(seed_hex: Option<&str>) -> (r: Result<Option<[u8; 32]>, KeySeedError>)
    ensures
        key_seed_outcome(text_view(seed_hex), r),
{
    match seed_hex {
        None => Ok(None),
        Some(text) => match hex_decode(text) {
            Err(e) => {
                proof {
                    let b = encode_utf8(text@);
                    if let HexError::InvalidHexCharacter { c, index } = e {
                        assert(hex_digit(b[index as int]) is None);
                    }
                }
                Err(KeySeedError::InvalidHex(e))
            },
            Ok(bytes) => match key_from_bytes(&bytes) {
                Some(seed) => Ok(Some(seed)),
                None => Err(KeySeedError::WrongLength),
            },
        },
    }
}

/// Seconds as nanoseconds.
pub fn seconds(s: u64) -> (r: u128)
    ensures
        r == s * 1_000_000_000,
{
    s as u128 * 1_000_000_000
}

/// The limits that the arguments ask for, and the usual ones where they ask for none.
pub open spec fn limits_of(args: RelayArgs) -> BlindRelayServerConfig {
    BlindRelayServerConfig {
        max_sessions: match args.max_sessions {
            Some(v) => v,
            None => 10_000,
        },
        max_pairings_per_session: match args.max_pairings_per_session {
            Some(v) => v,
            None => 256,
        },
        pairing_timeout: match args.pairing_timeout {
            Some(v) => (v * 1_000_000_000) as u128,
            None => 300_000_000_000,
        },
        idle_session_timeout: match args.idle_session_timeout {
            Some(v) => (v * 1_000_000_000) as u128,
            None => 600_000_000_000,
        },
    }
}

/// The limits of the relay.
pub fn relay_limits(args: &RelayArgs) -> (r: BlindRelayServerConfig)
    ensures
        r == limits_of(*args),
{
    let mut relay: BlindRelayServerConfig = Default::default();
    if let Some(v) = args.max_sessions {
        relay.max_sessions = v;
    }
    if let Some(v) = args.max_pairings_per_session {
        relay.max_pairings_per_session = v;
    }
    if let Some(v) = args.pairing_timeout {
        relay.pairing_timeout = seconds(v);
    }
    if let Some(v) = args.idle_session_timeout {
        relay.idle_session_timeout = seconds(v);
    }
    relay
}

/// The value of an argument, else that of the configuration file, else the usual one.
pub open spec fn first_set<T>(argument: Option<T>, configured: Option<T>, usual: T) -> T {
    match argument {
        Some(v) => v,
        None => match configured {
            Some(v) => v,
            None => usual,
        },
    }
}

/// Settles what the command runs with. Arguments come before the port and host of the
/// configuration file, and those before the usual values. A zero interval is found before a key
/// seed that cannot be used.
pub fn resolve(args: RelayArgs, node_port: Option<u16>, node_host: Option<String>) -> (r: Result<
    RelaySettings,
    RelayArgsError,
>)
    ensures
        match r {
            Ok(s) => {
                &&& s.port == first_set(args.port, node_port, DEFAULT_PORT)
                &&& s.host@ == first_set(
                    string_view(args.host),
                    string_view(node_host),
                    "0.0.0.0"@,
                )
                &&& s.stats_interval == first_set(args.stats_interval, None, DEFAULT_STATS_INTERVAL)
                &&& s.stats_interval != 0
                &&& key_seed_outcome(string_view(args.key_seed), Ok(s.key_seed))
                &&& s.relay == limits_of(args)
            },
            Err(RelayArgsError::ZeroStatsInterval) => args.stats_interval == Some(0u64),
            Err(RelayArgsError::KeySeed(e)) => args.stats_interval != Some(0u64)
                && key_seed_outcome(string_view(args.key_seed), Err(e)),
        },
{
    let port: u16 = match args.port {
        Some(p) => p,
        None => match node_port {
            Some(p) => p,
            None => DEFAULT_PORT,
        },
    };
    let stats_interval: u64 = match args.stats_interval {
        Some(s) => s,
        None => DEFAULT_STATS_INTERVAL,
    };
    if stats_interval == 0 {
        return Err(RelayArgsError::ZeroStatsInterval);
    }
    let seed_text: Option<&str> = match &args.key_seed {
        Some(s) => Some(s.as_str()),
        None => None,
    };
    let key_seed: Option<[u8; 32]> = match parse_key_seed(seed_text) {
        Ok(s) => s,
        Err(e) => {
            return Err(RelayArgsError::KeySeed(e));
        },
    };
    let relay = relay_limits(&args);
    let host: String = match args.host {
        Some(h) => h,
        None => match node_host {
            Some(h) => h,
            None => "0.0.0.0".to_owned(),
        },
    };
    Ok(RelaySettings { port, host, stats_interval, key_seed, relay })
}

/// An argument comes before the configuration file, and that before the usual value.
pub proof fn law_arguments_come_first<T>(argument: Option<T>, configured: Option<T>, usual: T)
    ensures
        argument is Some ==> Some(first_set(argument, configured, usual)) == argument,
        argument is None && configured is Some ==> Some(first_set(argument, configured, usual))
            == configured,
        argument is None && configured is None ==> first_set(argument, configured, usual) == usual,
{
}

/// Each limit is the one asked for, the timeouts in seconds, however small or large, and else the
/// usual one.
pub proof fn law_limits_are_as_asked(args: RelayArgs)
    ensures
        ({
            let r = limits_of(args);
            &&& args.max_sessions matches Some(v) ==> r.max_sessions == v
            &&& args.max_sessions is None ==> r.max_sessions == 10_000
            &&& args.max_pairings_per_session matches Some(v) ==> r.max_pairings_per_session == v
            &&& args.max_pairings_per_session is None ==> r.max_pairings_per_session == 256
            &&& args.pairing_timeout matches Some(v) ==> r.pairing_timeout == v * 1_000_000_000
            &&& args.pairing_timeout is None ==> r.pairing_timeout == 300 * 1_000_000_000
            &&& args.idle_session_timeout matches Some(v) ==> r.idle_session_timeout == v
                * 1_000_000_000
            &&& args.idle_session_timeout is None ==> r.idle_session_timeout == 600
                * 1_000_000_000
        }),
{
}

/// A key written out in hexadecimal is taken as the seed that it is, and as no other.
pub proof fn law_key_seed_reads_back(
    key: [u8; 32],
    r: Result<Option<[u8; 32]>, KeySeedError>,
)
    requires
        key_seed_outcome(Some(ascii_chars(hex_of(key@))), r),
    ensures
        r == Ok::<Option<[u8; 32]>, KeySeedError>(Some(key)),
{
    let b = hex_of(key@);
    law_hex_spells_the_bytes(key@);
    assert forall|i: int| 0 <= i < b.len() implies hex_digit(#[trigger] b[i]) is Some && hex_digit(
        b[i],
    )->0 == digit_value(b[i]) && b[i] < 128 by {
        let x = key@[i / 2];
        assert(spells(b[2 * (i / 2)], b[2 * (i / 2) + 1], x));
        assert(i == 2 * (i / 2) || i == 2 * (i / 2) + 1);
    }
    lemma_ascii_utf8(b);
    assert(unhex(b) =~= key@) by {
        assert forall|i: int| 0 <= i < 32 implies unhex(b)[i] == key@[i] by {
            assert(spells(b[2 * i], b[2 * i + 1], key@[i]));
            assert(hex_digit(b[2 * i])->0 == digit_value(b[2 * i]));
            assert(hex_digit(b[2 * i + 1])->0 == digit_value(b[2 * i + 1]));
        }
    }
    lemma_key_of(key);
}

/// A seed of 64 hexadecimal digits, in either case, is taken digit by digit, and no other text is
/// taken. Without a seed there is none.
pub proof fn law_key_seed_is_its_digits(
    seed_hex: Option<Seq<char>>,
    r: Result<Option<[u8; 32]>, KeySeedError>,
)
    requires
        key_seed_outcome(seed_hex, r),
    ensures
        seed_hex is None <==> r == Ok::<Option<[u8; 32]>, KeySeedError>(None),
        r matches Ok(Some(key)) ==> {
            let b = encode_utf8(seed_hex->0);
            &&& b.len() == 64
            &&& forall|i: int|
                0 <= i < 64 ==> 48 <= #[trigger] b[i] <= 57 || 65 <= b[i] <= 70 || 97 <= b[i]
                    <= 102
            &&& forall|i: int|
                0 <= i < 32 ==> #[trigger] key@[i] == 16 * hex_digit(b[2 * i])->0 + hex_digit(
                    b[2 * i + 1],
                )->0
        },
        seed_hex matches Some(text) ==> (r is Err <==> encode_utf8(text).len() != 64 || exists|
            i: int,
        |
            0 <= i < 64 && hex_digit(#[trigger] encode_utf8(text)[i]) is None),
{
    if let Some(text) = seed_hex {
        let b = encode_utf8(text);
        if b.len() == 64 && all_hex(b) {
            lemma_key_bytes(unhex(b));
            assert forall|i: int| 0 <= i < 32 implies #[trigger] unhex(b)[i] == 16 * hex_digit(
                b[2 * i],
            )->0 + hex_digit(b[2 * i + 1])->0 by {
                assert(hex_digit(b[2 * i]) is Some);
                assert(hex_digit(b[2 * i + 1]) is Some);
            }
            assert forall|i: int| 0 <= i < 64 implies 48 <= #[trigger] b[i] <= 57 || 65 <= b[i]
                <= 70 || 97 <= b[i] <= 102 by {
                assert(hex_digit(b[i]) is Some);
            }
        }
    }
}

} // verus!
