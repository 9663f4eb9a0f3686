//! The pairing engine of a relay: pending and active pairings, session slots, limits, timeouts
//! and statistics.
//!
//! The engine never touches a transport. A session's outbound queue and a bridge's teardown
//! trigger are known to it as handles that the caller chose. What has to be delivered to them is
//! put on a list of [`Signal`]s, which the caller takes with [`BlindRelayServer::take_signals`].
//! Instants and durations are in nanoseconds; instants count from any fixed moment.

use std::collections::HashMap;

use vstd::prelude::*;

use super::bridging::{
    bridging_at, count_shares, drop_shares, find_bridging, others, shares, Bridging,
};
use crate::counter::{
    count_down, count_up, gauge_down, gauge_up, lemma_wrap_steps, wrap_i64, wrap_u64,
};
use crate::table::{keys_of, Table, ValueTest};

verus! {

broadcast use vstd::std_specs::hash::group_hash_axioms;

/// Configuration limits for a [`BlindRelayServer`].
#[derive(Debug, Clone, Copy)]
#[non_exhaustive]
pub struct BlindRelayServerConfig {
    /// Maximum number of concurrently accepted sessions.
    pub max_sessions: usize,
    /// Maximum number of concurrent pending and active pairings a single session may hold.
    pub max_pairings_per_session: usize,
    /// How long an unmatched pairing may wait for its other side before it is dropped.
    pub pairing_timeout: u128,
    /// How long a session may go without pair or unpair messages before it is closed.
    pub idle_session_timeout: u128,
}

impl Default for BlindRelayServerConfig {
    fn default() -> (r: Self)
        ensures
            r.max_sessions == 10_000,
            r.max_pairings_per_session == 256,
            r.pairing_timeout == 300_000_000_000,
            r.idle_session_timeout == 600_000_000_000,
    {
        BlindRelayServerConfig {
            max_sessions: 10_000,
            max_pairings_per_session: 256,
            pairing_timeout: 300_000_000_000,
            idle_session_timeout: 600_000_000_000,
        }
    }
}

/// Relay statistics. Counters wrap around at the width of their type.
#[derive(Debug, Clone, Copy)]
#[non_exhaustive]
pub struct RelayStats {
    /// Total sessions ever accepted.
    pub sessions_accepted: u64,
    /// Currently open sessions.
    pub sessions_active: i64,
    /// Total pairing requests ever received, refused ones included.
    pub pairings_requested: u64,
    /// Total pairings that matched both sides.
    pub pairings_matched: u64,
    /// Total pairings cancelled before a match, by unpair, timeout or session close.
    pub pairings_cancelled: u64,
    /// Currently pending (registered, unmatched) pairings.
    pub pairings_pending: i64,
    /// Currently active pairings: matched, whether their streams are bridged already or not.
    pub pairings_active: i64,
    /// Total data-plane streams ever opened: two for each pairing that is bridged.
    pub streams_opened: u64,
    /// Total data-plane streams ever closed: two for each bridged pairing that ends.
    pub streams_closed: u64,
    /// Total data-plane stream errors: one for each match that could not be bridged.
    pub streams_errors: u64,
}

/// Point-in-time snapshot of [`RelayStats`].
#[derive(Debug, Clone, Copy)]
#[non_exhaustive]
pub struct RelayStatsSnapshot {
    /// See [`RelayStats::sessions_accepted`].
    pub sessions_accepted: u64,
    /// See [`RelayStats::sessions_active`].
    pub sessions_active: i64,
    /// See [`RelayStats::pairings_requested`].
    pub pairings_requested: u64,
    /// See [`RelayStats::pairings_matched`].
    pub pairings_matched: u64,
    /// See [`RelayStats::pairings_cancelled`].
    pub pairings_cancelled: u64,
    /// See [`RelayStats::pairings_pending`].
    pub pairings_pending: i64,
    /// See [`RelayStats::pairings_active`].
    pub pairings_active: i64,
    /// See [`RelayStats::streams_opened`].
    pub streams_opened: u64,
    /// See [`RelayStats::streams_closed`].
    pub streams_closed: u64,
    /// See [`RelayStats::streams_errors`].
    pub streams_errors: u64,
}

/// All counters at zero.
pub open spec fn zero_stats() -> RelayStats {
    RelayStats {
        sessions_accepted: 0,
        sessions_active: 0,
        pairings_requested: 0,
        pairings_matched: 0,
        pairings_cancelled: 0,
        pairings_pending: 0,
        pairings_active: 0,
        streams_opened: 0,
        streams_closed: 0,
        streams_errors: 0,
    }
}

/// The snapshot that holds the same numbers.
pub open spec fn snapshot_of(s: RelayStats) -> RelayStatsSnapshot {
    RelayStatsSnapshot {
        sessions_accepted: s.sessions_accepted,
        sessions_active: s.sessions_active,
        pairings_requested: s.pairings_requested,
        pairings_matched: s.pairings_matched,
        pairings_cancelled: s.pairings_cancelled,
        pairings_pending: s.pairings_pending,
        pairings_active: s.pairings_active,
        streams_opened: s.streams_opened,
        streams_closed: s.streams_closed,
        streams_errors: s.streams_errors,
    }
}

impl Default for RelayStats {
    fn default() -> (r: Self)
        ensures
            r == zero_stats(),
    {
        RelayStats {
            sessions_accepted: 0,
            sessions_active: 0,
            pairings_requested: 0,
            pairings_matched: 0,
            pairings_cancelled: 0,
            pairings_pending: 0,
            pairings_active: 0,
            streams_opened: 0,
            streams_closed: 0,
            streams_errors: 0,
        }
    }
}

impl Default for RelayStatsSnapshot {
    fn default() -> (r: Self)
        ensures
            r == snapshot_of(zero_stats()),
    {
        let stats: RelayStats = Default::default();
        stats.snapshot()
    }
}

impl RelayStats {
    /// Takes a point-in-time snapshot of all counters.
    pub fn snapshot(&self) -> (r: RelayStatsSnapshot)
        ensures
            r == snapshot_of(*self),
    {
        RelayStatsSnapshot {
            sessions_accepted: self.sessions_accepted,
            sessions_active: self.sessions_active,
            pairings_requested: self.pairings_requested,
            pairings_matched: self.pairings_matched,
            pairings_cancelled: self.pairings_cancelled,
            pairings_pending: self.pairings_pending,
            pairings_active: self.pairings_active,
            streams_opened: self.streams_opened,
            streams_closed: self.streams_closed,
            streams_errors: self.streams_errors,
        }
    }
}

/// One side of a matched pairing, handed to the caller so that it can create the data-plane
/// stream for that side and reply on the wire.
#[derive(Debug, Clone, Copy)]
#[non_exhaustive]
pub struct MatchedSide {
    /// The session that registered this side of the pairing.
    pub session_id: u64,
    /// Whether this side identified itself as the initiator.
    pub is_initiator: bool,
    /// The stream id of this side's pair message: the client's own local stream id.
    pub client_stream_id: u64,
    /// Handle of this side's outbound queue, for [`SessionOutbound::PairMatched`].
    pub outbound_tx: u64,
}

/// Both sides of a pairing that just matched. The caller creates one data-plane stream per side,
/// bridges them, and notifies each side through its `outbound_tx`.
#[derive(Debug, Clone, Copy)]
#[non_exhaustive]
pub struct MatchedPairing {
    /// The relay token that was matched.
    pub token: [u8; 32],
    /// The side that registered first.
    pub first: MatchedSide,
    /// The side that registered second and completed the match.
    pub second: MatchedSide,
}

/// Instructions to a session's driver.
#[derive(Debug, Clone, Copy)]
#[non_exhaustive]
pub enum SessionOutbound {
    /// Send a pair reply on the wire with this relay-assigned local stream id.
    PairMatched {
        /// The token that matched.
        token: [u8; 32],
        /// This side's `is_initiator` flag, echoed back.
        is_initiator: bool,
        /// The relay's own local stream id for this side.
        local_stream_id: u64,
    },
    /// Close this session.
    Close,
}

/// Outcome of registering a pair request with [`BlindRelayServer::try_pair`].
#[derive(Debug, Clone, Copy)]
#[non_exhaustive]
pub enum PairOutcome {
    /// Registered; waiting for the other side of the token.
    Pending,
    /// This side of the token is already registered.
    AlreadyPairing,
    /// Both sides are now present: the caller must wire the data plane.
    Matched(MatchedPairing),
    /// The session holds as many pairings as it may.
    LimitExceeded,
}

/// Outcome of [`BlindRelayServer::unpair`].
#[derive(Debug, Clone, Copy, PartialEq, Eq, Structural)]
#[non_exhaustive]
pub enum UnpairOutcome {
    /// A pending pairing was cancelled.
    Cancelled,
    /// An active pairing was destroyed.
    Destroyed,
    /// No pairing was found for this token.
    NotFound,
}

/// Something the caller has to deliver.
#[derive(Debug, Clone, Copy, PartialEq, Eq, Structural)]
pub enum Signal {
    /// Drop the bridged streams behind this teardown handle.
    Teardown(u64),
    /// Put [`SessionOutbound::Close`] on the outbound queue behind this handle.
    Close(u64),
}

/// The side of a pairing that waits for the other one.
#[derive(Debug, Clone, Copy)]
pub struct PendingLink {
    /// The session that registered it.
    pub session_id: u64,
    /// Which side it is.
    pub is_initiator: bool,
    /// The client's own stream id.
    pub client_stream_id: u64,
    /// Handle of the session's outbound queue.
    pub outbound_tx: u64,
    /// When it was registered.
    pub created_at: u128,
}

/// A matched pairing whose streams the caller has wired up.
#[derive(Debug, Clone, Copy)]
pub struct ActivePairing {
    /// The two sessions it joins.
    pub session_ids: [u64; 2],
    /// Handle that drops its streams.
    pub teardown_tx: u64,
}

/// Time passed since `then`, zero where `then` lies ahead.
pub open spec fn elapsed(now: u128, then: u128) -> int {
    if now >= then {
        now - then
    } else {
        0
    }
}

/// Whether more than `timeout` has passed since `then`.
fn older_than(now: u128, then: u128, timeout: u128) -> (r: bool)
    ensures
        r == (elapsed(now, then) > timeout),
{
    now >= then && now - then > timeout
}

/// Whether a waiting side belongs to a session.
struct WaitsFor {
    session_id: u64,
}

impl ValueTest<PendingLink> for WaitsFor {
    closed spec fn passes(&self, l: PendingLink) -> bool {
        l.session_id == self.session_id
    }

    fn check(&self, l: &PendingLink) -> (r: bool) {
        l.session_id == self.session_id
    }
}

/// Whether an active pairing joins a session.
struct PartOf {
    session_id: u64,
}

impl ValueTest<ActivePairing> for PartOf {
    closed spec fn passes(&self, a: ActivePairing) -> bool {
        a.session_ids[0] == self.session_id || a.session_ids[1] == self.session_id
    }

    fn check(&self, a: &ActivePairing) -> (r: bool) {
        a.session_ids[0] == self.session_id || a.session_ids[1] == self.session_id
    }
}

/// Whether a side has waited longer than a timeout.
struct WaitingFor {
    now: u128,
    timeout: u128,
}

impl ValueTest<PendingLink> for WaitingFor {
    closed spec fn passes(&self, l: PendingLink) -> bool {
        elapsed(self.now, l.created_at) > self.timeout
    }

    fn check(&self, l: &PendingLink) -> (r: bool) {
        older_than(self.now, l.created_at, self.timeout)
    }
}

/// What has been seen of a list of keys after one more.
proof fn lemma_next_seen(keys: Seq<&u64>, at: int, seen: Set<u64>, all: Set<u64>)
    requires
        0 <= at < keys.len(),
        keys.no_duplicates(),
        keys.unref().to_set() == all,
        forall|s: u64| #[trigger]
            seen.contains(s) <==> exists|j: int| 0 <= j < at && (#[trigger] keys.unref()[j]) == s,
    ensures
        !seen.contains(*keys[at]),
        all.contains(*keys[at]),
        forall|s: u64| #[trigger]
            seen.insert(*keys[at]).contains(s) <==> exists|j: int|
                0 <= j < at + 1 && (#[trigger] keys.unref()[j]) == s,
        at + 1 == keys.len() ==> seen.insert(*keys[at]) == all,
{
    let ks = keys.unref();
    let id = *keys[at];
    assert(ks[at] == id);
    assert(ks.to_set().contains(id));
    if seen.contains(id) {
        let j = choose|j: int| 0 <= j < at && (#[trigger] ks[j]) == id;
        assert(keys[j] == keys[at]);
    }
    let next = seen.insert(id);
    assert forall|s: u64| #[trigger] next.contains(s) <==> exists|j: int|
        0 <= j < at + 1 && (#[trigger] ks[j]) == s by {
        if seen.contains(s) {
            let j = choose|j: int| 0 <= j < at && (#[trigger] ks[j]) == s;
            assert(ks[j] == s);
        }
    }
    if at + 1 == keys.len() {
        assert forall|s: u64| next.contains(s) <==> ks.to_set().contains(s) by {
            if ks.to_set().contains(s) {
                let j = choose|j: int| 0 <= j < ks.len() && ks[j] == s;
                assert(ks[j] == s);
            }
        }
        assert(next =~= all);
    }
}

/// The sessions that were silent for longer than a timeout.
fn silent_sessions(activity: &HashMap<u64, u128>, now: u128, timeout: u128) -> (r: Vec<u64>)
    ensures
        r@.no_duplicates(),
        r@.to_set() == keys_of(activity@, |last: u128| elapsed(now, last) > timeout),
{
    let ghost silent = |last: u128| elapsed(now, last) > timeout;
    let ghost mut seen: Set<u64> = Set::empty();
    let mut r: Vec<u64> = Vec::new();
    for id in it: activity.keys()
        invariant
            silent == (|last: u128| elapsed(now, last) > timeout),
            it.seq().no_duplicates(),
            it.seq().unref().to_set() == activity@.dom(),
            forall|s: u64| #[trigger]
                seen.contains(s) <==> exists|j: int|
                    0 <= j < it.index() && (#[trigger] it.seq().unref()[j]) == s,
            it.index() == it.seq().len() ==> seen == activity@.dom(),
            r@.no_duplicates(),
            forall|s: u64| #[trigger]
                r@.contains(s) <==> seen.contains(s) && silent(activity@[s]),
    {
        let ghost before = r@;
        proof {
            lemma_next_seen(it.seq(), it.index() as int, seen, activity@.dom());
            assert(!before.contains(*id));
            seen = seen.insert(*id);
        }
        if let Some(last) = activity.get(id) {
            if older_than(now, *last, timeout) {
                r.push(*id);
                assert(r@[before.len() as int] == *id);
            }
        }
        proof {
            assert forall|s: u64| #[trigger] r@.contains(s) <==> seen.contains(s) && silent(
                activity@[s],
            ) by {
                if before.contains(s) {
                    let j = choose|j: int| 0 <= j < before.len() && before[j] == s;
                    assert(r@[j] == s);
                }
            }
        }
    }
    assert(r@.to_set() =~= keys_of(activity@, silent));
    r
}

/// What a server holds, as mathematical maps and sequences.
#[verifier::ext_equal]
pub struct ServerModel {
    /// Limits and timeouts.
    pub config: BlindRelayServerConfig,
    /// The waiting side of each pending token.
    pub pending: Map<[u8; 32], PendingLink>,
    /// Pairings that matched and are not bridged yet, oldest first.
    pub bridging: Seq<Bridging>,
    /// The bridged pairing of each token.
    pub active: Map<[u8; 32], ActivePairing>,
    /// Session slots in use.
    pub session_count: u64,
    /// Id of the next session.
    pub next_session_id: u64,
    /// When each session was last heard of.
    pub activity: Map<u64, u128>,
    /// Outbound queue of each registered session.
    pub outbound: Map<u64, u64>,
    /// Statistics.
    pub stats: RelayStats,
    /// Signals that were not taken yet, oldest first.
    pub signals: Seq<Signal>,
}

/// The matched side that a waiting link becomes.
pub open spec fn side_of(l: PendingLink) -> MatchedSide {
    MatchedSide {
        session_id: l.session_id,
        is_initiator: l.is_initiator,
        client_stream_id: l.client_stream_id,
        outbound_tx: l.outbound_tx,
    }
}

/// `order` lists the members of `set`, each once.
pub open spec fn lists<A>(order: Seq<A>, set: Set<A>) -> bool {
    order.no_duplicates() && order.to_set() == set
}

impl ServerModel {
    /// A server without sessions and pairings.
    pub open spec fn fresh(config: BlindRelayServerConfig) -> Self {
        ServerModel {
            config,
            pending: Map::empty(),
            bridging: Seq::empty(),
            active: Map::empty(),
            session_count: 0,
            next_session_id: 1,
            activity: Map::empty(),
            outbound: Map::empty(),
            stats: zero_stats(),
            signals: Seq::empty(),
        }
    }

    /// Tokens on which the session waits.
    pub open spec fn pending_of(self, session_id: u64) -> Set<[u8; 32]> {
        keys_of(self.pending, |l: PendingLink| l.session_id == session_id)
    }

    /// Tokens of the active pairings that the session is part of.
    pub open spec fn active_of(self, session_id: u64) -> Set<[u8; 32]> {
        keys_of(
            self.active,
            |a: ActivePairing|
                a.session_ids[0] == session_id || a.session_ids[1] == session_id,
        )
    }

    /// Number of pairings that the session holds: those it waits on, and those that matched,
    /// bridged or not.
    pub open spec fn held(self, session_id: u64) -> nat {
        self.pending_of(session_id).len() + self.active_of(session_id).len() + shares(
            self.bridging,
            session_id,
        )
    }

    /// Number of pairings that matched and have not ended, bridged or not.
    pub open spec fn matched_now(self) -> int {
        self.bridging.len() as int + self.active.dom().len()
    }

    /// Tokens that have waited longer than the pairing timeout.
    pub open spec fn expired(self, now: u128) -> Set<[u8; 32]> {
        let timeout = self.config.pairing_timeout;
        keys_of(self.pending, |l: PendingLink| elapsed(now, l.created_at) > timeout)
    }

    /// Registered sessions that were silent for longer than the idle timeout.
    pub open spec fn idle(self, now: u128) -> Set<u64> {
        let timeout = self.config.idle_session_timeout;
        keys_of(self.activity, |last: u128| elapsed(now, last) > timeout).intersect(
            self.outbound.dom(),
        )
    }

    /// The session was heard of just now.
    pub open spec fn touched(self, session_id: u64, now: u128) -> Self {
        ServerModel { activity: self.activity.insert(session_id, now), ..self }
    }

    /// A session slot was taken.
    pub open spec fn accepted(self) -> Self {
        ServerModel {
            session_count: (self.session_count + 1) as u64,
            next_session_id: wrap_u64(self.next_session_id + 1),
            stats: RelayStats {
                sessions_accepted: wrap_u64(self.stats.sessions_accepted + 1),
                sessions_active: wrap_i64(self.stats.sessions_active + 1),
                ..self.stats
            },
            ..self
        }
    }

    /// What a pair request changes, and its outcome.
    pub open spec fn paired(
        self,
        token: [u8; 32],
        link: PendingLink,
        session_pairing_count: usize,
    ) -> (Self, PairOutcome) {
        let stats = RelayStats {
            pairings_requested: wrap_u64(self.stats.pairings_requested + 1),
            ..self.stats
        };
        let m = ServerModel { stats, ..self.touched(link.session_id, link.created_at) };
        if session_pairing_count >= self.config.max_pairings_per_session {
            (m, PairOutcome::LimitExceeded)
        } else if !self.pending.contains_key(token) {
            (
                ServerModel {
                    pending: self.pending.insert(token, link),
                    stats: RelayStats {
                        pairings_pending: wrap_i64(stats.pairings_pending + 1),
                        ..stats
                    },
                    ..m
                },
                PairOutcome::Pending,
            )
        } else if self.pending[token].is_initiator == link.is_initiator {
            (m, PairOutcome::AlreadyPairing)
        } else {
            (
                ServerModel {
                    pending: self.pending.remove(token),
                    bridging: self.bridging.push(
                        Bridging {
                            token,
                            first: self.pending[token].session_id,
                            second: link.session_id,
                        },
                    ),
                    stats: RelayStats {
                        pairings_pending: wrap_i64(stats.pairings_pending - 1),
                        pairings_matched: wrap_u64(stats.pairings_matched + 1),
                        pairings_active: wrap_i64(stats.pairings_active + 1),
                        ..stats
                    },
                    ..m
                },
                PairOutcome::Matched(
                    MatchedPairing {
                        token,
                        first: side_of(self.pending[token]),
                        second: side_of(link),
                    },
                ),
            )
        }
    }

    /// Whether a match of a token between two sessions is waiting to be bridged.
    pub open spec fn is_bridging(self, token: [u8; 32], a: u64, b: u64) -> bool {
        bridging_at(self.bridging, token, a, b) < self.bridging.len()
    }

    /// A pairing is bridged. It takes the place of a bridged pairing of the same token, and a match
    /// of the token between its sessions does not wait to be bridged any more.
    pub open spec fn marked(self, token: [u8; 32], pair: ActivePairing) -> Self {
        let (a, b) = (pair.session_ids[0], pair.session_ids[1]);
        ServerModel {
            bridging: if self.is_bridging(token, a, b) {
                self.bridging.remove(bridging_at(self.bridging, token, a, b))
            } else {
                self.bridging
            },
            active: self.active.insert(token, pair),
            stats: RelayStats {
                streams_opened: wrap_u64(self.stats.streams_opened + 2),
                ..self.stats
            },
            ..self
        }
    }

    /// A match of a token between two sessions is given up, because it could not be bridged.
    pub open spec fn abandoned(self, token: [u8; 32], a: u64, b: u64) -> Self {
        if self.is_bridging(token, a, b) {
            ServerModel {
                bridging: self.bridging.remove(bridging_at(self.bridging, token, a, b)),
                stats: RelayStats {
                    pairings_active: wrap_i64(self.stats.pairings_active - 1),
                    streams_errors: wrap_u64(self.stats.streams_errors + 1),
                    ..self.stats
                },
                ..self
            }
        } else {
            self
        }
    }

    /// What an unpair request changes, and its outcome.
    pub open spec fn unpaired(self, session_id: u64, token: [u8; 32], now: u128) -> (
        Self,
        UnpairOutcome,
    ) {
        let m = self.touched(session_id, now);
        if self.pending.contains_key(token) {
            if self.pending[token].session_id == session_id {
                (
                    ServerModel {
                        pending: self.pending.remove(token),
                        stats: RelayStats {
                            pairings_cancelled: wrap_u64(self.stats.pairings_cancelled + 1),
                            pairings_pending: wrap_i64(self.stats.pairings_pending - 1),
                            ..self.stats
                        },
                        ..m
                    },
                    UnpairOutcome::Cancelled,
                )
            } else {
                (m, UnpairOutcome::NotFound)
            }
        } else if self.active.contains_key(token) {
            (
                ServerModel {
                    active: self.active.remove(token),
                    stats: RelayStats {
                        pairings_active: wrap_i64(self.stats.pairings_active - 1),
                        streams_closed: wrap_u64(self.stats.streams_closed + 2),
                        ..self.stats
                    },
                    signals: self.signals.push(Signal::Teardown(self.active[token].teardown_tx)),
                    ..m
                },
                UnpairOutcome::Destroyed,
            )
        } else {
            (m, UnpairOutcome::NotFound)
        }
    }

    /// What the end of a session changes. `order` is the order in which its active pairings are
    /// told to tear down.
    pub open spec fn released(self, session_id: u64, order: Seq<[u8; 32]>) -> Self {
        let cancelled = self.pending_of(session_id);
        let destroyed = self.active_of(session_id);
        ServerModel {
            session_count: wrap_u64(self.session_count - 1),
            activity: self.activity.remove(session_id),
            outbound: self.outbound.remove(session_id),
            pending: self.pending.remove_keys(cancelled),
            bridging: others(self.bridging, session_id),
            active: self.active.remove_keys(destroyed),
            stats: RelayStats {
                sessions_active: wrap_i64(self.stats.sessions_active - 1),
                pairings_cancelled: wrap_u64(self.stats.pairings_cancelled + cancelled.len()),
                pairings_pending: wrap_i64(self.stats.pairings_pending - cancelled.len()),
                pairings_active: wrap_i64(
                    self.stats.pairings_active - destroyed.len() - shares(
                        self.bridging,
                        session_id,
                    ),
                ),
                streams_closed: wrap_u64(self.stats.streams_closed + 2 * destroyed.len()),
                ..self.stats
            },
            signals: self.signals + order.map_values(
                |t: [u8; 32]| Signal::Teardown(self.active[t].teardown_tx),
            ),
            ..self
        }
    }

    /// What dropping the expired pairings changes.
    pub open spec fn swept(self, now: u128) -> Self {
        let gone = self.expired(now);
        ServerModel {
            pending: self.pending.remove_keys(gone),
            stats: RelayStats {
                pairings_cancelled: wrap_u64(self.stats.pairings_cancelled + gone.len()),
                pairings_pending: wrap_i64(self.stats.pairings_pending - gone.len()),
                ..self.stats
            },
            ..self
        }
    }

    /// What telling the sessions in `closed` to close changes.
    pub open spec fn closing(self, closed: Seq<u64>) -> Self {
        ServerModel {
            signals: self.signals + closed.map_values(|s: u64| Signal::Close(self.outbound[s])),
            ..self
        }
    }

    /// The gauges agree with the tables: open sessions with the slots in use, pending pairings
    /// with the pending table.
    pub open spec fn consistent(self) -> bool {
        &&& self.pending.dom().finite()
        &&& self.active.dom().finite()
        &&& self.stats.sessions_active == wrap_i64(self.session_count as int)
        &&& self.stats.pairings_pending == wrap_i64(self.pending.dom().len() as int)
    }
}

/// A number as far as it fits.
pub open spec fn capped(n: int) -> usize {
    if n <= usize::MAX {
        n as usize
    } else {
        usize::MAX
    }
}

fn capped_sum(a: usize, b: usize) -> (r: usize)
    ensures
        r == capped(a + b),
{
    if a <= usize::MAX - b {
        a + b
    } else {
        usize::MAX
    }
}

/// Shared pairing and session-limit engine of a relay.
pub struct BlindRelayServer {
    config: BlindRelayServerConfig,
    pairing: Table<[u8; 32], PendingLink>,
    bridging: Vec<Bridging>,
    active_pairings: Table<[u8; 32], ActivePairing>,
    session_count: u64,
    next_session_id: u64,
    session_activity: HashMap<u64, u128>,
    session_outbound: HashMap<u64, u64>,
    stats: RelayStats,
    signals: Vec<Signal>,
}

impl View for BlindRelayServer {
    type V = ServerModel;

    closed spec fn view(&self) -> ServerModel {
        ServerModel {
            config: self.config,
            pending: self.pairing@,
            bridging: self.bridging@,
            active: self.active_pairings@,
            session_count: self.session_count,
            next_session_id: self.next_session_id,
            activity: self.session_activity@,
            outbound: self.session_outbound@,
            stats: self.stats,
            signals: self.signals@,
        }
    }
}

impl BlindRelayServer {
    /// The tables are sound and the gauges agree with them.
    pub closed spec fn wf(&self) -> bool {
        &&& self.pairing.wf()
        &&& self.active_pairings.wf()
        &&& self@.consistent()
    }

    /// In a sound server the gauges agree with the tables.
    pub proof fn lemma_consistent(&self)
        requires
            self.wf(),
        ensures
            self@.consistent(),
    {
    }

    /// Creates a relay server with the given configuration.
    pub fn new(config: BlindRelayServerConfig) -> (s: Self)
        ensures
            s.wf(),
            s@ == ServerModel::fresh(config),
    {
        BlindRelayServer {
            config,
            pairing: Table::new(),
            bridging: Vec::new(),
            active_pairings: Table::new(),
            session_count: 0,
            next_session_id: 1,
            session_activity: HashMap::new(),
            session_outbound: HashMap::new(),
            stats: Default::default(),
            signals: Vec::new(),
        }
    }

    /// Current statistics snapshot.
    pub fn stats(&self) -> (r: RelayStatsSnapshot)
        ensures
            r == snapshot_of(self@.stats),
    {
        self.stats.snapshot()
    }

    /// The configured limits.
    pub fn config(&self) -> (r: &BlindRelayServerConfig)
        ensures
            *r == self@.config,
    {
        &self.config
    }

    /// Hands out the signals that gathered since the last call, oldest first.
    pub fn take_signals(&mut self) -> (r: Vec<Signal>)
        requires
            old(self).wf(),
        ensures
            final(self).wf(),
            r@ == old(self)@.signals,
            final(self)@ == (ServerModel { signals: Seq::empty(), ..old(self)@ }),
    {
        let mut r: Vec<Signal> = Vec::new();
        r.append(&mut self.signals);
        assert(r@ =~= old(self)@.signals);
        assert(self@ =~= (ServerModel { signals: Seq::empty(), ..old(self)@ }));
        r
    }

    /// Reserves a session slot and gives its id, or nothing where all slots are taken.
    pub fn try_accept_session(&mut self) -> (r: Option<u64>)
        requires
            old(self).wf(),
        ensures
            final(self).wf(),
            if old(self)@.session_count >= old(self)@.config.max_sessions {
                r is None && final(self)@ == old(self)@
            } else {
                r == Some(old(self)@.next_session_id) && final(self)@ == old(self)@.accepted()
            },
    {
        if self.session_count >= self.config.max_sessions as u64 {
            return None;
        }
        self.session_count += 1;
        let id: u64 = self.next_session_id;
        self.next_session_id = count_up(id, 1);
        self.stats.sessions_accepted = count_up(self.stats.sessions_accepted, 1);
        self.stats.sessions_active = gauge_up(self.stats.sessions_active);
        proof {
            lemma_wrap_steps(old(self)@.session_count as int, 1);
            assert(self@ =~= old(self)@.accepted());
        }
        Some(id)
    }

    /// Registers a newly accepted session's outbound queue and starts its idle clock.
    pub fn register_session(&mut self, session_id: u64, outbound_tx: u64, now: u128)
        requires
            old(self).wf(),
        ensures
            final(self).wf(),
            final(self)@ == (ServerModel {
                outbound: old(self)@.outbound.insert(session_id, outbound_tx),
                ..old(self)@
            }).touched(session_id, now),
    {
        self.session_outbound.insert(session_id, outbound_tx);
        self.touch_session(session_id, now);
    }

    /// Records activity of a session, which resets its idle clock.
    pub fn touch_session(&mut self, session_id: u64, now: u128)
        requires
            old(self).wf(),
        ensures
            final(self).wf(),
            final(self)@ == old(self)@.touched(session_id, now),
    {
        self.session_activity.insert(session_id, now);
        assert(self@ =~= old(self)@.touched(session_id, now));
    }

    /// Releases a session slot. Pending pairings that the session holds are cancelled, and active
    /// ones that it is part of are torn down.
    pub fn release_session(&mut self, session_id: u64)
        requires
            old(self).wf(),
        ensures
            final(self).wf(),
            exists|order: Seq<[u8; 32]>| #[trigger]
                lists(order, old(self)@.active_of(session_id)) && final(self)@ == old(self)@.released(
                    session_id,
                    order,
                ),
    {
        self.session_count = count_down(self.session_count);
        self.stats.sessions_active = gauge_down(self.stats.sessions_active, 1);
        self.session_activity.remove(&session_id);
        self.session_outbound.remove(&session_id);

        let cancelled = self.pairing.keys_where(&WaitsFor { session_id });
        assert(cancelled@.to_set() =~= old(self)@.pending_of(session_id));
        self.pairing.remove_all(&cancelled);
        self.stats.pairings_cancelled = count_up(self.stats.pairings_cancelled, cancelled.len());
        self.stats.pairings_pending = gauge_down(self.stats.pairings_pending, cancelled.len());

        let destroyed = self.active_pairings.keys_where(&PartOf { session_id });
        proof {
            assert(destroyed@.to_set() =~= old(self)@.active_of(session_id));
            assert forall|i: int| 0 <= i < destroyed@.len() implies self@.active.contains_key(
                #[trigger] destroyed@[i],
            ) by {
                assert(destroyed@.to_set().contains(destroyed@[i]));
            }
        }
        self.signal_teardowns(&destroyed);
        self.active_pairings.remove_all(&destroyed);
        let given_up: usize = drop_shares(&mut self.bridging, session_id);
        self.stats.pairings_active = gauge_down(
            gauge_down(self.stats.pairings_active, destroyed.len()),
            given_up,
        );
        self.stats.streams_closed = count_up(
            count_up(self.stats.streams_closed, destroyed.len()),
            destroyed.len(),
        );
        proof {
            let m = old(self)@;
            let n = destroyed@.len() as int;
            let k = shares(m.bridging, session_id) as int;
            lemma_wrap_steps(m.stats.pairings_active - n, -k);
            lemma_wrap_steps(m.stats.streams_closed + n, n);
            assert(lists(destroyed@, m.active_of(session_id)));
            lemma_remove_keys_len(m.pending, m.pending_of(session_id));
            lemma_remove_keys_len(m.active, m.active_of(session_id));
            lemma_wrap_steps(m.session_count as int, -1);
            lemma_wrap_steps(m.session_count - 1, 0);
            lemma_wrap_steps(
                m.pending.dom().len() as int,
                -(m.pending_of(session_id).len() as int),
            );
            assert(self@ =~= m.released(session_id, destroyed@));
        }
    }

    /// Lists a teardown signal for each of the active tokens.
    fn signal_teardowns(&mut self, tokens: &Vec<[u8; 32]>)
        requires
            old(self).active_pairings.wf(),
            forall|i: int| 0 <= i < tokens@.len() ==> old(self)@.active.contains_key(#[trigger] tokens@[i]),
        ensures
            final(self)@ == (ServerModel {
                signals: old(self)@.signals + tokens@.map_values(
                    |t: [u8; 32]| Signal::Teardown(old(self)@.active[t].teardown_tx),
                ),
                ..old(self)@
            }),
            final(self).pairing == old(self).pairing,
            final(self).bridging == old(self).bridging,
            final(self).active_pairings == old(self).active_pairings,
            final(self).session_activity == old(self).session_activity,
            final(self).session_outbound == old(self).session_outbound,
    {
        let ghost f = |t: [u8; 32]| Signal::Teardown(old(self)@.active[t].teardown_tx);
        let mut i: usize = 0;
        assert(self.signals@ =~= old(self).signals@ + tokens@.take(0).map_values(f));
        while i < tokens.len()
            invariant
                i <= tokens.len(),
                self.active_pairings.wf(),
                self.active_pairings == old(self).active_pairings,
                self.pairing == old(self).pairing,
                self.bridging == old(self).bridging,
                self.session_activity == old(self).session_activity,
                self.session_outbound == old(self).session_outbound,
                self.config == old(self).config,
                self.session_count == old(self).session_count,
                self.next_session_id == old(self).next_session_id,
                self.stats == old(self).stats,
                f == (|t: [u8; 32]| Signal::Teardown(old(self)@.active[t].teardown_tx)),
                forall|j: int|
                    0 <= j < tokens@.len() ==> old(self)@.active.contains_key(#[trigger] tokens@[j]),
                self.signals@ == old(self).signals@ + tokens@.take(i as int).map_values(f),
            decreases tokens.len() - i,
        {
            assert(old(self)@.active.contains_key(tokens@[i as int]));
            if let Some(a) = self.active_pairings.get(&tokens[i]) {
                let handle: u64 = a.teardown_tx;
                self.signals.push(Signal::Teardown(handle));
            }
            proof {
                assert(tokens@.take(i + 1) =~= tokens@.take(i as int).push(tokens@[i as int]));
                assert(self.signals@ =~= old(self).signals@ + tokens@.take(i + 1).map_values(f));
            }
            i += 1;
        }
        proof {
            assert(tokens@.take(tokens@.len() as int) =~= tokens@);
            assert(self@.signals =~= old(self)@.signals + tokens@.map_values(f));
        }
    }

    /// Registers a pair request from a session. See [`PairOutcome`].
    #[allow(clippy::too_many_arguments)]
    pub fn try_pair(
        &mut self,
        session_id: u64,
        is_initiator: bool,
        token: [u8; 32],
        client_stream_id: u64,
        session_pairing_count: usize,
        outbound_tx: u64,
        now: u128,
    ) -> (r: PairOutcome)
        requires
            old(self).wf(),
        ensures
            final(self).wf(),
            (final(self)@, r) == old(self)@.paired(
                token,
                (PendingLink {
                    session_id,
                    is_initiator,
                    client_stream_id,
                    outbound_tx,
                    created_at: now,
                }),
                session_pairing_count,
            ),
    {
        let ghost m = self@;
        self.touch_session(session_id, now);
        self.stats.pairings_requested = count_up(self.stats.pairings_requested, 1);

        if session_pairing_count >= self.config.max_pairings_per_session {
            return PairOutcome::LimitExceeded;
        }
        let link = PendingLink {
            session_id,
            is_initiator,
            client_stream_id,
            outbound_tx,
            created_at: now,
        };
        let waiting: Option<PendingLink> = match self.pairing.get(&token) {
            Some(l) => Some(*l),
            None => None,
        };
        match waiting {
            None => {
                self.pairing.insert(token, link);
                self.stats.pairings_pending = gauge_up(self.stats.pairings_pending);
                proof {
                    lemma_wrap_steps(m.pending.dom().len() as int, 1);
                    assert(self@ =~= m.paired(token, link, session_pairing_count).0);
                }
                PairOutcome::Pending
            },
            Some(other) => {
                if other.is_initiator == is_initiator {
                    return PairOutcome::AlreadyPairing;
                }
                self.pairing.remove(&token);
                self.bridging.push(
                    Bridging { token, first: other.session_id, second: session_id },
                );
                self.stats.pairings_pending = gauge_down(self.stats.pairings_pending, 1);
                self.stats.pairings_matched = count_up(self.stats.pairings_matched, 1);
                self.stats.pairings_active = gauge_up(self.stats.pairings_active);
                let first = MatchedSide {
                    session_id: other.session_id,
                    is_initiator: other.is_initiator,
                    client_stream_id: other.client_stream_id,
                    outbound_tx: other.outbound_tx,
                };
                let second = MatchedSide { session_id, is_initiator, client_stream_id, outbound_tx };
                proof {
                    lemma_wrap_steps(m.pending.dom().len() as int, -1);
                    assert(self@ =~= m.paired(token, link, session_pairing_count).0);
                }
                PairOutcome::Matched(MatchedPairing { token, first, second })
            },
        }
    }

    /// Registers a matched pairing's data plane as active, so that a later [`Self::unpair`] or
    /// [`Self::release_session`] can tear the bridged streams down.
    pub fn mark_active(&mut self, token: [u8; 32], session_ids: [u64; 2], teardown_tx: u64)
        requires
            old(self).wf(),
        ensures
            final(self).wf(),
            final(self)@ == old(self)@.marked(
                token,
                (ActivePairing { session_ids, teardown_tx }),
            ),
    {
        let ghost m = self@;
        let i: usize = find_bridging(&self.bridging, &token, session_ids[0], session_ids[1]);
        if i < self.bridging.len() {
            self.bridging.remove(i);
        }
        self.stats.streams_opened = count_up(self.stats.streams_opened, 2);
        let pair = ActivePairing { session_ids, teardown_tx };
        self.active_pairings.insert(token, pair);
        assert(self@ =~= m.marked(token, pair));
    }

    /// Gives a match up that could not be bridged.
    pub fn abandon_match(&mut self, matched: &MatchedPairing)
        requires
            old(self).wf(),
        ensures
            final(self).wf(),
            final(self)@ == old(self)@.abandoned(
                matched.token,
                matched.first.session_id,
                matched.second.session_id,
            ),
    {
        let i: usize = find_bridging(
            &self.bridging,
            &matched.token,
            matched.first.session_id,
            matched.second.session_id,
        );
        if i < self.bridging.len() {
            self.bridging.remove(i);
            self.stats.pairings_active = gauge_down(self.stats.pairings_active, 1);
            self.stats.streams_errors = count_up(self.stats.streams_errors, 1);
        }
    }

    /// Whether a match waits to be bridged: neither of its sessions has ended since.
    pub fn awaits_bridge(&self, matched: &MatchedPairing) -> (r: bool)
        requires
            self.wf(),
        ensures
            r == self@.is_bridging(
                matched.token,
                matched.first.session_id,
                matched.second.session_id,
            ),
    {
        find_bridging(
            &self.bridging,
            &matched.token,
            matched.first.session_id,
            matched.second.session_id,
        ) < self.bridging.len()
    }

    /// Number of pairings that a session holds, as far as it fits.
    pub fn pairings_held(&self, session_id: u64) -> (r: usize)
        requires
            self.wf(),
        ensures
            r == capped(self@.held(session_id) as int),
    {
        let waiting = self.pairing.keys_where(&WaitsFor { session_id });
        assert(waiting@.to_set() =~= self@.pending_of(session_id));
        let bridged = self.active_pairings.keys_where(&PartOf { session_id });
        assert(bridged@.to_set() =~= self@.active_of(session_id));
        capped_sum(
            capped_sum(waiting.len(), bridged.len()),
            count_shares(&self.bridging, session_id),
        )
    }

    /// Cancels a pairing of a session. A pending pairing is looked up first; where there is none,
    /// an active pairing of the token is torn down, whichever session asks.
    pub fn unpair(&mut self, session_id: u64, token: [u8; 32], now: u128) -> (r: UnpairOutcome)
        requires
            old(self).wf(),
        ensures
            final(self).wf(),
            (final(self)@, r) == old(self)@.unpaired(session_id, token, now),
    {
        let ghost m = self@;
        self.touch_session(session_id, now);
        let holder: Option<u64> = match self.pairing.get(&token) {
            Some(l) => Some(l.session_id),
            None => None,
        };
        match holder {
            None => self.unpair_active(token),
            Some(h) => {
                if h != session_id {
                    return UnpairOutcome::NotFound;
                }
                self.pairing.remove(&token);
                self.stats.pairings_cancelled = count_up(self.stats.pairings_cancelled, 1);
                self.stats.pairings_pending = gauge_down(self.stats.pairings_pending, 1);
                proof {
                    lemma_wrap_steps(m.pending.dom().len() as int, -1);
                    assert(self@ =~= m.unpaired(session_id, token, now).0);
                }
                UnpairOutcome::Cancelled
            },
        }
    }

    /// Tears the active pairing of a token down, if there is one.
    fn unpair_active(&mut self, token: [u8; 32]) -> (r: UnpairOutcome)
        requires
            old(self).wf(),
        ensures
            final(self).wf(),
            if old(self)@.active.contains_key(token) {
                &&& r == UnpairOutcome::Destroyed
                &&& final(self)@ == (ServerModel {
                    active: old(self)@.active.remove(token),
                    stats: (RelayStats {
                        pairings_active: wrap_i64(old(self)@.stats.pairings_active - 1),
                        streams_closed: wrap_u64(old(self)@.stats.streams_closed + 2),
                        ..old(self)@.stats
                    }),
                    signals: old(self)@.signals.push(
                        Signal::Teardown(old(self)@.active[token].teardown_tx),
                    ),
                    ..old(self)@
                })
            } else {
                r == UnpairOutcome::NotFound && final(self)@ == old(self)@
            },
    {
        match self.active_pairings.remove(&token) {
            None => {
                assert(self@ =~= old(self)@);
                UnpairOutcome::NotFound
            },
            Some(pair) => {
                self.signals.push(Signal::Teardown(pair.teardown_tx));
                self.stats.pairings_active = gauge_down(self.stats.pairings_active, 1);
                self.stats.streams_closed = count_up(self.stats.streams_closed, 2);
                UnpairOutcome::Destroyed
            },
        }
    }

    /// Tells every session to close that has been idle longer than `idle_session_timeout`, and
    /// gives their ids.
    pub fn sweep_idle_sessions(&mut self, now: u128) -> (closed: Vec<u64>)
        requires
            old(self).wf(),
        ensures
            final(self).wf(),
            lists(closed@, old(self)@.idle(now)),
            final(self)@ == old(self)@.closing(closed@),
    {
        let idle = silent_sessions(
            &self.session_activity,
            now,
            self.config.idle_session_timeout,
        );
        let mut closed: Vec<u64> = Vec::new();
        let ghost f = |s: u64| Signal::Close(old(self)@.outbound[s]);
        let mut i: usize = 0;
        assert(self.signals@ =~= old(self).signals@ + closed@.map_values(f));
        while i < idle.len()
            invariant
                i <= idle.len(),
                idle@.no_duplicates(),
                self.wf(),
                self.session_outbound == old(self).session_outbound,
                self@ == (ServerModel { signals: self@.signals, ..old(self)@ }),
                f == (|s: u64| Signal::Close(old(self)@.outbound[s])),
                closed@.no_duplicates(),
                forall|s: u64| #[trigger]
                    closed@.contains(s) <==> idle@.take(i as int).contains(s)
                        && old(self)@.outbound.contains_key(s),
                self.signals@ == old(self).signals@ + closed@.map_values(f),
            decreases idle.len() - i,
        {
            let id: u64 = idle[i];
            let ghost before = closed@;
            let ghost seen = idle@.take(i as int);
            let handle: Option<u64> = match self.session_outbound.get(&id) {
                Some(tx) => Some(*tx),
                None => None,
            };
            if let Some(tx) = handle {
                self.signals.push(Signal::Close(tx));
                closed.push(id);
            }
            proof {
                let next = idle@.take(i + 1);
                assert(next =~= seen.push(id));
                assert(!seen.contains(id)) by {
                    if seen.contains(id) {
                        let j = choose|j: int| 0 <= j < seen.len() && seen[j] == id;
                        assert(idle@[j] == idle@[i as int]);
                    }
                }
                assert(!before.contains(id));
                assert forall|s: u64| next.contains(s) <==> seen.contains(s) || s == id by {
                    if seen.contains(s) {
                        let j = choose|j: int| 0 <= j < seen.len() && seen[j] == s;
                        assert(next[j] == s);
                    }
                    if s == id {
                        assert(next[i as int] == id);
                    }
                }
                assert forall|s: u64| #[trigger] closed@.contains(s) <==> next.contains(s)
                    && old(self)@.outbound.contains_key(s) by {
                    if before.contains(s) {
                        let j = choose|j: int| 0 <= j < before.len() && before[j] == s;
                        assert(closed@[j] == s);
                    }
                    if s == id && handle is Some {
                        assert(closed@[before.len() as int] == id);
                    }
                }
                assert(self.signals@ =~= old(self).signals@ + closed@.map_values(f));
            }
            i += 1;
        }
        proof {
            assert(idle@.take(idle@.len() as int) =~= idle@);
            assert(closed@.to_set() =~= old(self)@.idle(now)) by {
                assert forall|s: u64| idle@.contains(s) <==> idle@.to_set().contains(s) by {}
            }
            assert(self@ =~= old(self)@.closing(closed@));
        }
        closed
    }

    /// Drops the pending pairings that are older than `pairing_timeout`, and gives their number.
    pub fn sweep_expired_pairings(&mut self, now: u128) -> (dropped: usize)
        requires
            old(self).wf(),
        ensures
            final(self).wf(),
            dropped == old(self)@.expired(now).len(),
            final(self)@ == old(self)@.swept(now),
    {
        let gone = self.pairing.keys_where(
            &WaitingFor { now, timeout: self.config.pairing_timeout },
        );
        assert(gone@.to_set() =~= old(self)@.expired(now));
        self.pairing.remove_all(&gone);
        let dropped: usize = gone.len();
        self.stats.pairings_cancelled = count_up(self.stats.pairings_cancelled, dropped);
        self.stats.pairings_pending = gauge_down(self.stats.pairings_pending, dropped);
        proof {
            let m = old(self)@;
            lemma_remove_keys_len(m.pending, m.expired(now));
            lemma_wrap_steps(m.pending.dom().len() as int, -(m.expired(now).len() as int));
            assert(self@ =~= m.swept(now));
        }
        dropped
    }
}

/// Removing keys that are there shrinks a finite map by their number.
pub proof fn lemma_remove_keys_len<K, V>(m: Map<K, V>, ks: Set<K>)
    requires
        m.dom().finite(),
        ks.finite(),
        ks.subset_of(m.dom()),
    ensures
        m.remove_keys(ks).dom().finite(),
        m.remove_keys(ks).dom().len() == m.dom().len() - ks.len(),
{
    m.lemma_remove_keys_len(ks);
    assert(m.remove_keys(ks).dom() =~= m.dom().difference(ks));
}

} // verus!
