//! What holds of a relay server after any run of its operations, one after another.

use vstd::prelude::*;

use super::bridging::{lemma_bridging_at, lemma_others, shares};
use super::server::{
    lemma_remove_keys_len, lists, ActivePairing, BlindRelayServerConfig, PendingLink, ServerModel,
};
use crate::counter::{lemma_wrap_steps, wrap_i64, wrap_u64};

verus! {

/// An operation of a server, with what its caller hands over and the order in which it works
/// through a table.
pub enum Operation {
    /// See [`super::BlindRelayServer::try_accept_session`].
    Accept,
    /// See [`super::BlindRelayServer::register_session`].
    Register {
        /// The session.
        session_id: u64,
        /// Its outbound queue.
        outbound_tx: u64,
        /// The moment.
        now: u128,
    },
    /// See [`super::BlindRelayServer::touch_session`].
    Touch {
        /// The session.
        session_id: u64,
        /// The moment.
        now: u128,
    },
    /// See [`super::BlindRelayServer::release_session`].
    Release {
        /// The session.
        session_id: u64,
        /// Its bridged pairings, in the order in which they are told to tear down.
        order: Seq<[u8; 32]>,
    },
    /// See [`super::BlindRelayServer::try_pair`].
    Pair {
        /// The token.
        token: [u8; 32],
        /// The side that asks.
        link: PendingLink,
        /// Pairings that the session is said to hold.
        count: usize,
    },
    /// See [`super::BlindRelayServer::mark_active`].
    Bridge {
        /// The token.
        token: [u8; 32],
        /// The bridged pairing.
        pair: ActivePairing,
    },
    /// See [`super::BlindRelayServer::abandon_match`].
    Abandon {
        /// The token.
        token: [u8; 32],
        /// One session.
        a: u64,
        /// The other session.
        b: u64,
    },
    /// See [`super::BlindRelayServer::unpair`].
    Unpair {
        /// The session.
        session_id: u64,
        /// The token.
        token: [u8; 32],
        /// The moment.
        now: u128,
    },
    /// See [`super::BlindRelayServer::sweep_idle_sessions`].
    SweepSessions {
        /// The sessions that are told to close.
        closed: Seq<u64>,
    },
    /// See [`super::BlindRelayServer::sweep_expired_pairings`].
    SweepPairings {
        /// The moment.
        now: u128,
    },
    /// See [`super::BlindRelayServer::take_signals`].
    TakeSignals,
}

/// A server and what happened to it so far.
pub struct History {
    /// The server.
    pub server: ServerModel,
    /// Ids of the sessions that were accepted, oldest first.
    pub given: Seq<u64>,
    /// Sessions that were accepted and not released.
    pub open: Set<u64>,
    /// Pair requests.
    pub requested: nat,
    /// Pairings that matched.
    pub matched: nat,
    /// Pairings that were cancelled before a match.
    pub cancelled: nat,
    /// Streams that were opened.
    pub opened: nat,
    /// Streams that were closed.
    pub closed: nat,
    /// Pair requests for a side that waited already.
    pub duplicates: nat,
    /// Pair requests that were refused at the limit.
    pub refused: nat,
    /// Bridged pairings whose place another one of the same token took.
    pub replaced: nat,
    /// Bridged pairings that no match waited for.
    pub unasked: nat,
}

impl History {
    /// A fresh server.
    pub open spec fn start(config: BlindRelayServerConfig) -> Self {
        History {
            server: ServerModel::fresh(config),
            given: Seq::empty(),
            open: Set::empty(),
            requested: 0,
            matched: 0,
            cancelled: 0,
            opened: 0,
            closed: 0,
            duplicates: 0,
            refused: 0,
            replaced: 0,
            unasked: 0,
        }
    }

    /// Whether an operation may come next: only a session that is open is released.
    pub open spec fn allows(self, op: Operation) -> bool {
        match op {
            Operation::Release { session_id, order } => self.open.contains(session_id) && lists(
                order,
                self.server.active_of(session_id),
            ),
            _ => true,
        }
    }

    /// What an operation leads to.
    pub open spec fn then_do(self, op: Operation) -> Self {
        let m = self.server;
        match op {
            Operation::Accept => if m.session_count >= m.config.max_sessions {
                self
            } else {
                History {
                    server: m.accepted(),
                    given: self.given.push(m.next_session_id),
                    open: self.open.insert(m.next_session_id),
                    ..self
                }
            },
            Operation::Register { session_id, outbound_tx, now } => History {
                server: ServerModel {
                    outbound: m.outbound.insert(session_id, outbound_tx),
                    ..m
                }.touched(session_id, now),
                ..self
            },
            Operation::Touch { session_id, now } => History {
                server: m.touched(session_id, now),
                ..self
            },
            Operation::Release { session_id, order } => History {
                server: m.released(session_id, order),
                open: self.open.remove(session_id),
                cancelled: self.cancelled + m.pending_of(session_id).len(),
                closed: self.closed + 2 * m.active_of(session_id).len(),
                ..self
            },
            Operation::Pair { token, link, count } => {
                let (after, outcome) = m.paired(token, link, count);
                History {
                    server: after,
                    requested: self.requested + 1,
                    matched: if outcome is Matched {
                        self.matched + 1
                    } else {
                        self.matched
                    },
                    duplicates: if outcome is AlreadyPairing {
                        self.duplicates + 1
                    } else {
                        self.duplicates
                    },
                    refused: if outcome is LimitExceeded {
                        self.refused + 1
                    } else {
                        self.refused
                    },
                    ..self
                }
            },
            Operation::Bridge { token, pair } => History {
                server: m.marked(token, pair),
                opened: self.opened + 2,
                replaced: if m.active.contains_key(token) {
                    self.replaced + 1
                } else {
                    self.replaced
                },
                unasked: if m.is_bridging(token, pair.session_ids[0], pair.session_ids[1]) {
                    self.unasked
                } else {
                    self.unasked + 1
                },
                ..self
            },
            Operation::Abandon { token, a, b } => History {
                server: m.abandoned(token, a, b),
                ..self
            },
            Operation::Unpair { session_id, token, now } => {
                let (after, outcome) = m.unpaired(session_id, token, now);
                History {
                    server: after,
                    cancelled: if outcome is Cancelled {
                        self.cancelled + 1
                    } else {
                        self.cancelled
                    },
                    closed: if outcome is Destroyed {
                        self.closed + 2
                    } else {
                        self.closed
                    },
                    ..self
                }
            },
            Operation::SweepSessions { closed } => History { server: m.closing(closed), ..self },
            Operation::SweepPairings { now } => History {
                server: m.swept(now),
                cancelled: self.cancelled + m.expired(now).len(),
                ..self
            },
            Operation::TakeSignals => History {
                server: ServerModel { signals: Seq::empty(), ..m },
                ..self
            },
        }
    }

    /// The numbers of sessions add up.
    #[verifier::opaque]
    spec fn sessions_add_up(self) -> bool {
        let m = self.server;
        &&& self.open.finite()
        &&& m.session_count == self.open.len()
        &&& m.session_count <= m.config.max_sessions
        &&& m.stats.sessions_active == wrap_i64(m.session_count as int)
        &&& m.stats.sessions_accepted == self.given.len()
        &&& m.next_session_id == wrap_u64(self.given.len() as int + 1)
        &&& forall|i: int| 0 <= i < self.given.len() ==> (#[trigger] self.given[i]) == i + 1
        &&& forall|id: u64| #[trigger] self.open.contains(id) ==> 1 <= id <= self.given.len()
    }

    /// The numbers of pairings and streams add up.
    #[verifier::opaque]
    spec fn pairings_add_up(self) -> bool {
        let m = self.server;
        let s = m.stats;
        &&& m.pending.dom().finite()
        &&& m.active.dom().finite()
        &&& s.pairings_requested == wrap_u64(self.requested as int)
        &&& s.pairings_matched == wrap_u64(self.matched as int)
        &&& s.pairings_cancelled == wrap_u64(self.cancelled as int)
        &&& s.pairings_pending == wrap_i64(m.pending.dom().len() as int)
        &&& s.pairings_active == wrap_i64(m.matched_now() + self.replaced - self.unasked)
        &&& s.streams_opened == wrap_u64(self.opened as int)
        &&& s.streams_closed == wrap_u64(self.closed as int)
        &&& self.requested == 2 * self.matched + self.cancelled + m.pending.dom().len()
            + self.duplicates + self.refused
        &&& self.opened == self.closed + 2 * (m.active.dom().len() + self.replaced)
    }
}

/// A number that fits does not wrap.
proof fn lemma_fits(x: int)
    ensures
        0 <= x <= u64::MAX ==> wrap_u64(x) == x,
        i64::MIN <= x <= i64::MAX ==> wrap_i64(x) == x,
{
}

proof fn lemma_sessions_frame(h: History, k: History)
    requires
        h.sessions_add_up(),
        k.given == h.given,
        k.open == h.open,
        k.server.config == h.server.config,
        k.server.session_count == h.server.session_count,
        k.server.next_session_id == h.server.next_session_id,
        k.server.stats.sessions_active == h.server.stats.sessions_active,
        k.server.stats.sessions_accepted == h.server.stats.sessions_accepted,
    ensures
        k.sessions_add_up(),
{
    reveal(History::sessions_add_up);
}

proof fn lemma_pairings_frame(h: History, k: History)
    requires
        h.pairings_add_up(),
        k.server.pending == h.server.pending,
        k.server.bridging == h.server.bridging,
        k.server.active == h.server.active,
        k.requested == h.requested,
        k.matched == h.matched,
        k.cancelled == h.cancelled,
        k.opened == h.opened,
        k.closed == h.closed,
        k.duplicates == h.duplicates,
        k.refused == h.refused,
        k.replaced == h.replaced,
        k.unasked == h.unasked,
        k.server.stats.pairings_pending == h.server.stats.pairings_pending,
        k.server.stats.pairings_active == h.server.stats.pairings_active,
        k.server.stats.pairings_requested == h.server.stats.pairings_requested,
        k.server.stats.pairings_matched == h.server.stats.pairings_matched,
        k.server.stats.pairings_cancelled == h.server.stats.pairings_cancelled,
        k.server.stats.streams_opened == h.server.stats.streams_opened,
        k.server.stats.streams_closed == h.server.stats.streams_closed,
    ensures
        k.pairings_add_up(),
{
    reveal(History::pairings_add_up);
}

/// What a run of operations leads to.
pub open spec fn run(config: BlindRelayServerConfig, ops: Seq<Operation>) -> History
    decreases ops.len(),
{
    if ops.len() == 0 {
        History::start(config)
    } else {
        run(config, ops.drop_last()).then_do(ops.last())
    }
}

/// Whether every operation of a run may come when it comes.
pub open spec fn lawful(config: BlindRelayServerConfig, ops: Seq<Operation>) -> bool
    decreases ops.len(),
{
    ops.len() == 0 || lawful(config, ops.drop_last()) && run(config, ops.drop_last()).allows(
        ops.last(),
    )
}

proof fn lemma_pair_adds_up(h: History, token: [u8; 32], link: PendingLink, count: usize)
    requires
        h.pairings_add_up(),
    ensures
        h.then_do(Operation::Pair { token, link, count }).pairings_add_up(),
{
    reveal(History::pairings_add_up);
    let m = h.server;
    let p = m.pending.dom().len() as int;
    assert(m.pending.insert(token, link).dom() =~= m.pending.dom().insert(token));
    assert(m.pending.remove(token).dom() =~= m.pending.dom().remove(token));
    lemma_wrap_steps(h.requested as int, 1);
    lemma_wrap_steps(h.matched as int, 1);
    lemma_wrap_steps(p, 1);
    lemma_wrap_steps(p, -1);
    lemma_wrap_steps(m.matched_now() + h.replaced - h.unasked, 1);
}

proof fn lemma_release_adds_up(h: History, session_id: u64, order: Seq<[u8; 32]>)
    requires
        h.pairings_add_up(),
    ensures
        h.then_do(Operation::Release { session_id, order }).pairings_add_up(),
{
    reveal(History::pairings_add_up);
    let m = h.server;
    let c = m.pending_of(session_id);
    let d = m.active_of(session_id);
    vstd::set_lib::lemma_len_subset(c, m.pending.dom());
    vstd::set_lib::lemma_len_subset(d, m.active.dom());
    lemma_remove_keys_len(m.pending, c);
    lemma_remove_keys_len(m.active, d);
    lemma_others(m.bridging, session_id);
    let b = shares(m.bridging, session_id) as int;
    lemma_wrap_steps(h.cancelled as int, c.len() as int);
    lemma_wrap_steps(m.pending.dom().len() as int, -(c.len() as int));
    lemma_wrap_steps(m.matched_now() + h.replaced - h.unasked, -(d.len() as int) - b);
    lemma_wrap_steps(h.closed as int, 2 * d.len() as int);
}

proof fn lemma_release_keeps_sessions(h: History, session_id: u64, order: Seq<[u8; 32]>)
    requires
        h.sessions_add_up(),
        h.open.contains(session_id),
    ensures
        h.then_do(Operation::Release { session_id, order }).sessions_add_up(),
{
    reveal(History::sessions_add_up);
    let m = h.server;
    vstd::set_lib::lemma_len_subset(set![session_id], h.open);
    lemma_fits(m.session_count - 1);
    lemma_wrap_steps(m.session_count as int, -1);
}

proof fn lemma_bridge_adds_up(h: History, token: [u8; 32], pair: ActivePairing)
    requires
        h.pairings_add_up(),
    ensures
        h.then_do(Operation::Bridge { token, pair }).pairings_add_up(),
{
    reveal(History::pairings_add_up);
    let m = h.server;
    lemma_bridging_at(m.bridging, token, pair.session_ids[0], pair.session_ids[1]);
    assert(m.active.insert(token, pair).dom() =~= m.active.dom().insert(token));
    if m.active.contains_key(token) {
        assert(m.active.dom().insert(token) =~= m.active.dom());
    }
    lemma_wrap_steps(h.opened as int, 2);
}

proof fn lemma_unpair_adds_up(h: History, session_id: u64, token: [u8; 32], now: u128)
    requires
        h.pairings_add_up(),
    ensures
        h.then_do(Operation::Unpair { session_id, token, now }).pairings_add_up(),
{
    reveal(History::pairings_add_up);
    let m = h.server;
    assert(m.pending.remove(token).dom() =~= m.pending.dom().remove(token));
    assert(m.active.remove(token).dom() =~= m.active.dom().remove(token));
    lemma_wrap_steps(h.cancelled as int, 1);
    lemma_wrap_steps(m.pending.dom().len() as int, -1);
    lemma_wrap_steps(m.matched_now() + h.replaced - h.unasked, -1);
    lemma_wrap_steps(h.closed as int, 2);
}

proof fn lemma_sweep_adds_up(h: History, now: u128)
    requires
        h.pairings_add_up(),
    ensures
        h.then_do(Operation::SweepPairings { now }).pairings_add_up(),
{
    reveal(History::pairings_add_up);
    let m = h.server;
    let gone = m.expired(now);
    vstd::set_lib::lemma_len_subset(gone, m.pending.dom());
    lemma_remove_keys_len(m.pending, gone);
    lemma_wrap_steps(h.cancelled as int, gone.len() as int);
    lemma_wrap_steps(m.pending.dom().len() as int, -(gone.len() as int));
}

proof fn lemma_abandon_adds_up(h: History, token: [u8; 32], a: u64, b: u64)
    requires
        h.pairings_add_up(),
    ensures
        h.then_do(Operation::Abandon { token, a, b }).pairings_add_up(),
{
    reveal(History::pairings_add_up);
    lemma_bridging_at(h.server.bridging, token, a, b);
    lemma_wrap_steps(h.server.matched_now() + h.replaced - h.unasked, -1);
}

proof fn lemma_fresh_id(h: History)
    requires
        h.sessions_add_up(),
        h.given.len() <= u64::MAX,
    ensures
        !h.given.contains(h.server.next_session_id),
{
    reveal(History::sessions_add_up);
    let id = h.server.next_session_id;
    lemma_fits(h.given.len() as int + 1);
    if h.given.contains(id) {
        let i = choose|i: int| 0 <= i < h.given.len() && h.given[i] == id;
        assert(h.given[i] == i + 1);
    }
}

proof fn lemma_accept_adds_up(h: History)
    requires
        h.sessions_add_up(),
        h.then_do(Operation::Accept).given.len() <= u64::MAX,
    ensures
        h.then_do(Operation::Accept).sessions_add_up(),
{
    reveal(History::sessions_add_up);
    let m = h.server;
    if m.session_count < m.config.max_sessions {
        lemma_fits(h.given.len() as int + 1);
        assert(!h.open.contains(m.next_session_id));
        lemma_fits(m.stats.sessions_accepted + 1);
        lemma_wrap_steps(h.given.len() as int + 1, 1);
        lemma_wrap_steps(m.session_count as int, 1);
    }
}

proof fn lemma_pairings_step(h: History, op: Operation)
    requires
        h.pairings_add_up(),
    ensures
        h.then_do(op).pairings_add_up(),
{
    match op {
        Operation::Release { session_id, order } => lemma_release_adds_up(h, session_id, order),
        Operation::Pair { token, link, count } => lemma_pair_adds_up(h, token, link, count),
        Operation::Bridge { token, pair } => lemma_bridge_adds_up(h, token, pair),
        Operation::Abandon { token, a, b } => lemma_abandon_adds_up(h, token, a, b),
        Operation::Unpair { session_id, token, now } => {
            lemma_unpair_adds_up(h, session_id, token, now);
        },
        Operation::SweepPairings { now } => lemma_sweep_adds_up(h, now),
        _ => lemma_pairings_frame(h, h.then_do(op)),
    }
}

proof fn lemma_sessions_step(h: History, op: Operation)
    requires
        h.sessions_add_up(),
        h.allows(op),
        h.then_do(op).given.len() <= u64::MAX,
    ensures
        h.then_do(op).sessions_add_up(),
{
    match op {
        Operation::Accept => lemma_accept_adds_up(h),
        Operation::Release { session_id, order } => {
            lemma_release_keeps_sessions(h, session_id, order);
        },
        _ => lemma_sessions_frame(h, h.then_do(op)),
    }
}

proof fn lemma_pairings_run(config: BlindRelayServerConfig, ops: Seq<Operation>)
    ensures
        run(config, ops).pairings_add_up(),
    decreases ops.len(),
{
    if ops.len() == 0 {
        reveal(History::pairings_add_up);
        let h = History::start(config);
        assert(h.server.pending.dom() =~= Set::<[u8; 32]>::empty());
        assert(h.server.active.dom() =~= Set::<[u8; 32]>::empty());
    } else {
        lemma_pairings_run(config, ops.drop_last());
        lemma_pairings_step(run(config, ops.drop_last()), ops.last());
    }
}

/// No operation takes an id back or changes the limits.
#[verifier::rlimit(50)]
#[verifier::spinoff_prover]
proof fn lemma_step_keeps(h: History, op: Operation)
    ensures
        h.given.len() <= h.then_do(op).given.len(),
        h.then_do(op).server.config == h.server.config,
{
}

proof fn lemma_first_session(config: BlindRelayServerConfig)
    ensures
        History::start(config).sessions_add_up(),
        History::start(config).server.config == config,
{
    reveal(History::sessions_add_up);
}

proof fn lemma_sessions_run(config: BlindRelayServerConfig, ops: Seq<Operation>)
    requires
        lawful(config, ops),
        run(config, ops).given.len() <= u64::MAX,
    ensures
        run(config, ops).sessions_add_up(),
        run(config, ops).server.config == config,
    decreases ops.len(),
{
    if ops.len() == 0 {
        lemma_first_session(config);
    } else {
        let h = run(config, ops.drop_last());
        lemma_step_keeps(h, ops.last());
        lemma_sessions_run(config, ops.drop_last());
        lemma_sessions_step(h, ops.last());
    }
}

/// After every run of operations, every pair request is accounted for: two for each match, and one
/// for each request that was cancelled, still waits, was a duplicate or was refused. Two streams
/// are open for each bridged pairing; one whose place another one took still counts as open. The
/// statistics show these numbers, and the number of pairings that matched and have not ended, in
/// which a bridged pairing that no match waited for is left out; each wraps around at the width of
/// its counter.
pub proof fn law_every_request_is_accounted_for(
    config: BlindRelayServerConfig,
    ops: Seq<Operation>,
)
    ensures
        ({
            let h = run(config, ops);
            let s = h.server.stats;
            let pending = h.server.pending.dom().len();
            &&& h.requested == 2 * h.matched + h.cancelled + pending + h.duplicates + h.refused
            &&& h.opened == h.closed + 2 * (h.server.active.dom().len() + h.replaced)
            &&& s.pairings_requested == wrap_u64(h.requested as int)
            &&& s.pairings_matched == wrap_u64(h.matched as int)
            &&& s.pairings_cancelled == wrap_u64(h.cancelled as int)
            &&& s.pairings_pending == wrap_i64(pending as int)
            &&& s.pairings_active == wrap_i64(h.server.matched_now() + h.replaced - h.unasked)
            &&& s.streams_opened == wrap_u64(h.opened as int)
            &&& s.streams_closed == wrap_u64(h.closed as int)
        }),
{
    lemma_pairings_run(config, ops);
    reveal(History::pairings_add_up);
}

/// As long as fewer requests came than the counter of requests can show and fewer pairings wait
/// than their gauge can, the statistics themselves account for every request.
pub proof fn law_statistics_account_for_requests(
    config: BlindRelayServerConfig,
    ops: Seq<Operation>,
)
    requires
        run(config, ops).requested <= u64::MAX,
        run(config, ops).server.pending.dom().len() <= i64::MAX,
    ensures
        ({
            let h = run(config, ops);
            let s = h.server.stats;
            &&& s.pairings_requested == 2 * s.pairings_matched + s.pairings_cancelled
                + s.pairings_pending + h.duplicates + h.refused
            &&& s.pairings_pending >= 0
        }),
{
    law_every_request_is_accounted_for(config, ops);
    let h = run(config, ops);
    lemma_fits(h.requested as int);
    lemma_fits(h.matched as int);
    lemma_fits(h.cancelled as int);
    lemma_fits(h.server.pending.dom().len() as int);
}

/// After every run of operations in which only open sessions are released, and as long as fewer
/// sessions were accepted than their counter can show, the sessions open are those accepted and
/// not released. They stay within the limit and the sessions accepted.
pub proof fn law_open_sessions_stay_within_the_limit(
    config: BlindRelayServerConfig,
    ops: Seq<Operation>,
)
    requires
        lawful(config, ops),
        run(config, ops).given.len() <= u64::MAX,
    ensures
        ({
            let h = run(config, ops);
            let s = h.server.stats;
            &&& h.server.session_count == h.open.len()
            &&& h.open.len() <= config.max_sessions
            &&& s.sessions_accepted == h.given.len()
            &&& h.open.len() <= h.given.len()
            &&& h.open.len() <= i64::MAX ==> s.sessions_active == h.open.len() && 0
                <= s.sessions_active <= s.sessions_accepted
        }),
{
    lemma_sessions_run(config, ops);
    reveal(History::sessions_add_up);
    let h = run(config, ops);
    assert(h.open.len() <= h.given.len()) by {
        assert forall|id: u64| h.open.contains(id) implies h.given.to_set().contains(id) by {
            assert(h.given[id - 1] == id);
        }
        h.given.lemma_cardinality_of_set();
        vstd::seq_lib::seq_to_set_is_finite(h.given);
        vstd::set_lib::lemma_len_subset(h.open, h.given.to_set());
    }
    lemma_fits(h.open.len() as int);
}

/// After every run of operations in which only open sessions are released, a session is accepted
/// exactly while fewer are open than may be. Until the counter of ids is used up, its id differs
/// from all that were given before, released ones included. It raises the sessions accepted and
/// the sessions open by one each. A session that is not accepted changes nothing.
pub proof fn law_session_ids_are_never_given_twice(
    config: BlindRelayServerConfig,
    ops: Seq<Operation>,
)
    requires
        lawful(config, ops),
        run(config, ops).given.len() <= u64::MAX,
    ensures
        ({
            let h = run(config, ops);
            let after = h.then_do(Operation::Accept);
            &&& h.open.len() < config.max_sessions ==> {
                let id = h.server.next_session_id;
                &&& !h.given.contains(id)
                &&& after.given == h.given.push(id)
                &&& after.open == h.open.insert(id)
                &&& after.server == h.server.accepted()
                &&& after.server.stats.sessions_accepted == wrap_u64(h.given.len() as int + 1)
                &&& after.server.stats.sessions_active == wrap_i64(h.open.len() as int + 1)
            }
            &&& h.open.len() >= config.max_sessions ==> after == h
            &&& forall|i: int, j: int|
                0 <= i < j < h.given.len() ==> #[trigger] h.given[i] != #[trigger] h.given[j]
        }),
{
    lemma_sessions_run(config, ops);
    let h = run(config, ops);
    lemma_fresh_id(h);
    reveal(History::sessions_add_up);
    lemma_wrap_steps(h.open.len() as int, 1);
    assert forall|i: int, j: int| 0 <= i < j < h.given.len() implies #[trigger] h.given[i]
        != #[trigger] h.given[j] by {
        assert(h.given[i] == i + 1);
        assert(h.given[j] == j + 1);
    }
}

} // verus!
