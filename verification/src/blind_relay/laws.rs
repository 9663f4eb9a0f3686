//! What holds of the pairing engine across several of its operations.

use vstd::prelude::*;

use super::bridging::{
    bridging_at, lemma_bridging_at, lemma_others, lemma_others_shares, lemma_remove_shares, others,
    shares, Bridging,
};
use super::codec::{parse_pair, parse_unpair, MSG_TYPE_PAIR};
use super::server::{
    capped, elapsed, lists, side_of, snapshot_of, ActivePairing, BlindRelayServer,
    BlindRelayServerConfig, MatchedPairing, PairOutcome, PendingLink, RelayStats, ServerModel,
    Signal, UnpairOutcome,
};
use super::session::{on_message_spec, SessionModel};
use crate::counter::{wrap_i64, wrap_u64};

verus! {

/// In every state that a server reaches, the gauge of open sessions equals the number of slots in
/// use and the gauge of pending pairings equals the size of the pending table (as far as these
/// numbers fit the gauges).
pub proof fn law_gauges_agree_with_tables(server: &BlindRelayServer)
    requires
        server.wf(),
    ensures
        server@.session_count <= i64::MAX ==> server@.stats.sessions_active
            == server@.session_count,
        server@.pending.dom().len() <= i64::MAX ==> server@.stats.pairings_pending
            == server@.pending.dom().len(),
{
    server.lemma_consistent();
}

/// A match joins the two opposite sides of one token: the one that waited and the one that asked.
/// The token does not wait any more.
pub proof fn law_match_joins_opposite_sides(
    m: ServerModel,
    token: [u8; 32],
    link: PendingLink,
    count: usize,
)
    ensures
        ({
            let (after, outcome) = m.paired(token, link, count);
            outcome matches PairOutcome::Matched(p) ==> {
                &&& p.token == token
                &&& p.first.is_initiator != p.second.is_initiator
                &&& m.pending.contains_key(token)
                &&& p.first == side_of(m.pending[token])
                &&& p.second == side_of(link)
                &&& !after.pending.contains_key(token)
            }
        }),
{
}

/// Once one side of a free token waits, the first request for the other side matches it, and
/// leaves the pending table as it was before both.
pub proof fn law_two_sides_meet(
    m: ServerModel,
    token: [u8; 32],
    a: PendingLink,
    b: PendingLink,
    count_a: usize,
    count_b: usize,
)
    requires
        !m.pending.contains_key(token),
        a.is_initiator != b.is_initiator,
        count_a < m.config.max_pairings_per_session,
        count_b < m.config.max_pairings_per_session,
    ensures
        ({
            let (m1, first) = m.paired(token, a, count_a);
            let (m2, second) = m1.paired(token, b, count_b);
            &&& first == PairOutcome::Pending
            &&& second == PairOutcome::Matched(
                MatchedPairing { token, first: side_of(a), second: side_of(b) },
            )
            &&& m2.pending == m.pending
            &&& m2.stats.pairings_pending == m.stats.pairings_pending
            &&& m2.stats.pairings_matched == wrap_u64(m.stats.pairings_matched + 1)
            &&& m2.stats.pairings_active == wrap_i64(m.stats.pairings_active + 1)
        }),
{
    let (m1, first) = m.paired(token, a, count_a);
    let (m2, second) = m1.paired(token, b, count_b);
    assert(m2.pending =~= m.pending);
}

/// A second request for a side that already waits changes no pairing.
pub proof fn law_duplicate_request_changes_no_pairing(
    m: ServerModel,
    token: [u8; 32],
    link: PendingLink,
    count: usize,
)
    requires
        m.pending.contains_key(token),
        m.pending[token].is_initiator == link.is_initiator,
        count < m.config.max_pairings_per_session,
    ensures
        ({
            let (after, outcome) = m.paired(token, link, count);
            &&& outcome == PairOutcome::AlreadyPairing
            &&& after.pending == m.pending
            &&& after.active == m.active
            &&& after.signals == m.signals
            &&& after.stats.pairings_pending == m.stats.pairings_pending
            &&& after.stats.pairings_matched == m.stats.pairings_matched
        }),
{
}

/// A request of a session at its limit is counted and registers nothing.
pub proof fn law_request_at_the_limit_registers_nothing(
    m: ServerModel,
    token: [u8; 32],
    link: PendingLink,
    count: usize,
)
    requires
        count >= m.config.max_pairings_per_session,
    ensures
        ({
            let (after, outcome) = m.paired(token, link, count);
            &&& outcome == PairOutcome::LimitExceeded
            &&& after.pending == m.pending
            &&& after.bridging == m.bridging
            &&& after.active == m.active
            &&& after.signals == m.signals
            &&& after.stats == (RelayStats {
                pairings_requested: wrap_u64(m.stats.pairings_requested + 1),
                ..m.stats
            })
        }),
{
}

/// Cancelling a pending pairing frees its token: either side can register anew.
pub proof fn law_cancel_frees_the_token(
    m: ServerModel,
    session_id: u64,
    token: [u8; 32],
    now: u128,
    link: PendingLink,
    count: usize,
)
    requires
        m.pending.contains_key(token),
        m.pending[token].session_id == session_id,
        count < m.config.max_pairings_per_session,
    ensures
        ({
            let (m1, outcome) = m.unpaired(session_id, token, now);
            &&& outcome == UnpairOutcome::Cancelled
            &&& m1.paired(token, link, count).1 == PairOutcome::Pending
        }),
{
}

/// A pending pairing can only be cancelled by the session that registered it.
pub proof fn law_only_the_holder_cancels(
    m: ServerModel,
    session_id: u64,
    token: [u8; 32],
    now: u128,
)
    requires
        m.pending.contains_key(token),
        m.pending[token].session_id != session_id,
    ensures
        ({
            let (after, outcome) = m.unpaired(session_id, token, now);
            &&& outcome == UnpairOutcome::NotFound
            &&& after.pending == m.pending
            &&& after.active == m.active
            &&& after.stats == m.stats
        }),
{
}

/// Unpairing an active token tears it down once, whichever session asks; asking again finds
/// nothing.
pub proof fn law_active_pairing_is_torn_down_once(
    m: ServerModel,
    session_id: u64,
    other_id: u64,
    token: [u8; 32],
    now: u128,
    later: u128,
)
    requires
        !m.pending.contains_key(token),
        m.active.contains_key(token),
    ensures
        ({
            let (m1, first) = m.unpaired(session_id, token, now);
            let (m2, second) = m1.unpaired(other_id, token, later);
            &&& first == UnpairOutcome::Destroyed
            &&& m1.signals == m.signals.push(Signal::Teardown(m.active[token].teardown_tx))
            &&& second == UnpairOutcome::NotFound
            &&& m2.signals == m1.signals
        }),
{
}

/// The end of a session leaves nothing of it behind: no pending pairing, no active pairing, no
/// idle clock and no outbound queue. Pairings of other sessions stay.
pub proof fn law_release_removes_exactly_the_session(
    m: ServerModel,
    session_id: u64,
    order: Seq<[u8; 32]>,
)
    requires
        lists(order, m.active_of(session_id)),
    ensures
        ({
            let after = m.released(session_id, order);
            &&& after.pending_of(session_id) == Set::<[u8; 32]>::empty()
            &&& after.active_of(session_id) == Set::<[u8; 32]>::empty()
            &&& shares(after.bridging, session_id) == 0
            &&& after.held(session_id) == 0
            &&& !after.activity.contains_key(session_id)
            &&& !after.outbound.contains_key(session_id)
            &&& forall|t: [u8; 32]| #[trigger]
                m.pending.contains_key(t) && m.pending[t].session_id != session_id
                    ==> after.pending.contains_key(t) && after.pending[t] == m.pending[t]
            &&& forall|t: [u8; 32]| #[trigger]
                m.active.contains_key(t) && !m.active_of(session_id).contains(t)
                    ==> after.active.contains_key(t) && after.active[t] == m.active[t]
        }),
{
    let after = m.released(session_id, order);
    assert(after.pending_of(session_id) =~= Set::<[u8; 32]>::empty());
    assert(after.active_of(session_id) =~= Set::<[u8; 32]>::empty());
    lemma_others(m.bridging, session_id);
}

/// Every active pairing of a session that ends is told to tear down, and no other.
pub proof fn law_release_signals_each_active_pairing(
    m: ServerModel,
    session_id: u64,
    order: Seq<[u8; 32]>,
    token: [u8; 32],
)
    requires
        lists(order, m.active_of(session_id)),
        m.active_of(session_id).contains(token),
    ensures
        exists|i: int|
            m.signals.len() <= i < m.released(session_id, order).signals.len()
                && #[trigger] m.released(session_id, order).signals[i] == Signal::Teardown(
                m.active[token].teardown_tx,
            ),
        m.released(session_id, order).signals.len() == m.signals.len() + order.len(),
{
    assert(order.to_set().contains(token));
    let i = choose|i: int| 0 <= i < order.len() && order[i] == token;
    let after = m.released(session_id, order);
    assert(after.signals[m.signals.len() + i] == Signal::Teardown(m.active[token].teardown_tx));
}

/// A sweep drops the pairings that waited too long and keeps the others; sweeping again at the
/// same moment drops nothing.
pub proof fn law_sweep_drops_exactly_the_expired(m: ServerModel, now: u128)
    ensures
        forall|t: [u8; 32]| #[trigger]
            m.swept(now).pending.contains_key(t) <==> m.pending.contains_key(t) && elapsed(
                now,
                m.pending[t].created_at,
            ) <= m.config.pairing_timeout,
        m.swept(now).expired(now) == Set::<[u8; 32]>::empty(),
        m.swept(now).active == m.active,
{
    assert(m.swept(now).expired(now) =~= Set::<[u8; 32]>::empty());
}

/// A session is only idle once the timeout has passed since it was last heard of.
pub proof fn law_activity_resets_the_idle_clock(
    m: ServerModel,
    session_id: u64,
    heard: u128,
    now: u128,
)
    requires
        elapsed(now, heard) <= m.config.idle_session_timeout,
    ensures
        !m.touched(session_id, heard).idle(now).contains(session_id),
{
}

/// Every pair and every unpair request counts as activity, whatever its outcome.
pub proof fn law_requests_are_activity(
    m: ServerModel,
    token: [u8; 32],
    link: PendingLink,
    count: usize,
    session_id: u64,
    now: u128,
)
    ensures
        m.paired(token, link, count).0.activity == m.activity.insert(
            link.session_id,
            link.created_at,
        ),
        m.unpaired(session_id, token, now).0.activity == m.activity.insert(session_id, now),
{
}

/// Accepting a session never takes more slots than configured.
pub proof fn law_sessions_stay_within_the_limit(m: ServerModel)
    requires
        m.session_count < m.config.max_sessions,
    ensures
        m.accepted().session_count <= m.config.max_sessions,
        m.accepted().config == m.config,
        m.next_session_id < u64::MAX ==> m.accepted().next_session_id > m.next_session_id,
{
}

/// A slot that was given back can be taken again, though all were taken before.
pub proof fn law_release_frees_a_slot(m: ServerModel, session_id: u64, order: Seq<[u8; 32]>)
    requires
        0 < m.session_count <= m.config.max_sessions,
    ensures
        m.released(session_id, order).session_count == m.session_count - 1,
        m.released(session_id, order).session_count < m.released(
            session_id,
            order,
        ).config.max_sessions,
{
}

/// A pair message of a session is refused exactly where the session holds as many pairings as it
/// may, pending and matched together.
pub proof fn law_refused_exactly_at_the_limit(
    s: SessionModel,
    m: ServerModel,
    data: Seq<u8>,
    now: u128,
)
    requires
        parse_pair(data) is Some,
    ensures
        ({
            let (msg, _) = parse_pair(data)->0;
            let link = PendingLink {
                session_id: s.session_id,
                is_initiator: msg.is_initiator,
                client_stream_id: msg.id,
                outbound_tx: s.outbound_tx,
                created_at: now,
            };
            let (m1, outcome) = m.paired(msg.token, link, capped(m.held(s.session_id) as int));
            let (s2, m2, matched) = on_message_spec(s, m, MSG_TYPE_PAIR, data, now);
            &&& m2 == m1
            &&& matched == match outcome {
                PairOutcome::Matched(p) => Some(p),
                _ => None,
            }
            &&& outcome is LimitExceeded <==> m.held(s.session_id)
                >= m.config.max_pairings_per_session
        }),
{
}

/// No session ever holds more pairings than it may, pending and matched together: a message of any
/// session keeps that.
pub proof fn law_pairings_stay_within_the_limit(
    s: SessionModel,
    m: ServerModel,
    message_type: u32,
    data: Seq<u8>,
    now: u128,
    who: u64,
)
    requires
        m.consistent(),
        m.held(who) <= m.config.max_pairings_per_session,
    ensures
        ({
            let (s2, m2, matched) = on_message_spec(s, m, message_type, data, now);
            &&& s2 == s
            &&& m2.config == m.config
            &&& m2.held(who) <= m2.config.max_pairings_per_session
            &&& who != s.session_id ==> m2.held(who) <= m.held(who)
        }),
{
    let (s2, m2, matched) = on_message_spec(s, m, message_type, data, now);
    lemma_held_sets(m, who);
    if m2.pending == m.pending && m2.active == m.active {
        assert(m2.pending_of(who) =~= m.pending_of(who));
        assert(m2.active_of(who) =~= m.active_of(who));
    } else if message_type == MSG_TYPE_PAIR {
        let (msg, _) = parse_pair(data)->0;
        let token = msg.token;
        assert(m2.active_of(who) =~= m.active_of(who));
        if m.pending.contains_key(token) {
            let holder = m.pending[token].session_id;
            assert(m2.pending =~= m.pending.remove(token));
            assert(m2.pending_of(who) =~= m.pending_of(who).remove(token));
            assert(m.pending_of(holder).contains(token));
            assert(m2.bridging.drop_last() =~= m.bridging);
        } else if who == s.session_id {
            assert(m2.pending_of(who) =~= m.pending_of(who).insert(token));
        } else {
            assert(m2.pending_of(who) =~= m.pending_of(who));
        }
    } else {
        let (msg, _) = parse_unpair(data)->0;
        let token = msg.token;
        if m.pending.contains_key(token) {
            assert(m2.pending_of(who) =~= m.pending_of(who).remove(token));
            assert(m2.active_of(who) =~= m.active_of(who));
        } else {
            assert(m2.pending_of(who) =~= m.pending_of(who));
            assert(m2.active_of(who) =~= m.active_of(who).remove(token));
        }
    }
}

/// Bridging a match leaves what each session holds as it is, except that a bridged pairing of the
/// same token which it replaces is not held any more.
pub proof fn law_bridging_raises_nothing(
    m: ServerModel,
    token: [u8; 32],
    pair: ActivePairing,
    who: u64,
)
    requires
        m.consistent(),
        m.is_bridging(token, pair.session_ids[0], pair.session_ids[1]),
    ensures
        m.marked(token, pair).held(who) <= m.held(who),
        !m.active.contains_key(token) ==> m.marked(token, pair).held(who) == m.held(who),
{
    let after = m.marked(token, pair);
    let (a, b) = (pair.session_ids[0], pair.session_ids[1]);
    let i = bridging_at(m.bridging, token, a, b);
    lemma_bridging_at(m.bridging, token, a, b);
    lemma_remove_shares(m.bridging, i, who);
    lemma_held_sets(m, who);
    assert(after.pending_of(who) =~= m.pending_of(who));
    if a == who || b == who {
        assert(after.active_of(who) =~= m.active_of(who).insert(token));
    } else {
        assert(after.active_of(who) =~= m.active_of(who).remove(token));
    }
}

/// Ended sessions, sweeps and matches that are given up only take pairings away: no session holds
/// more than before.
pub proof fn law_cleanup_raises_nothing(
    m: ServerModel,
    ended: u64,
    order: Seq<[u8; 32]>,
    now: u128,
    token: [u8; 32],
    a: u64,
    b: u64,
    who: u64,
)
    requires
        m.consistent(),
    ensures
        m.released(ended, order).held(who) <= m.held(who),
        m.swept(now).held(who) <= m.held(who),
        m.abandoned(token, a, b).held(who) <= m.held(who),
{
    lemma_held_sets(m, who);
    let x = m.released(ended, order);
    let y = m.swept(now);
    let z = m.abandoned(token, a, b);
    assert(x.pending_of(who).subset_of(m.pending_of(who)));
    assert(x.active_of(who).subset_of(m.active_of(who)));
    assert(y.pending_of(who).subset_of(m.pending_of(who)));
    assert(y.active_of(who) =~= m.active_of(who));
    assert(z.pending_of(who) =~= m.pending_of(who));
    assert(z.active_of(who) =~= m.active_of(who));
    vstd::set_lib::lemma_len_subset(x.pending_of(who), m.pending_of(who));
    vstd::set_lib::lemma_len_subset(x.active_of(who), m.active_of(who));
    vstd::set_lib::lemma_len_subset(y.pending_of(who), m.pending_of(who));
    lemma_others_shares(m.bridging, ended, who);
    if m.is_bridging(token, a, b) {
        lemma_bridging_at(m.bridging, token, a, b);
        lemma_remove_shares(m.bridging, bridging_at(m.bridging, token, a, b), who);
    }
}

/// A match that is given up, or one of whose sessions ends, is not bridged and not active any
/// more.
pub proof fn law_unbridged_match_ends(
    m: ServerModel,
    session_id: u64,
    order: Seq<[u8; 32]>,
    token: [u8; 32],
    a: u64,
    b: u64,
)
    requires
        m.is_bridging(token, a, b),
    ensures
        m.abandoned(token, a, b).matched_now() == m.matched_now() - 1,
        m.abandoned(token, a, b).active == m.active,
        session_id == a || session_id == b ==> !m.released(session_id, order).is_bridging(
            token,
            a,
            b,
        ),
{
    lemma_bridging_at(m.bridging, token, a, b);
    if session_id == a || session_id == b {
        let o = others(m.bridging, session_id);
        lemma_bridging_at(o, token, a, b);
        let i = bridging_at(o, token, a, b);
        if i < o.len() {
            lemma_others(m.bridging, session_id);
            lemma_remove_shares(o, i, session_id);
            assert(o[i].joins(session_id));
        }
    }
}

proof fn lemma_held_sets(m: ServerModel, session_id: u64)
    requires
        m.consistent(),
    ensures
        m.pending_of(session_id).finite(),
        m.active_of(session_id).finite(),
{
}

// ── What each operation does ─────────────────────────────────────────────────

/// Counters and gauges count as whole numbers do, as long as these fit.
pub proof fn law_counters_count(n: int)
    ensures
        0 <= n <= u64::MAX ==> wrap_u64(n) == n,
        i64::MIN <= n <= i64::MAX ==> wrap_i64(n) == n,
        wrap_u64(n + 0x1_0000_0000_0000_0000) == wrap_u64(n),
        wrap_i64(n + 0x1_0000_0000_0000_0000) == wrap_i64(n),
{
}

/// A session is idle exactly where it is registered and was last heard of longer ago than the idle
/// timeout, whatever pairings it holds. A clock that lies ahead makes no session idle.
pub proof fn law_idle_is_silence_alone(m: ServerModel, now: u128, session_id: u64)
    ensures
        m.idle(now).contains(session_id) <==> m.outbound.contains_key(session_id)
            && m.activity.contains_key(session_id) && now > m.activity[session_id] && now
            - m.activity[session_id] > m.config.idle_session_timeout,
{
}

/// Each session that is told to close gets one signal, on its own queue, and nothing else changes:
/// the sessions keep their pairings until they end.
pub proof fn law_closing_tells_each_session(m: ServerModel, closed: Seq<u64>)
    ensures
        ({
            let after = m.closing(closed);
            &&& after.signals.len() == m.signals.len() + closed.len()
            &&& m.signals.is_prefix_of(after.signals)
            &&& forall|i: int|
                0 <= i < closed.len() ==> after.signals[m.signals.len() + i] == Signal::Close(
                    m.outbound[#[trigger] closed[i]],
                )
            &&& after == (ServerModel { signals: after.signals, ..m })
        }),
{
}

/// A session waits on exactly the pending tokens that it registered, has part in exactly the
/// bridged pairings that name it, and an unmatched pairing is expired exactly where it waited
/// longer than the pairing timeout.
pub proof fn law_what_a_session_holds(m: ServerModel, token: [u8; 32], session_id: u64, now: u128)
    ensures
        m.pending_of(session_id).contains(token) <==> m.pending.contains_key(token)
            && m.pending[token].session_id == session_id,
        m.active_of(session_id).contains(token) <==> m.active.contains_key(token) && (
        m.active[token].session_ids[0] == session_id || m.active[token].session_ids[1]
            == session_id),
        m.expired(now).contains(token) <==> m.pending.contains_key(token) && now
            > m.pending[token].created_at && now - m.pending[token].created_at
            > m.config.pairing_timeout,
{
}

/// Of the matches that are not bridged a session has part in those that name it on either side.
/// When it ends, they go and the others stay in their order.
pub proof fn law_matches_of_a_session(s: Seq<Bridging>, session_id: u64)
    ensures
        shares(s, session_id) == s.filter(
            |b: Bridging| b.first == session_id || b.second == session_id,
        ).len(),
        others(s, session_id) == s.filter(
            |b: Bridging| !(b.first == session_id || b.second == session_id),
        ),
    decreases s.len(),
{
    reveal(Seq::filter);
    if s.len() > 0 {
        law_matches_of_a_session(s.drop_last(), session_id);
    }
}

/// A match of a token waits to be bridged exactly where one is listed between the two sessions, in
/// either order; the oldest such is meant.
pub proof fn law_match_is_found(m: ServerModel, token: [u8; 32], a: u64, b: u64)
    ensures
        m.is_bridging(token, a, b) <==> exists|i: int|
            0 <= i < m.bridging.len() && (#[trigger] m.bridging[i]).token == token && ((
            m.bridging[i].first == a && m.bridging[i].second == b) || (m.bridging[i].first == b
                && m.bridging[i].second == a)),
        m.is_bridging(token, a, b) ==> {
            let at = bridging_at(m.bridging, token, a, b);
            &&& 0 <= at < m.bridging.len()
            &&& m.bridging[at].token == token
            &&& {
                ||| m.bridging[at].first == a && m.bridging[at].second == b
                ||| m.bridging[at].first == b && m.bridging[at].second == a
            }
            &&& forall|i: int|
                0 <= i < at ==> !((#[trigger] m.bridging[i]).token == token && ((
                m.bridging[i].first == a && m.bridging[i].second == b) || (m.bridging[i].first == b
                    && m.bridging[i].second == a)))
        },
{
    lemma_bridging_at(m.bridging, token, a, b);
    let at = bridging_at(m.bridging, token, a, b);
    if at < m.bridging.len() {
        assert(m.bridging[at].is_for(token, a, b));
    }
    assert forall|i: int|
        0 <= i < m.bridging.len() && (#[trigger] m.bridging[i]).token == token && ((
        m.bridging[i].first == a && m.bridging[i].second == b) || (m.bridging[i].first == b
            && m.bridging[i].second == a)) implies at <= i by {
        assert(m.bridging[i].is_for(token, a, b));
    }
}

/// A pair request is refused exactly where the session holds as many pairings as it may. Else it
/// waits where the token is free, matches the waiting side where that is the other one, and is a
/// repetition where it is the same. Whatever comes of it, it is counted and the session was heard
/// of.
pub proof fn law_pair_request_is_judged(
    m: ServerModel,
    token: [u8; 32],
    link: PendingLink,
    count: usize,
)
    ensures
        ({
            let (after, r) = m.paired(token, link, count);
            let full = count >= m.config.max_pairings_per_session;
            let waiting = m.pending.contains_key(token);
            let other = m.pending[token].is_initiator != link.is_initiator;
            &&& r is LimitExceeded <==> full
            &&& r is Pending <==> !full && !waiting
            &&& r is AlreadyPairing <==> !full && waiting && !other
            &&& r is Matched <==> !full && waiting && other
            &&& r is Pending ==> after.pending == m.pending.insert(token, link)
            &&& r is Matched ==> after.pending == m.pending.remove(token)
            &&& !(r is Pending || r is Matched) ==> after.pending == m.pending
            &&& r is Matched ==> after.bridging.len() == m.bridging.len() + 1
                && m.bridging.is_prefix_of(after.bridging) && after.bridging.last().token == token
                && after.bridging.last().first == m.pending[token].session_id
                && after.bridging.last().second == link.session_id
            &&& !(r is Matched) ==> after.bridging == m.bridging
            &&& after.activity.dom() == m.activity.dom().insert(link.session_id)
            &&& after.activity[link.session_id] == link.created_at
            &&& forall|s: u64|
                s != link.session_id ==> #[trigger] after.activity[s] == m.activity[s]
            &&& after.active == m.active && after.signals == m.signals && after.outbound
                == m.outbound && after.config == m.config
            &&& after.session_count == m.session_count && after.next_session_id
                == m.next_session_id
        }),
{
    let (after, _) = m.paired(token, link, count);
    assert(after.activity.dom() =~= m.activity.dom().insert(link.session_id));
}

/// A match hands out both sides as they were requested, the one that waited first.
pub proof fn law_match_hands_out_both_sides(
    m: ServerModel,
    token: [u8; 32],
    link: PendingLink,
    count: usize,
)
    requires
        count < m.config.max_pairings_per_session,
        m.pending.contains_key(token),
        m.pending[token].is_initiator != link.is_initiator,
    ensures
        m.paired(token, link, count).1 matches PairOutcome::Matched(p) && {
            let l = m.pending[token];
            &&& p.token == token
            &&& p.first.session_id == l.session_id && p.first.is_initiator == l.is_initiator
            &&& p.first.client_stream_id == l.client_stream_id && p.first.outbound_tx
                == l.outbound_tx
            &&& p.second.session_id == link.session_id && p.second.is_initiator
                == link.is_initiator
            &&& p.second.client_stream_id == link.client_stream_id && p.second.outbound_tx
                == link.outbound_tx
        },
{
}

/// Every request is counted, also a refused one. A request that waits raises the pending gauge; a
/// match lowers it and counts as matched and active. No request touches another number.
pub proof fn law_pair_request_is_counted(
    m: ServerModel,
    token: [u8; 32],
    link: PendingLink,
    count: usize,
)
    ensures
        ({
            let (after, r) = m.paired(token, link, count);
            let (s, t) = (m.stats, after.stats);
            &&& s.pairings_requested < u64::MAX ==> t.pairings_requested == s.pairings_requested
                + 1
            &&& r is Pending && s.pairings_pending < i64::MAX ==> t.pairings_pending
                == s.pairings_pending + 1
            &&& r is Matched && s.pairings_pending > i64::MIN ==> t.pairings_pending
                == s.pairings_pending - 1
            &&& !(r is Pending || r is Matched) ==> t.pairings_pending == s.pairings_pending
            &&& r is Matched && s.pairings_matched < u64::MAX ==> t.pairings_matched
                == s.pairings_matched + 1
            &&& r is Matched && s.pairings_active < i64::MAX ==> t.pairings_active
                == s.pairings_active + 1
            &&& !(r is Matched) ==> t.pairings_matched == s.pairings_matched && t.pairings_active
                == s.pairings_active
            &&& t.sessions_accepted == s.sessions_accepted && t.sessions_active
                == s.sessions_active
            &&& t.pairings_cancelled == s.pairings_cancelled
            &&& t.streams_opened == s.streams_opened && t.streams_closed == s.streams_closed
                && t.streams_errors == s.streams_errors
        }),
{
}

/// An unpair request cancels a pending pairing of the session that registered it, and ends an
/// active one whichever session asks, unless the token is pending too. It finds nothing else.
pub proof fn law_unpair_request_is_judged(
    m: ServerModel,
    session_id: u64,
    token: [u8; 32],
    now: u128,
)
    ensures
        ({
            let (after, r) = m.unpaired(session_id, token, now);
            let (s, t) = (m.stats, after.stats);
            let waiting = m.pending.contains_key(token);
            let bridged = m.active.contains_key(token);
            let own = m.pending[token].session_id == session_id;
            &&& r is Cancelled <==> waiting && own
            &&& r is Destroyed <==> !waiting && bridged
            &&& r is NotFound <==> (waiting && !own) || (!waiting && !bridged)
            &&& after.pending == if r is Cancelled {
                m.pending.remove(token)
            } else {
                m.pending
            }
            &&& after.active == if r is Destroyed {
                m.active.remove(token)
            } else {
                m.active
            }
            &&& after.signals == if r is Destroyed {
                m.signals.push(Signal::Teardown(m.active[token].teardown_tx))
            } else {
                m.signals
            }
            &&& after.bridging == m.bridging && after.outbound == m.outbound
            &&& after.activity == m.activity.insert(session_id, now)
            &&& after.session_count == m.session_count && after.config == m.config
                && after.next_session_id == m.next_session_id
            &&& r is Cancelled && s.pairings_cancelled < u64::MAX ==> t.pairings_cancelled
                == s.pairings_cancelled + 1
            &&& r is Cancelled && s.pairings_pending > i64::MIN ==> t.pairings_pending
                == s.pairings_pending - 1
            &&& !(r is Cancelled) ==> t.pairings_cancelled == s.pairings_cancelled
                && t.pairings_pending == s.pairings_pending
            &&& r is Destroyed && s.pairings_active > i64::MIN ==> t.pairings_active
                == s.pairings_active - 1
            &&& r is Destroyed && s.streams_closed < u64::MAX - 1 ==> t.streams_closed
                == s.streams_closed + 2
            &&& !(r is Destroyed) ==> t.pairings_active == s.pairings_active && t.streams_closed
                == s.streams_closed
            &&& t.pairings_requested == s.pairings_requested && t.pairings_matched
                == s.pairings_matched
            &&& t.sessions_accepted == s.sessions_accepted && t.sessions_active
                == s.sessions_active
            &&& t.streams_opened == s.streams_opened && t.streams_errors == s.streams_errors
        }),
{
}

/// The end of a session takes its waiting requests, its unbridged matches and its bridged pairings
/// with it, and nothing of other sessions. Each of its bridged pairings is told to tear down.
pub proof fn law_release_takes_what_the_session_holds(
    m: ServerModel,
    session_id: u64,
    order: Seq<[u8; 32]>,
)
    ensures
        ({
            let after = m.released(session_id, order);
            &&& forall|t: [u8; 32]|
                #![trigger after.pending.contains_key(t)]
                after.pending.contains_key(t) <==> m.pending.contains_key(t)
                    && m.pending[t].session_id != session_id
            &&& forall|t: [u8; 32]|
                #![trigger after.pending[t]]
                after.pending.contains_key(t) ==> after.pending[t] == m.pending[t]
            &&& forall|t: [u8; 32]|
                #![trigger after.active.contains_key(t)]
                after.active.contains_key(t) <==> m.active.contains_key(t)
                    && m.active[t].session_ids[0] != session_id && m.active[t].session_ids[1]
                    != session_id
            &&& forall|t: [u8; 32]|
                #![trigger after.active[t]]
                after.active.contains_key(t) ==> after.active[t] == m.active[t]
            &&& after.bridging == m.bridging.filter(
                |b: Bridging| !(b.first == session_id || b.second == session_id),
            )
            &&& after.activity == m.activity.remove(session_id)
            &&& after.outbound == m.outbound.remove(session_id)
            &&& m.session_count > 0 ==> after.session_count == m.session_count - 1
            &&& after.next_session_id == m.next_session_id && after.config == m.config
            &&& after.signals.len() == m.signals.len() + order.len()
            &&& m.signals.is_prefix_of(after.signals)
            &&& forall|i: int|
                0 <= i < order.len() ==> after.signals[m.signals.len() + i] == Signal::Teardown(
                    m.active[#[trigger] order[i]].teardown_tx,
                )
        }),
{
    law_matches_of_a_session(m.bridging, session_id);
}

/// What the end of a session counts: each waiting request as cancelled, each match and each bridged
/// pairing as not active any more, two closed streams for each bridged one, and one session less.
pub proof fn law_release_is_counted(
    m: ServerModel,
    session_id: u64,
    order: Seq<[u8; 32]>,
    cancelled: Set<[u8; 32]>,
    destroyed: Set<[u8; 32]>,
)
    requires
        forall|t: [u8; 32]| #[trigger]
            cancelled.contains(t) <==> m.pending.contains_key(t) && m.pending[t].session_id
                == session_id,
        forall|t: [u8; 32]| #[trigger]
            destroyed.contains(t) <==> m.active.contains_key(t) && (m.active[t].session_ids[0]
                == session_id || m.active[t].session_ids[1] == session_id),
        m.stats.pairings_cancelled + cancelled.len() <= u64::MAX,
        m.stats.streams_closed + 2 * destroyed.len() <= u64::MAX,
        m.stats.sessions_active > i64::MIN,
        m.stats.pairings_pending - cancelled.len() >= i64::MIN,
        m.stats.pairings_active - destroyed.len() - m.bridging.len() >= i64::MIN,
    ensures
        ({
            let (s, t) = (m.stats, m.released(session_id, order).stats);
            let unbridged = m.bridging.filter(
                |b: Bridging| b.first == session_id || b.second == session_id,
            ).len();
            &&& t.pairings_cancelled == s.pairings_cancelled + cancelled.len()
            &&& t.pairings_pending == s.pairings_pending - cancelled.len()
            &&& t.pairings_active == s.pairings_active - destroyed.len() - unbridged
            &&& t.streams_closed == s.streams_closed + 2 * destroyed.len()
            &&& t.sessions_active == s.sessions_active - 1
            &&& t.sessions_accepted == s.sessions_accepted && t.pairings_requested
                == s.pairings_requested && t.pairings_matched == s.pairings_matched
            &&& t.streams_opened == s.streams_opened && t.streams_errors == s.streams_errors
        }),
{
    assert(cancelled =~= m.pending_of(session_id));
    assert(destroyed =~= m.active_of(session_id));
    law_matches_of_a_session(m.bridging, session_id);
    lemma_others(m.bridging, session_id);
}

/// A sweep drops the unmatched requests that waited longer than the pairing timeout, keeps the
/// others as they are, and counts each dropped one as cancelled.
pub proof fn law_sweep_drops_what_waited_too_long(m: ServerModel, now: u128, gone: Set<[u8; 32]>)
    requires
        forall|t: [u8; 32]| #[trigger]
            gone.contains(t) <==> m.pending.contains_key(t) && now > m.pending[t].created_at && now
                - m.pending[t].created_at > m.config.pairing_timeout,
        m.stats.pairings_cancelled + gone.len() <= u64::MAX,
        m.stats.pairings_pending - gone.len() >= i64::MIN,
    ensures
        ({
            let after = m.swept(now);
            &&& after.pending == m.pending.remove_keys(gone)
            &&& after.stats.pairings_cancelled == m.stats.pairings_cancelled + gone.len()
            &&& after.stats.pairings_pending == m.stats.pairings_pending - gone.len()
            &&& after == (ServerModel {
                pending: after.pending,
                stats: RelayStats {
                    pairings_cancelled: after.stats.pairings_cancelled,
                    pairings_pending: after.stats.pairings_pending,
                    ..m.stats
                },
                ..m
            })
        }),
{
    assert(gone =~= m.expired(now));
}

/// A new session takes one slot and is counted. The next one gets the id after this one's.
pub proof fn law_accepting_takes_a_slot(m: ServerModel)
    requires
        m.session_count < u64::MAX,
        m.next_session_id < u64::MAX,
        m.stats.sessions_accepted < u64::MAX,
        m.stats.sessions_active < i64::MAX,
    ensures
        m.accepted() == (ServerModel {
            session_count: (m.session_count + 1) as u64,
            next_session_id: (m.next_session_id + 1) as u64,
            stats: RelayStats {
                sessions_accepted: (m.stats.sessions_accepted + 1) as u64,
                sessions_active: (m.stats.sessions_active + 1) as i64,
                ..m.stats
            },
            ..m
        }),
{
}

/// Bridging a match takes one match of the token between its sessions off the list, makes the
/// pairing active and counts two streams. Where there is no such match the list stays.
pub proof fn law_bridging_takes_one_match(m: ServerModel, token: [u8; 32], pair: ActivePairing)
    requires
        m.stats.streams_opened < u64::MAX - 1,
    ensures
        ({
            let after = m.marked(token, pair);
            let (a, b) = (pair.session_ids[0], pair.session_ids[1]);
            &&& after.active.contains_key(token) && after.active[token] == pair
            &&& forall|t: [u8; 32]|
                #![trigger after.active.contains_key(t)]
                t != token ==> (after.active.contains_key(t) <==> m.active.contains_key(t))
                    && after.active[t] == m.active[t]
            &&& m.is_bridging(token, a, b) ==> after.bridging == m.bridging.remove(
                bridging_at(m.bridging, token, a, b),
            ) && after.bridging.len() == m.bridging.len() - 1
            &&& !m.is_bridging(token, a, b) ==> after.bridging == m.bridging
            &&& after == (ServerModel {
                bridging: after.bridging,
                active: after.active,
                stats: RelayStats {
                    streams_opened: (m.stats.streams_opened + 2) as u64,
                    ..m.stats
                },
                ..m
            })
        }),
{
    lemma_bridging_at(m.bridging, token, pair.session_ids[0], pair.session_ids[1]);
}

/// A match that is given up leaves the list, is not active any more and counts as one error. Where
/// there is no such match nothing changes.
pub proof fn law_abandoning_takes_one_match(m: ServerModel, token: [u8; 32], a: u64, b: u64)
    requires
        m.stats.streams_errors < u64::MAX,
        m.stats.pairings_active > i64::MIN,
    ensures
        ({
            let after = m.abandoned(token, a, b);
            if m.is_bridging(token, a, b) {
                after == (ServerModel {
                    bridging: m.bridging.remove(bridging_at(m.bridging, token, a, b)),
                    stats: RelayStats {
                        pairings_active: (m.stats.pairings_active - 1) as i64,
                        streams_errors: (m.stats.streams_errors + 1) as u64,
                        ..m.stats
                    },
                    ..m
                })
            } else {
                after == m
            }
        }),
{
}

/// A message of a session acts only where its type is known and it can be read. A pair message is a
/// request of that session for the token in it, an unpair message gives the token up.
pub proof fn law_message_is_a_request(
    s: SessionModel,
    m: ServerModel,
    message_type: u32,
    data: Seq<u8>,
    now: u128,
)
    requires
        m.held(s.session_id) <= usize::MAX,
    ensures
        ({
            let (t, after, matched) = on_message_spec(s, m, message_type, data, now);
            &&& t == s
            &&& message_type > 1 ==> after == m && matched is None
            &&& message_type == 0 ==> match parse_pair(data) {
                Some((msg, _)) => {
                    let link = PendingLink {
                        session_id: s.session_id,
                        is_initiator: msg.is_initiator,
                        client_stream_id: msg.id,
                        outbound_tx: s.outbound_tx,
                        created_at: now,
                    };
                    let (n, r) = m.paired(msg.token, link, m.held(s.session_id) as usize);
                    &&& after == n
                    &&& matched is Some <==> r is Matched
                    &&& r matches PairOutcome::Matched(p) ==> matched == Some(p)
                },
                None => after == m && matched is None,
            }
            &&& message_type == 1 ==> matched is None && after == match parse_unpair(data) {
                Some((msg, _)) => m.unpaired(s.session_id, msg.token, now).0,
                None => m,
            }
        }),
{
}

/// A list of a set names each member once and nothing else.
pub proof fn law_lists_name_each_once<A>(order: Seq<A>, set: Set<A>)
    requires
        lists(order, set),
    ensures
        forall|i: int, j: int| 0 <= i < j < order.len() ==> order[i] != order[j],
        forall|x: A| #[trigger]
            set.contains(x) <==> exists|i: int| 0 <= i < order.len() && order[i] == x,
        order.len() == set.len(),
{
    order.unique_seq_to_set();
    assert forall|x: A| #[trigger] set.contains(x) <==> exists|i: int|
        0 <= i < order.len() && order[i] == x by {
        assert(set.contains(x) <==> order.contains(x));
    }
}

/// A new server has no sessions and no pairings, has counted nothing, and gives the first session
/// the id one. A snapshot holds the numbers of the moment.
pub proof fn law_new_server_is_empty(config: BlindRelayServerConfig, s: RelayStats)
    ensures
        ({
            let m = ServerModel::fresh(config);
            let z = m.stats;
            &&& m.config == config && m.session_count == 0 && m.next_session_id == 1
            &&& m.pending.dom().len() == 0 && m.active.dom().len() == 0 && m.bridging.len() == 0
            &&& m.activity.dom().len() == 0 && m.outbound.dom().len() == 0 && m.signals.len() == 0
            &&& z.sessions_accepted == 0 && z.sessions_active == 0 && z.pairings_requested == 0
            &&& z.pairings_matched == 0 && z.pairings_cancelled == 0 && z.pairings_pending == 0
            &&& z.pairings_active == 0 && z.streams_opened == 0 && z.streams_closed == 0
                && z.streams_errors == 0
        }),
        ({
            let t = snapshot_of(s);
            &&& t.sessions_accepted == s.sessions_accepted && t.sessions_active
                == s.sessions_active
            &&& t.pairings_requested == s.pairings_requested && t.pairings_matched
                == s.pairings_matched
            &&& t.pairings_cancelled == s.pairings_cancelled && t.pairings_pending
                == s.pairings_pending
            &&& t.pairings_active == s.pairings_active && t.streams_opened == s.streams_opened
            &&& t.streams_closed == s.streams_closed && t.streams_errors == s.streams_errors
        }),
{
}

/// A session that is heard of has that moment as its last one, whatever it was before. No other
/// session is touched, and nothing else changes.
pub proof fn law_hearing_sets_the_clock(m: ServerModel, session_id: u64, now: u128)
    ensures
        ({
            let after = m.touched(session_id, now);
            &&& after.activity.contains_key(session_id) && after.activity[session_id] == now
            &&& forall|s: u64|
                #![trigger after.activity.contains_key(s)]
                s != session_id ==> (after.activity.contains_key(s) <==> m.activity.contains_key(
                    s,
                )) && after.activity[s] == m.activity[s]
            &&& after == (ServerModel { activity: after.activity, ..m })
        }),
{
}

/// The pairings that a session holds are counted one by one: a request that waits, a match that
/// is not bridged and a bridged pairing each count once. A count that does not fit stays at the
/// greatest number that does.
pub proof fn law_each_pairing_counts_once(
    m: ServerModel,
    session_id: u64,
    waiting: Set<[u8; 32]>,
    bridged: Set<[u8; 32]>,
)
    requires
        forall|t: [u8; 32]| #[trigger]
            waiting.contains(t) <==> m.pending.contains_key(t) && m.pending[t].session_id
                == session_id,
        forall|t: [u8; 32]| #[trigger]
            bridged.contains(t) <==> m.active.contains_key(t) && (m.active[t].session_ids[0]
                == session_id || m.active[t].session_ids[1] == session_id),
    ensures
        ({
            let n = waiting.len() + bridged.len() + m.bridging.filter(
                |b: Bridging| b.first == session_id || b.second == session_id,
            ).len();
            &&& m.held(session_id) == n
            &&& n <= usize::MAX ==> capped(m.held(session_id) as int) == n
            &&& n > usize::MAX ==> capped(m.held(session_id) as int) == usize::MAX
        }),
{
    assert(waiting =~= m.pending_of(session_id));
    assert(bridged =~= m.active_of(session_id));
    law_matches_of_a_session(m.bridging, session_id);
}

} // verus!
