//! What holds of a swarm across several events.

use vstd::prelude::*;

use super::state::{
    dials_view, first_max, join_fits, leave_fits, lemma_first_max, peer_models, retry_fits,
    Admission, Dial, JoinPlan, LeavePlan, RetryPlan, SwarmModel, SwarmState,
};
use crate::messages::peers_view;
use crate::peer_info::{law_without_keeps_the_others, lemma_without, without, PeerInfo, PeerModel, Priority};

verus! {

/// The own key is registered as a server exactly while some joined topic is announced: joining and
/// leaving keep that.
pub proof fn law_registered_exactly_while_serving(
    m: SwarmModel,
    topic: [u8; 32],
    server: bool,
    client: bool,
)
    requires
        m.server_registered == m.serves(),
    ensures
        m.joined(topic, server, client).server_registered == m.joined(
            topic,
            server,
            client,
        ).serves(),
        m.left(topic).server_registered == m.left(topic).serves(),
{
    if !m.topics.contains_key(topic) {
        let n = m.joined(topic, server, client);
        if server {
            assert(n.topics.contains_key(topic) && n.topics[topic].is_server);
        }
        if m.serves() {
            let t = choose|t: [u8; 32]|
                m.topics.contains_key(t) && (#[trigger] m.topics[t]).is_server;
            assert(n.topics.contains_key(t) && n.topics[t].is_server);
        }
        if n.serves() && !server {
            let t = choose|t: [u8; 32]|
                n.topics.contains_key(t) && (#[trigger] n.topics[t]).is_server;
            assert(m.topics.contains_key(t) && m.topics[t].is_server);
        }
        let l = m.left(topic);
        if m.serves() {
            let t = choose|t: [u8; 32]|
                m.topics.contains_key(t) && (#[trigger] m.topics[t]).is_server;
            assert(l.topics.contains_key(t) && l.topics[t].is_server);
        }
        if l.serves() {
            let t = choose|t: [u8; 32]|
                l.topics.contains_key(t) && (#[trigger] l.topics[t]).is_server;
            assert(m.topics.contains_key(t) && m.topics[t].is_server);
        }
    } else {
        let n = m.parted(topic);
        let l = m.left(topic);
        assert(l.topics == n.topics);
        if n.serves() {
            let t = choose|t: [u8; 32]|
                n.topics.contains_key(t) && (#[trigger] n.topics[t]).is_server;
            assert(l.topics.contains_key(t) && l.topics[t].is_server);
        }
        if l.serves() {
            let t = choose|t: [u8; 32]|
                l.topics.contains_key(t) && (#[trigger] l.topics[t]).is_server;
            assert(n.topics.contains_key(t) && n.topics[t].is_server);
        }
        if n.serves() {
            let t = choose|t: [u8; 32]|
                n.topics.contains_key(t) && (#[trigger] n.topics[t]).is_server;
            assert(m.topics.contains_key(t) && m.topics[t].is_server);
        }
        if m.serves() && !m.topics[topic].is_server {
            let t = choose|t: [u8; 32]|
                m.topics.contains_key(t) && (#[trigger] m.topics[t]).is_server;
            assert(n.topics.contains_key(t) && n.topics[t].is_server);
        }
    }
}

/// Joining a topic that is joined changes nothing, and leaving a topic undoes joining it: topics
/// and registration are as they were.
pub proof fn law_leave_undoes_join(m: SwarmModel, topic: [u8; 32], server: bool, client: bool)
    requires
        m.server_registered == m.serves(),
        !m.topics.contains_key(topic),
    ensures
        ({
            let joined = m.joined(topic, server, client);
            &&& joined.joined(topic, client, server) == joined
            &&& joined.left(topic).topics == m.topics
            &&& joined.left(topic).server_registered == m.server_registered
            &&& joined.left(topic).left(topic) == joined.left(topic)
        }),
{
    let joined = m.joined(topic, server, client);
    assert(joined.left(topic).topics =~= m.topics);
    law_registered_exactly_while_serving(m, topic, server, client);
    law_registered_exactly_while_serving(joined, topic, server, client);
}

/// After a topic was left, no peer belongs to it; other topics of peers stay.
pub proof fn law_left_topic_is_forgotten(
    m: SwarmModel,
    topic: [u8; 32],
    other: [u8; 32],
    pk: [u8; 32],
)
    requires
        m.topics.contains_key(topic),
        m.peers.contains_key(pk),
        other != topic,
    ensures
        m.left(topic).peers.contains_key(pk),
        !m.left(topic).peers[pk].topics.contains(topic),
        m.left(topic).peers[pk].topics.contains(other) == m.peers[pk].topics.contains(other),
{
    lemma_without(m.peers[pk].topics, topic);
    assert(m.left(topic).peers[pk].topics == without(m.peers[pk].topics, topic));
}

/// A peer that is found several times is queued once, and one that is connected, being dialled,
/// banned or waiting is not queued.
pub proof fn law_peer_is_queued_once(
    m: SwarmModel,
    pk: [u8; 32],
    relays: Seq<(Seq<char>, u16)>,
    topic: [u8; 32],
    priority: Priority,
    relays2: Seq<(Seq<char>, u16)>,
    topic2: [u8; 32],
    priority2: Priority,
)
    ensures
        ({
            let once = m.found(pk, relays, topic, priority);
            &&& once.found(pk, relays2, topic2, priority2).queue == once.queue
            &&& m.connections.contains_key(pk) ==> once == m
            &&& m.peers.contains_key(pk) && (m.peers[pk].connecting || m.peers[pk].banned
                || m.peers[pk].waiting) ==> once.queue == m.queue
        }),
{
}

/// Of the queued peers one with the highest priority is dialled first, and among those the one
/// that was queued first.
pub proof fn law_highest_priority_is_dialled_first(m: SwarmModel, other: int)
    requires
        m.can_dial(),
        0 <= other < m.queue.len(),
    ensures
        ({
            let (_, dial) = m.dialled_one();
            let i = first_max(m.ranks());
            &&& 0 <= i < m.queue.len()
            &&& dial.public_key == m.queue[i]
            &&& m.rank_of(m.queue[other]) <= m.rank_of(dial.public_key)
            &&& other < i ==> m.rank_of(m.queue[other]) < m.rank_of(dial.public_key)
        }),
{
    lemma_first_max(m.ranks());
    let i = first_max(m.ranks());
    assert(m.ranks()[other] <= m.ranks()[i]);
    if other < i {
        assert(m.ranks()[other] < m.ranks()[i]);
    }
}

/// Dialling stops when the limit of parallel dials is reached or the queue is empty, and not
/// before. Each dial counts as one, and the swarm never dials itself.
pub proof fn law_dials_fill_the_free_slots(m: SwarmModel)
    requires
        m.consistent(),
    ensures
        ({
            let (after, dials) = m.dialled();
            &&& after.active_connects == m.active_connects + dials.len()
            &&& after.active_connects <= m.max_parallel
            &&& after.queue.len() == m.queue.len() - dials.len()
            &&& after.active_connects == m.max_parallel || after.queue.len() == 0
            &&& forall|i: int| 0 <= i < dials.len() ==> (#[trigger] dials[i]).public_key
                != m.public_key
            &&& after.connections == m.connections
            &&& after.topics == m.topics
        }),
    decreases m.queue.len(),
{
    if m.can_dial() {
        lemma_first_max(m.ranks());
        let (n, d) = m.dialled_one();
        assert(m.queue.contains(d.public_key)) by {
            assert(m.queue[first_max(m.ranks())] == d.public_key);
        }
        super::state::lemma_dialled_consistent(m);
        law_dials_fill_the_free_slots(n);
        let (after, rest) = n.dialled();
        let dials = seq![d] + rest;
        assert forall|i: int| 0 <= i < dials.len() implies (#[trigger] dials[i]).public_key
            != m.public_key by {
            if i > 0 {
                assert(dials[i] == rest[i - 1]);
            }
        }
    }
}

/// There are never more connections than there may be: in every state that a swarm reaches, and
/// whatever comes in next. A connection that is refused changes none of those that are there.
pub proof fn law_connections_stay_within_capacity(
    swarm: &SwarmState,
    pk: [u8; 32],
    has_stream: bool,
)
    requires
        swarm.wf(),
    ensures
        ({
            let m = swarm@;
            let inbound = m.admitted(pk, has_stream);
            &&& m.connections.dom().len() <= m.max_peers
            &&& inbound.connections.dom().len() <= m.max_peers
            &&& m.admission(pk, has_stream) == Admission::Accepted
                ==> inbound.connections == m.connections.insert(pk, false)
            &&& m.admission(pk, has_stream) != Admission::Accepted ==> inbound == m
            &&& !m.surplus(pk) ==> m.connected(pk).connections.dom().len() <= m.max_peers
        }),
{
    swarm.lemma_consistent();
    let m = swarm@;
    assert(m.connections.insert(pk, true).dom() =~= m.connections.dom().insert(pk));
    if m.connections.contains_key(pk) {
        assert(m.connections.dom().insert(pk) =~= m.connections.dom());
    }
}

/// The slot of an inbound connection whose stream failed can be taken again, by the same peer.
pub proof fn law_failed_stream_frees_its_slot(m: SwarmModel, pk: [u8; 32])
    requires
        m.connections.dom().finite(),
        m.admission(pk, true) == Admission::Accepted,
    ensures
        ({
            let n = m.admitted(pk, true);
            let released = SwarmModel { connections: n.connections.remove(pk), ..n };
            &&& n.admission(pk, true) == Admission::AlreadyConnected
            &&& released == m
            &&& released.admission(pk, true) == Admission::Accepted
        }),
{
    let n = m.admitted(pk, true);
    assert(n.connections.remove(pk) =~= m.connections);
}

/// A peer that failed and waits is not queued by what is found of it meanwhile. When its delay is
/// over it is queued, under the same rules as a peer that did not fail; one that is banned or
/// belongs to no topic does not wait.
pub proof fn law_failed_peer_waits_and_is_tried_again(
    m: SwarmModel,
    pk: [u8; 32],
    relays: Seq<(Seq<char>, u16)>,
    topic: [u8; 32],
    priority: Priority,
)
    ensures
        m.retries(pk) ==> m.retried(pk).found(pk, relays, topic, priority).queue == m.queue,
        m.retries(pk) && m.wants(pk) && !m.peers[pk].queued && !m.peers[pk].connecting
            ==> m.retried(pk).retry_due(pk, relays, topic, priority).queue == m.queue.push(pk),
        !m.retries(pk) ==> m.retried(pk) == m,
        m.peers.contains_key(pk) && m.peers[pk].banned ==> !m.retries(pk),
{
}

/// Nobody waits for a refresh where no topic is left to be refreshed: joining, leaving, a finished
/// refresh and a flush keep that. In particular, where no topic is joined a flush is done at once.
pub proof fn law_flush_waits_only_for_topics(
    m: SwarmModel,
    topic: [u8; 32],
    server: bool,
    client: bool,
)
    requires
        m.all_refreshed() ==> m.flush_waiters.len() == 0,
    ensures
        m.topics.dom() == Set::<[u8; 32]>::empty() ==> m.all_refreshed(),
        m.joined(topic, server, client).all_refreshed() ==> m.joined(
            topic,
            server,
            client,
        ).flush_waiters.len() == 0,
        m.left(topic).all_refreshed() ==> m.left(topic).flush_waiters.len() == 0,
        m.refreshed(topic).answered().all_refreshed() ==> m.refreshed(
            topic,
        ).answered().flush_waiters.len() == 0,
{
    let j = m.joined(topic, server, client);
    if !m.topics.contains_key(topic) {
        assert(j.topics.contains_key(topic) && !j.topics[topic].refreshed);
    }
    lemma_answered(m.parted(topic));
    lemma_answered(m.refreshed(topic));
    assert forall|t: [u8; 32]|
        m.topics.dom() == Set::<[u8; 32]>::empty() && m.topics.contains_key(t) implies (
    #[trigger] m.topics[t]).refreshed by {
        assert(m.topics.dom().contains(t));
    }
}

proof fn lemma_answered(m: SwarmModel)
    ensures
        m.answered().all_refreshed() == m.all_refreshed(),
        m.answered().all_refreshed() ==> m.answered().flush_waiters.len() == 0,
{
    let n = m.answered();
    assert(n.topics == m.topics);
    if n.all_refreshed() {
        assert forall|t: [u8; 32]| m.topics.contains_key(t) implies (
        #[trigger] m.topics[t]).refreshed by {
            assert(n.topics[t].refreshed);
        }
    }
}

// ── What each event does ─────────────────────────────────────────────────────

/// The priorities are ordered from very low to very high.
pub proof fn law_priorities_are_ordered()
    ensures
        Priority::VeryLow.rank() < Priority::Low.rank() < Priority::Normal.rank()
            < Priority::High.rank() < Priority::VeryHigh.rank(),
{
}

/// A peer that is not the swarm itself and not connected is taken in when it is found, as long as
/// there is room for a connection; any other changes nothing.
pub proof fn law_found_peer_is_taken_in(
    m: SwarmModel,
    pk: [u8; 32],
    relays: Seq<(Seq<char>, u16)>,
    topic: [u8; 32],
    priority: Priority,
)
    ensures
        ({
            let after = m.found(pk, relays, topic, priority);
            if pk != m.public_key && !m.connections.contains_key(pk) && m.connections.dom().len()
                < m.max_peers {
                &&& after.peers.contains_key(pk)
                &&& after.peers[pk].topics.contains(topic)
                &&& forall|x: [u8; 32]|
                    x != pk ==> (#[trigger] after.peers.contains_key(x) <==> m.peers.contains_key(
                        x,
                    )) && after.peers[x] == m.peers[x]
                &&& after.public_key == m.public_key && after.max_peers == m.max_peers
                &&& after.max_parallel == m.max_parallel && after.relay_address == m.relay_address
                &&& after.topics == m.topics && after.connections == m.connections
                &&& after.server_registered == m.server_registered
                &&& after.active_connects == m.active_connects
                &&& after.flush_waiters == m.flush_waiters
            } else {
                after == m
            }
        }),
{
    let after = m.found(pk, relays, topic, priority);
    let p = m.noted(pk, relays, topic);
    if pk != m.public_key && !m.connections.contains_key(pk) && m.connections.dom().len()
        < m.max_peers {
        let q = if m.peers.contains_key(pk) {
            m.peers[pk].topics
        } else {
            Seq::empty()
        };
        if !q.contains(topic) {
            assert(after.peers[pk].topics[q.len() as int] == topic);
        }
    }
}

/// What is known of a peer that was taken in: its topics are the earlier ones in their order, with
/// the one that it was found on behind them where it is new. Its relays are those that were
/// announced last, as long as any were. What was learned from dialling it stays.
pub proof fn law_found_peer_keeps_what_is_known(
    m: SwarmModel,
    pk: [u8; 32],
    relays: Seq<(Seq<char>, u16)>,
    topic: [u8; 32],
    priority: Priority,
)
    requires
        pk != m.public_key,
        !m.connections.contains_key(pk),
        m.connections.dom().len() < m.max_peers,
    ensures
        ({
            let p = m.found(pk, relays, topic, priority).peers[pk];
            let known = m.peers.contains_key(pk);
            let q = m.peers[pk];
            &&& p.topics.contains(topic)
            &&& known ==> {
                &&& q.topics.is_prefix_of(p.topics)
                &&& p.topics.len() == q.topics.len() + (if q.topics.contains(topic) {
                    0int
                } else {
                    1
                })
                &&& relays.len() > 0 ==> p.relay_addresses == relays
                &&& relays.len() == 0 ==> p.relay_addresses == q.relay_addresses
                &&& p.proven == q.proven && p.attempts == q.attempts && p.banned == q.banned
                &&& p.connecting == q.connecting && p.waiting == q.waiting
                &&& p.public_key == q.public_key
            }
            &&& !known ==> {
                &&& p.topics == seq![topic]
                &&& p.relay_addresses == relays
                &&& !p.proven && p.attempts == 0 && !p.banned && !p.connecting && !p.waiting
                &&& p.public_key == pk
            }
        }),
{
    law_found_peer_is_taken_in(m, pk, relays, topic, priority);
    let p = m.found(pk, relays, topic, priority).peers[pk];
    if m.peers.contains_key(pk) {
        let q = m.peers[pk];
        assert(q.topics.is_prefix_of(p.topics));
    } else {
        assert(p.topics =~= seq![topic]);
    }
}

/// A peer that was taken in is queued, at the end and with the priority given, exactly where it was
/// not queued, being dialled, banned or waiting. Else queue and priority stay.
pub proof fn law_found_peer_is_queued(
    m: SwarmModel,
    pk: [u8; 32],
    relays: Seq<(Seq<char>, u16)>,
    topic: [u8; 32],
    priority: Priority,
)
    requires
        pk != m.public_key,
        !m.connections.contains_key(pk),
        m.connections.dom().len() < m.max_peers,
    ensures
        ({
            let after = m.found(pk, relays, topic, priority);
            let held_back = m.peers.contains_key(pk) && (m.peers[pk].queued
                || m.peers[pk].connecting || m.peers[pk].banned || m.peers[pk].waiting);
            &&& !held_back ==> after.queue == m.queue.push(pk) && after.peers[pk].queued
                && after.peers[pk].priority == priority
            &&& held_back ==> after.queue == m.queue && after.peers[pk].queued == m.peers[pk].queued
                && after.peers[pk].priority == m.peers[pk].priority
        }),
{
}

/// The next dial goes to a queued peer than which no queued one has a higher priority and no
/// earlier queued one has the same, through the relays known of it. The peer leaves the queue, is
/// being dialled, and its dials are counted. Nothing else changes.
pub proof fn law_next_dial(m: SwarmModel)
    requires
        m.consistent(),
        m.active_connects < m.max_parallel,
        m.queue.len() > 0,
    ensures
        ({
            let (after, dial) = m.dialled_one();
            let pk = dial.public_key;
            &&& m.queue.contains(pk)
            &&& m.peers.contains_key(pk)
            &&& dial.relay_addresses == m.peers[pk].relay_addresses
            &&& forall|i: int|
                0 <= i < m.queue.len() ==> m.peers[#[trigger] m.queue[i]].priority.rank()
                    <= m.peers[pk].priority.rank()
            &&& forall|i: int, j: int|
                0 <= i < j < m.queue.len() && #[trigger] m.queue[j] == pk ==> m.peers[
                #[trigger] m.queue[i]].priority.rank() < m.peers[pk].priority.rank()
            &&& after.queue.to_multiset() == m.queue.to_multiset().remove(pk)
            &&& after.queue.len() == m.queue.len() - 1
            &&& !after.queue.contains(pk)
            &&& after.active_connects == m.active_connects + 1
            &&& after.peers.dom() == m.peers.dom()
            &&& forall|x: [u8; 32]|
                x != pk ==> #[trigger] after.peers[x] == m.peers[x]
            &&& !after.peers[pk].queued && after.peers[pk].connecting
            &&& m.peers[pk].attempts < u32::MAX ==> after.peers[pk].attempts
                == m.peers[pk].attempts + 1
            &&& after.peers[pk].topics == m.peers[pk].topics
            &&& after.peers[pk].relay_addresses == m.peers[pk].relay_addresses
            &&& after.peers[pk].priority == m.peers[pk].priority
            &&& after.peers[pk].proven == m.peers[pk].proven
            &&& after.peers[pk].banned == m.peers[pk].banned
            &&& after.peers[pk].waiting == m.peers[pk].waiting
            &&& after.topics == m.topics && after.connections == m.connections
            &&& after.server_registered == m.server_registered
            &&& after.flush_waiters == m.flush_waiters
        }),
{
    lemma_first_max(m.ranks());
    let i = first_max(m.ranks());
    let (after, dial) = m.dialled_one();
    let pk = dial.public_key;
    assert(m.queue[i] == pk);
    super::state::lemma_dialled_consistent(m);
    assert forall|k: int| 0 <= k < m.queue.len() implies m.peers.contains_key(
        #[trigger] m.queue[k],
    ) && m.ranks()[k] == m.peers[m.queue[k]].priority.rank() by {
        assert(m.queue.contains(m.queue[k]));
    }
    assert forall|k: int| 0 <= k < m.queue.len() implies m.peers[
        #[trigger] m.queue[k]].priority.rank() <= m.peers[pk].priority.rank() by {
        assert(m.ranks()[k] <= m.ranks()[i]);
    }
    assert forall|k: int, j: int|
        0 <= k < j < m.queue.len() && #[trigger] m.queue[j] == pk implies m.peers[
    #[trigger] m.queue[k]].priority.rank() < m.peers[pk].priority.rank() by {
        assert(j == i);
        assert(m.ranks()[k] < m.ranks()[i]);
    }
    assert(after.peers.dom() =~= m.peers.dom());
    assert(!after.queue.contains(pk)) by {
        assert(after.peers.contains_key(pk) && !after.peers[pk].queued);
    }
    assert(after.queue.to_multiset() =~= m.queue.to_multiset().remove(pk)) by {
        vstd::seq_lib::to_multiset_remove(m.queue, i);
    }
}

/// Dialling goes on from one dial to the next until no more may run or none is queued.
pub proof fn law_dials_come_one_after_the_other(m: SwarmModel)
    requires
        m.consistent(),
    ensures
        ({
            let (after, dials) = m.dialled();
            if m.active_connects < m.max_parallel && m.queue.len() > 0 {
                let (n, d) = m.dialled_one();
                &&& dials == seq![d] + n.dialled().1
                &&& after == n.dialled().0
            } else {
                after == m && dials.len() == 0
            }
        }),
{
}

/// The end of a dial makes room for another one and takes its mark from the peer; nothing else
/// changes.
pub proof fn law_dial_ends(m: SwarmModel, pk: [u8; 32])
    ensures
        ({
            let after = m.dial_ended(pk);
            &&& m.active_connects > 0 ==> after.active_connects == m.active_connects - 1
            &&& m.active_connects == 0 ==> after.active_connects == 0
            &&& after.peers.dom() == m.peers.dom()
            &&& forall|x: [u8; 32]|
                x != pk ==> #[trigger] after.peers[x] == m.peers[x]
            &&& m.peers.contains_key(pk) ==> !after.peers[pk].connecting && (PeerModel {
                connecting: m.peers[pk].connecting,
                ..after.peers[pk]
            }) == m.peers[pk]
            &&& after.queue == m.queue && after.topics == m.topics
            &&& after.connections == m.connections && after.flush_waiters == m.flush_waiters
            &&& after.server_registered == m.server_registered
        }),
{
    assert(m.dial_ended(pk).peers.dom() =~= m.peers.dom());
}

/// A dialled connection that counts is there as one that was dialled, beside the others, and proves
/// its peer. It is one too many exactly where it would be a further one and all slots are taken.
pub proof fn law_dialled_connection_counts(m: SwarmModel, pk: [u8; 32])
    ensures
        ({
            let after = m.connected(pk);
            &&& after.connections.contains_key(pk) && after.connections[pk]
            &&& forall|x: [u8; 32]|
                x != pk ==> (#[trigger] after.connections.contains_key(x)
                    <==> m.connections.contains_key(x)) && after.connections[x] == m.connections[x]
            &&& after.peers.dom() == m.peers.dom()
            &&& forall|x: [u8; 32]|
                x != pk ==> #[trigger] after.peers[x] == m.peers[x]
            &&& m.peers.contains_key(pk) ==> after.peers[pk].proven && (PeerModel {
                proven: m.peers[pk].proven,
                ..after.peers[pk]
            }) == m.peers[pk]
            &&& after.queue == m.queue && after.topics == m.topics
            &&& after.active_connects == m.active_connects
            &&& m.surplus(pk) <==> !m.connections.contains_key(pk) && m.connections.dom().len()
                >= m.max_peers
        }),
{
    assert(m.connected(pk).peers.dom() =~= m.peers.dom());
}

/// Every known peer that is not banned and belongs to a topic is tried again after a failed dial
/// and waits until then, however often it was dialled before, whether it ever connected and
/// whatever its priority. A peer that is not known, banned or without a topic is left as it is.
pub proof fn law_failed_dial_is_always_retried(m: SwarmModel, pk: [u8; 32])
    ensures
        ({
            let after = m.retried(pk);
            let again = m.peers.contains_key(pk) && !m.peers[pk].banned && m.peers[pk].topics.len()
                > 0;
            &&& m.retries(pk) == again
            &&& again ==> after.peers[pk].waiting && (PeerModel {
                waiting: m.peers[pk].waiting,
                ..after.peers[pk]
            }) == m.peers[pk]
            &&& !again ==> after == m
            &&& after.peers.dom() == m.peers.dom()
            &&& forall|x: [u8; 32]|
                x != pk ==> #[trigger] after.peers[x] == m.peers[x]
            &&& after.queue == m.queue && after.topics == m.topics
            &&& after.connections == m.connections && after.active_connects == m.active_connects
        }),
{
    assert(m.retried(pk).peers.dom() =~= m.peers.dom());
}

/// Where a dial failed there is a plan for a retry exactly where the peer is known, not banned and
/// belongs to a topic. The plan names the peer, its relays and its first topic.
pub proof fn law_retry_plan(m: SwarmModel, pk: [u8; 32], r: Option<RetryPlan>)
    requires
        retry_fits(m, pk, r),
    ensures
        r is Some <==> m.peers.contains_key(pk) && !m.peers[pk].banned && m.peers[pk].topics.len()
            > 0,
        r matches Some(p) ==> p.public_key == pk && peers_view(p.relay_addresses@)
            == m.peers[pk].relay_addresses && p.topic == m.peers[pk].topics[0],
{
}

/// When the delay of a failed peer is over it does not wait any more, and is queued as a peer that
/// was just found. After a retry was planned for a peer and came due, it is in the queue, unless it
/// is being dialled, got connected or there is no room.
pub proof fn law_due_retry_is_queued(
    m: SwarmModel,
    pk: [u8; 32],
    relays: Seq<(Seq<char>, u16)>,
    topic: [u8; 32],
    priority: Priority,
)
    requires
        m.peers.contains_key(pk),
        !m.peers[pk].banned,
    ensures
        ({
            let after = m.retry_due(pk, relays, topic, priority);
            &&& after.peers.contains_key(pk)
            &&& !after.peers[pk].waiting
            &&& pk != m.public_key && !m.connections.contains_key(pk) && m.connections.dom().len()
                < m.max_peers && !m.peers[pk].queued && !m.peers[pk].connecting ==> after.queue
                == m.queue.push(pk) && after.peers[pk].queued
            &&& after.peers[pk].attempts == m.peers[pk].attempts
            &&& after.peers[pk].proven == m.peers[pk].proven
        }),
{
}

/// What becomes of an inbound connection: a peer has one connection, there are no more than may be,
/// and the peer has to say how its stream is reached.
pub proof fn law_inbound_connection_is_judged(m: SwarmModel, pk: [u8; 32], has_stream: bool)
    ensures
        ({
            let after = m.admitted(pk, has_stream);
            let connected = m.connections.contains_key(pk);
            let full = m.connections.dom().len() >= m.max_peers;
            &&& m.admission(pk, has_stream) is AlreadyConnected <==> connected
            &&& m.admission(pk, has_stream) is AtCapacity <==> !connected && full
            &&& m.admission(pk, has_stream) is NoStream <==> !connected && !full && !has_stream
            &&& m.admission(pk, has_stream) is Accepted <==> !connected && !full && has_stream
            &&& !connected && !full && has_stream ==> after.connections == m.connections.insert(
                pk,
                false,
            ) && after.peers == m.peers && after.queue == m.queue && after.topics == m.topics
                && after.active_connects == m.active_connects
            &&& connected || full || !has_stream ==> after == m
        }),
{
}

/// Joining a topic adds it as asked, not refreshed yet, beside the others, and registers the own
/// key where the topic is announced. A topic that is joined already stays as it is.
pub proof fn law_join_adds_the_topic(
    m: SwarmModel,
    topic: [u8; 32],
    server: bool,
    client: bool,
    plan: JoinPlan,
)
    requires
        join_fits(m, topic, server, client, plan),
    ensures
        ({
            let after = m.joined(topic, server, client);
            if m.topics.contains_key(topic) {
                after == m && !plan.register && plan.discovery is None
            } else {
                &&& after.topics.contains_key(topic)
                &&& after.topics[topic].is_server == server
                &&& after.topics[topic].is_client == client
                &&& !after.topics[topic].refreshed
                &&& forall|t: [u8; 32]|
                    t != topic ==> (#[trigger] after.topics.contains_key(t)
                        <==> m.topics.contains_key(t)) && after.topics[t] == m.topics[t]
                &&& after.server_registered == (server || m.server_registered)
                &&& plan.register <==> server && !m.server_registered
                &&& after.peers == m.peers && after.connections == m.connections
                &&& after.queue == m.queue && after.flush_waiters == m.flush_waiters
                &&& plan.discovery matches Some((c, relays)) && c.topic == topic && c.is_server
                    == server && c.is_client == client && (match m.relay_address {
                    Some(a) => relays@.len() == 1 && relays@[0]@ == a,
                    None => relays@.len() == 0,
                })
            }
        }),
{
    if !m.topics.contains_key(topic) {
        let (_, relays) = plan.discovery->0;
        assert(peers_view(relays@).len() == relays@.len());
        if relays@.len() > 0 {
            assert(peers_view(relays@)[0] == relays@[0]@);
        }
    }
}

/// Leaving a topic that is joined takes it away, from the peers too, and asks for its discovery to
/// be stopped, for an announcement of it to be taken back, and for the registration to be given up
/// where it was the last topic that is announced. Those that waited are told where every topic that
/// is left was refreshed. The other topics, the connections and the queue stay.
pub proof fn law_leave_takes_the_topic_away(m: SwarmModel, topic: [u8; 32], plan: LeavePlan)
    requires
        leave_fits(m, topic, plan),
        m.topics.contains_key(topic),
    ensures
        ({
            let after = m.left(topic);
            let serving = exists|t: [u8; 32]|
                t != topic && m.topics.contains_key(t) && (#[trigger] m.topics[t]).is_server;
            let done = forall|t: [u8; 32]|
                t != topic && m.topics.contains_key(t) ==> (#[trigger] m.topics[t]).refreshed;
            &&& plan.cancel
            &&& plan.unannounce == m.topics[topic].is_server
            &&& plan.unregister <==> m.server_registered && m.topics[topic].is_server && !serving
            &&& after.server_registered == (m.server_registered && !plan.unregister)
            &&& !after.topics.contains_key(topic)
            &&& forall|t: [u8; 32]|
                t != topic ==> (#[trigger] after.topics.contains_key(t) <==> m.topics.contains_key(
                    t,
                )) && after.topics[t] == m.topics[t]
            &&& done ==> plan.flushed@ == m.flush_waiters && after.flush_waiters.len() == 0
            &&& !done ==> plan.flushed@.len() == 0 && after.flush_waiters == m.flush_waiters
            &&& after.peers.dom() == m.peers.dom()
            &&& after.connections == m.connections && after.queue == m.queue
            &&& after.active_connects == m.active_connects
        }),
{
    let n = m.parted(topic);
    let after = m.left(topic);
    assert(after.peers.dom() =~= m.peers.dom());
    let serving = exists|t: [u8; 32]|
        t != topic && m.topics.contains_key(t) && (#[trigger] m.topics[t]).is_server;
    if serving {
        let t = choose|t: [u8; 32]|
            t != topic && m.topics.contains_key(t) && (#[trigger] m.topics[t]).is_server;
        assert(n.topics.contains_key(t) && n.topics[t].is_server);
        let w = SwarmModel { server_registered: true, ..n };
        assert(w.topics.contains_key(t) && w.topics[t].is_server);
    }
    assert(n.all_refreshed() == (forall|t: [u8; 32]|
        t != topic && m.topics.contains_key(t) ==> (#[trigger] m.topics[t]).refreshed)) by {
        if n.all_refreshed() {
            assert forall|t: [u8; 32]| t != topic && m.topics.contains_key(t) implies (
            #[trigger] m.topics[t]).refreshed by {
                assert(n.topics[t].refreshed);
            }
        } else {
            let t = choose|t: [u8; 32]|
                n.topics.contains_key(t) && !(#[trigger] n.topics[t]).refreshed;
            assert(!m.topics[t].refreshed);
        }
    }
}

/// A finished refresh marks its topic and no other. All are refreshed where each joined topic is
/// marked; then those that wait are told and the others wait on.
pub proof fn law_refresh_marks_its_topic(m: SwarmModel, topic: [u8; 32])
    ensures
        ({
            let after = m.refreshed(topic);
            let done = forall|t: [u8; 32]|
                m.topics.contains_key(t) && t != topic ==> (#[trigger] m.topics[t]).refreshed;
            &&& after.topics.dom() == m.topics.dom()
            &&& m.topics.contains_key(topic) ==> after.topics[topic].refreshed
                && after.topics[topic].is_server == m.topics[topic].is_server
                && after.topics[topic].is_client == m.topics[topic].is_client
            &&& forall|t: [u8; 32]|
                t != topic ==> #[trigger] after.topics[t] == m.topics[t]
            &&& after.peers == m.peers && after.queue == m.queue && after.connections
                == m.connections && after.flush_waiters == m.flush_waiters
            &&& m.topics.contains_key(topic) ==> (after.all_refreshed() <==> done)
            &&& after.all_refreshed() ==> after.due() == m.flush_waiters
                && after.answered().flush_waiters.len() == 0
            &&& !after.all_refreshed() ==> after.due().len() == 0 && after.answered() == after
        }),
{
    let after = m.refreshed(topic);
    assert(after.topics.dom() =~= m.topics.dom());
    if m.topics.contains_key(topic) {
        if after.all_refreshed() {
            assert forall|t: [u8; 32]| m.topics.contains_key(t) && t != topic implies (
            #[trigger] m.topics[t]).refreshed by {
                assert(after.topics[t].refreshed);
            }
        } else {
            let t = choose|t: [u8; 32]|
                after.topics.contains_key(t) && !(#[trigger] after.topics[t]).refreshed;
            assert(!m.topics[t].refreshed);
        }
    }
}

/// Leaving a topic takes that topic from every peer and changes nothing else of any.
pub proof fn law_leave_changes_topics_of_peers_only(m: SwarmModel, topic: [u8; 32], pk: [u8; 32])
    requires
        m.topics.contains_key(topic),
        m.peers.contains_key(pk),
    ensures
        m.left(topic).peers.contains_key(pk),
        m.left(topic).peers[pk] == (PeerModel {
            topics: m.peers[pk].topics.filter(|t: [u8; 32]| t != topic),
            ..m.peers[pk]
        }),
{
    law_without_keeps_the_others(m.peers[pk].topics, topic);
}

/// A topic that is not joined can be left without effect.
pub proof fn law_leaving_twice_changes_nothing(m: SwarmModel, topic: [u8; 32], plan: LeavePlan)
    requires
        leave_fits(m, topic, plan),
        !m.topics.contains_key(topic),
    ensures
        m.left(topic) == m,
        !plan.cancel,
        !plan.unannounce,
        !plan.unregister,
        plan.flushed@.len() == 0,
{
}

/// What a list of dials says: the key and the relays of each, in order.
pub proof fn law_dials_say_key_and_relays(v: Seq<Dial>)
    ensures
        dials_view(v).len() == v.len(),
        forall|i: int|
            0 <= i < v.len() ==> (#[trigger] dials_view(v)[i]).public_key == v[i].public_key
                && dials_view(v)[i].relay_addresses == peers_view(v[i].relay_addresses@),
{
}

/// What is known of the peers of a table: of each what its entry holds.
pub proof fn law_peers_say_what_they_hold(t: Map<[u8; 32], PeerInfo>, pk: [u8; 32])
    ensures
        peer_models(t).contains_key(pk) <==> t.contains_key(pk),
        t.contains_key(pk) ==> {
            let (p, q) = (t[pk], peer_models(t)[pk]);
            &&& q.public_key == p.public_key && q.relay_addresses == peers_view(
                p.relay_addresses@,
            )
            &&& q.topics == p.topics@ && q.priority == p.priority && q.proven == p.proven
            &&& q.attempts == p.attempts && q.queued == p.queued && q.connecting == p.connecting
            &&& q.banned == p.banned && q.waiting == p.waiting
        },
{
}

/// All topics are refreshed exactly where each joined one is; a flush waits for the others.
pub proof fn law_when_all_is_refreshed(m: SwarmModel)
    ensures
        m.all_refreshed() <==> forall|t: [u8; 32]|
            m.topics.contains_key(t) ==> (#[trigger] m.topics[t]).refreshed,
        m.all_refreshed() ==> m.due() == m.flush_waiters && m.answered().flush_waiters.len() == 0,
        !m.all_refreshed() ==> m.due().len() == 0 && m.answered() == m,
        m.answered() == (SwarmModel { flush_waiters: m.answered().flush_waiters, ..m }),
{
}

/// The end of a delay takes the mark of waiting from the peer and nothing else; what a found peer
/// leads to follows from there.
pub proof fn law_waiting_ends(
    m: SwarmModel,
    pk: [u8; 32],
    relays: Seq<(Seq<char>, u16)>,
    topic: [u8; 32],
    priority: Priority,
)
    ensures
        m.retry_due(pk, relays, topic, priority) == m.awake(pk).found(pk, relays, topic, priority),
        !m.peers.contains_key(pk) ==> m.awake(pk) == m,
        m.peers.contains_key(pk) ==> m.awake(pk) == (SwarmModel {
            peers: m.peers.insert(pk, PeerModel { waiting: false, ..m.peers[pk] }),
            ..m
        }),
{
}

/// The dials of a peer are counted up to the greatest number that fits.
pub proof fn law_dials_are_counted(m: SwarmModel)
    requires
        m.consistent(),
        m.active_connects < m.max_parallel,
        m.queue.len() > 0,
    ensures
        ({
            let (after, dial) = m.dialled_one();
            let (a, b) = (m.peers[dial.public_key].attempts, after.peers[dial.public_key].attempts);
            &&& a < u32::MAX ==> b == a + 1
            &&& a == u32::MAX ==> b == u32::MAX
        }),
{
    law_next_dial(m);
}

} // verus!
