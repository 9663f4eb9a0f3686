//! Rules of peer discovery: when a topic is refreshed, what is announced, and what comes of a
//! lookup.

use vstd::prelude::*;

use crate::ascii::{ascii_chars, ascii_string, is_ascii};
use crate::messages::{peers_view, Ipv4Peer};
use crate::outside::random_below;

verus! {

/// Time between two refreshes of a topic, in milliseconds.
pub const REFRESH_INTERVAL_MS: u64 = 600_000;

/// Upper end of the random time added to it, in milliseconds.
pub const REFRESH_JITTER_MS: u64 = 120_000;

/// The hexadecimal digit of a number below sixteen.
pub open spec fn hex_char(n: int) -> u8 {
    if n < 10 {
        (48 + n) as u8
    } else {
        (87 + n) as u8
    }
}

/// Two hexadecimal digits per byte.
pub open spec fn hex_of(b: Seq<u8>) -> Seq<u8>
    decreases b.len(),
{
    if b.len() == 0 {
        Seq::empty()
    } else {
        hex_of(b.drop_last()).push(hex_char(b.last() as int / 16)).push(
            hex_char(b.last() as int % 16),
        )
    }
}

/// The first four bytes, or all where there are fewer.
pub open spec fn first_four(b: Seq<u8>) -> Seq<u8> {
    if b.len() <= 4 {
        b
    } else {
        b.take(4)
    }
}

fn hex_digit_of(n: u8) -> (r: u8)
    requires
        n < 16,
    ensures
        r == hex_char(n as int),
        r < 128,
{
    if n < 10 {
        48 + n
    } else {
        87 + n
    }
}

/// The first `n` bytes in hexadecimal.
fn hex_prefix(bytes: &[u8], n: usize) -> (r: String)
    requires
        n <= bytes@.len(),
    ensures
        r@ == ascii_chars(hex_of(bytes@.take(n as int))),
{
    let mut out: Vec<u8> = Vec::new();
    let mut i: usize = 0;
    assert(bytes@.take(0) =~= Seq::empty());
    while i < n
        invariant
            i <= n,
            n <= bytes@.len(),
            out@ == hex_of(bytes@.take(i as int)),
            is_ascii(out@),
        decreases n - i,
    {
        proof {
            assert(bytes@.take(i + 1).drop_last() =~= bytes@.take(i as int));
        }
        out.push(hex_digit_of(bytes[i] / 16));
        out.push(hex_digit_of(bytes[i] % 16));
        i += 1;
    }
    ascii_string(out)
}

/// The first four bytes in hexadecimal, for logs.
pub fn hex_short(bytes: &[u8]) -> (r: String)
    ensures
        r@ == ascii_chars(hex_of(first_four(bytes@))),
{
    let n: usize = if bytes.len() < 4 {
        bytes.len()
    } else {
        4
    };
    assert(bytes@.take(n as int) =~= first_four(bytes@));
    hex_prefix(bytes, n)
}

/// All bytes in hexadecimal.
pub fn to_hex(bytes: &[u8]) -> (r: String)
    ensures
        r@ == ascii_chars(hex_of(bytes@)),
{
    assert(bytes@.take(bytes@.len() as int) =~= bytes@);
    hex_prefix(bytes, bytes.len())
}

/// Something that discovery found out.
#[derive(Debug)]
pub enum DiscoveryEvent {
    /// A peer was found on a topic.
    PeerFound {
        /// Its public key.
        public_key: [u8; 32],
        /// The relays that it announces.
        relay_addresses: Vec<Ipv4Peer>,
        /// The topic.
        topic: [u8; 32],
    },
    /// A refresh of a topic is done.
    RefreshComplete {
        /// The topic.
        topic: [u8; 32],
    },
}

/// How a topic takes part in discovery.
#[derive(Debug, Clone, Copy)]
pub struct PeerDiscoveryConfig {
    /// The topic.
    pub topic: [u8; 32],
    /// Whether to announce on it.
    pub is_server: bool,
    /// Whether to look peers up on it.
    pub is_client: bool,
}

/// Time until the next refresh, given the random part.
pub fn refresh_delay_with(jitter_ms: u64) -> (r: u64)
    requires
        jitter_ms < REFRESH_JITTER_MS,
    ensures
        r == REFRESH_INTERVAL_MS + jitter_ms,
{
    REFRESH_INTERVAL_MS + jitter_ms
}

/// Time until the next refresh, in milliseconds.
pub fn refresh_delay() -> (r: u64)
    ensures
        REFRESH_INTERVAL_MS <= r < REFRESH_INTERVAL_MS + REFRESH_JITTER_MS,
{
    refresh_delay_with(random_below(REFRESH_JITTER_MS))
}

/// What a refresh of a topic does.
#[derive(Debug)]
pub struct RefreshPlan {
    /// Announce on the topic with the first relays, and under the own key with the second.
    pub announce: Option<(Vec<Ipv4Peer>, Vec<Ipv4Peer>)>,
    /// Look peers up on the topic.
    pub lookup: bool,
}

/// Plans a refresh. The announcement under the own key carries the configured relays. The one on
/// the topic does too, or where none are configured `current`, those that the last announcement
/// under the own key led to.
pub fn plan_refresh(
    config: &PeerDiscoveryConfig,
    configured: &Vec<Ipv4Peer>,
    current: &Vec<Ipv4Peer>,
) -> (r: RefreshPlan)
    ensures
        r.lookup == config.is_client,
        if config.is_server {
            r.announce matches Some((topic, own)) && peers_view(topic@) == peers_view(
                if configured@.len() == 0 {
                    current@
                } else {
                    configured@
                },
            ) && peers_view(own@) == peers_view(configured@)
        } else {
            r.announce is None
        },
{
    let announce: Option<(Vec<Ipv4Peer>, Vec<Ipv4Peer>)> = if config.is_server {
        let topic = if configured.len() == 0 {
            copy_peers(current)
        } else {
            copy_peers(configured)
        };
        Some((topic, copy_peers(configured)))
    } else {
        None
    };
    RefreshPlan { announce, lookup: config.is_client }
}

/// A peer in the answer to a lookup.
#[derive(Debug)]
pub struct FoundPeer {
    /// Its public key.
    pub public_key: [u8; 32],
    /// The relays that it announces.
    pub relay_addresses: Vec<Ipv4Peer>,
}

/// What an event says.
pub enum EventModel {
    /// See [`DiscoveryEvent::PeerFound`].
    PeerFound([u8; 32], Seq<(Seq<char>, u16)>, [u8; 32]),
    /// See [`DiscoveryEvent::RefreshComplete`].
    RefreshComplete([u8; 32]),
}

impl View for DiscoveryEvent {
    type V = EventModel;

    open spec fn view(&self) -> EventModel {
        match *self {
            DiscoveryEvent::PeerFound { public_key, relay_addresses, topic } => {
                EventModel::PeerFound(public_key, peers_view(relay_addresses@), topic)
            },
            DiscoveryEvent::RefreshComplete { topic } => EventModel::RefreshComplete(topic),
        }
    }
}

/// Views of a list of events.
pub open spec fn events_view(v: Seq<DiscoveryEvent>) -> Seq<EventModel> {
    v.map_values(|e: DiscoveryEvent| e@)
}

/// The events of one node's answer: one per peer, with the peer's own relays only.
pub open spec fn answer_events(topic: [u8; 32], peers: Seq<FoundPeer>) -> Seq<EventModel> {
    peers.map_values(
        |p: FoundPeer| EventModel::PeerFound(p.public_key, peers_view(p.relay_addresses@), topic),
    )
}

/// The events of all answers to a lookup, in their order.
pub open spec fn lookup_events(topic: [u8; 32], answers: Seq<Vec<FoundPeer>>) -> Seq<EventModel>
    decreases answers.len(),
{
    if answers.len() == 0 {
        Seq::empty()
    } else {
        lookup_events(topic, answers.drop_last()) + answer_events(topic, answers.last()@)
    }
}

/// The events of a refresh. `answers` is what the lookup gave, and nothing where it failed or the
/// topic is not looked up. The end of the refresh is always told, and last.
pub fn refresh_events(config: &PeerDiscoveryConfig, answers: Option<Vec<Vec<FoundPeer>>>) -> (r: Vec<
    DiscoveryEvent,
>)
    ensures
        events_view(r@) == (match answers {
            Some(a) => if config.is_client {
                lookup_events(config.topic, a@)
            } else {
                Seq::empty()
            },
            None => Seq::empty(),
        }).push(EventModel::RefreshComplete(config.topic)),
{
    let mut events: Vec<DiscoveryEvent> = Vec::new();
    let topic = config.topic;
    assert(events_view(events@) =~= Seq::empty());
    if let Some(rest) = answers {
        if config.is_client {
            events = found_events(topic, rest);
        }
    }
    let ghost before = events@;
    events.push(DiscoveryEvent::RefreshComplete { topic });
    assert(events_view(events@) =~= events_view(before).push(EventModel::RefreshComplete(topic)));
    events
}

fn found_events(topic: [u8; 32], answers: Vec<Vec<FoundPeer>>) -> (r: Vec<DiscoveryEvent>)
    ensures
        events_view(r@) == lookup_events(topic, answers@),
{
    let mut events: Vec<DiscoveryEvent> = Vec::new();
    let mut i: usize = 0;
    assert(events_view(events@) =~= Seq::empty());
    assert(answers@.take(0) =~= Seq::empty());
    while i < answers.len()
        invariant
            i <= answers@.len(),
            events_view(events@) == lookup_events(topic, answers@.take(i as int)),
        decreases answers@.len() - i,
    {
        let ghost done = events@;
        let peers = &answers[i];
        let mut j: usize = 0;
        assert(answer_events(topic, peers@.take(0)) =~= Seq::empty());
        assert(events_view(events@) =~= events_view(done) + answer_events(topic, peers@.take(0)));
        while j < peers.len()
            invariant
                j <= peers@.len(),
                events_view(events@) == events_view(done) + answer_events(
                    topic,
                    peers@.take(j as int),
                ),
            decreases peers@.len() - j,
        {
            let ghost before = events@;
            let e = DiscoveryEvent::PeerFound {
                public_key: peers[j].public_key,
                relay_addresses: copy_peers(&peers[j].relay_addresses),
                topic,
            };
            let ghost ev = e@;
            events.push(e);
            proof {
                assert(events_view(events@) =~= events_view(before).push(ev));
                assert(answer_events(topic, peers@.take(j + 1)) =~= answer_events(
                    topic,
                    peers@.take(j as int),
                ).push(ev));
            }
            j += 1;
        }
        proof {
            assert(peers@.take(peers@.len() as int) =~= peers@);
            assert(answers@.take(i + 1).drop_last() =~= answers@.take(i as int));
            assert(answers@.take(i + 1).last() == *peers);
        }
        i += 1;
    }
    assert(answers@.take(answers@.len() as int) =~= answers@);
    events
}

/// A copy of a list of peers.
pub fn copy_peers(peers: &Vec<Ipv4Peer>) -> (r: Vec<Ipv4Peer>)
    ensures
        peers_view(r@) == peers_view(peers@),
{
    let mut r: Vec<Ipv4Peer> = Vec::new();
    let mut i: usize = 0;
    while i < peers.len()
        invariant
            i <= peers@.len(),
            peers_view(r@) == peers_view(peers@.take(i as int)),
        decreases peers@.len() - i,
    {
        let ghost before = r@;
        let p = Ipv4Peer { host: peers[i].host.clone(), port: peers[i].port };
        let ghost pv = p@;
        r.push(p);
        proof {
            assert(peers_view(r@) =~= peers_view(before).push(pv));
            assert(peers_view(peers@.take(i + 1)) =~= peers_view(peers@.take(i as int)).push(pv));
        }
        i += 1;
    }
    assert(peers@.take(peers@.len() as int) =~= peers@);
    r
}

/// Number of peers in the first `k` answers together.
pub open spec fn peers_before(answers: Seq<Vec<FoundPeer>>, k: int) -> int
    decreases k,
{
    if k <= 0 {
        0
    } else {
        peers_before(answers, k - 1) + answers[k - 1]@.len()
    }
}

proof fn lemma_peers_before(answers: Seq<Vec<FoundPeer>>, longer: Seq<Vec<FoundPeer>>, k: int)
    requires
        k <= answers.len() <= longer.len(),
        answers == longer.take(answers.len() as int),
    ensures
        peers_before(answers, k) == peers_before(longer, k),
        peers_before(answers, k) >= 0,
    decreases k,
{
    if k > 0 {
        lemma_peers_before(answers, longer, k - 1);
        assert(answers[k - 1] == longer[k - 1]);
    }
}

/// Every peer of every answer to a lookup is told once, in the order of the answers and of the
/// peers in each, with its key, its own relays (it may have none) and the topic. Nothing else is
/// told.
pub proof fn law_every_found_peer_is_told(topic: [u8; 32], answers: Seq<Vec<FoundPeer>>)
    ensures
        lookup_events(topic, answers).len() == peers_before(answers, answers.len() as int),
        forall|k: int, j: int|
            0 <= k < answers.len() && 0 <= j < answers[k]@.len() ==> 0 <= peers_before(answers, k)
                && peers_before(answers, k) + j < lookup_events(topic, answers).len()
                && lookup_events(topic, answers)[peers_before(answers, k) + j]
                == EventModel::PeerFound(
                (#[trigger] answers[k]@[j]).public_key,
                peers_view(answers[k]@[j].relay_addresses@),
                topic,
            ),
    decreases answers.len(),
{
    if answers.len() > 0 {
        let n = answers.len() - 1;
        let init = answers.drop_last();
        law_every_found_peer_is_told(topic, init);
        assert(init =~= answers.take(n as int));
        lemma_peers_before(init, answers, n as int);
        let all = lookup_events(topic, answers);
        assert forall|k: int, j: int|
            0 <= k < answers.len() && 0 <= j < answers[k]@.len() implies 0 <= peers_before(
            answers,
            k,
        ) && peers_before(answers, k) + j < all.len() && all[peers_before(answers, k) + j]
            == EventModel::PeerFound(
            (#[trigger] answers[k]@[j]).public_key,
            peers_view(answers[k]@[j].relay_addresses@),
            topic,
        ) by {
            lemma_peers_before(init, answers, if k < n { k } else { n as int });
            if k < n {
                assert(init[k] == answers[k]);
                assert(init[k]@[j] == answers[k]@[j]);
            }
        }
    }
}

/// A refresh tells of the peers that its lookup gave and then of its end, once. A topic that is not
/// looked up, and a lookup that failed, lead to the end alone.
pub proof fn law_refresh_tells_its_end_last(
    topic: [u8; 32],
    answers: Seq<Vec<FoundPeer>>,
    told: Seq<EventModel>,
)
    requires
        told == lookup_events(topic, answers).push(EventModel::RefreshComplete(topic)),
    ensures
        told.len() == peers_before(answers, answers.len() as int) + 1,
        told.last() == EventModel::RefreshComplete(topic),
        forall|i: int|
            0 <= i < told.len() - 1 ==> (#[trigger] told[i]) is PeerFound && told[i]->PeerFound_2
                == topic,
    decreases answers.len(),
{
    law_every_found_peer_is_told(topic, answers);
    if answers.len() > 0 {
        let init = answers.drop_last();
        let before = lookup_events(topic, init);
        law_refresh_tells_its_end_last(
            topic,
            init,
            before.push(EventModel::RefreshComplete(topic)),
        );
        assert forall|i: int| 0 <= i < told.len() - 1 implies (#[trigger] told[i]) is PeerFound
            && told[i]->PeerFound_2 == topic by {
            if i < before.len() {
                assert(told[i] == before.push(EventModel::RefreshComplete(topic))[i]);
            }
        }
    }
}

/// The number that a hexadecimal digit stands for.
pub open spec fn digit_value(c: u8) -> int {
    if 0x30 <= c <= 0x39 {
        c - 0x30
    } else if 0x61 <= c <= 0x66 {
        c - 0x61 + 10
    } else {
        -1
    }
}

/// Whether two digits, the higher one first, stand for a byte.
pub open spec fn spells(high: u8, low: u8, b: u8) -> bool {
    &&& 0 <= digit_value(high) < 16
    &&& 0 <= digit_value(low) < 16
    &&& b == digit_value(high) * 16 + digit_value(low)
}

/// Bytes are written with two lower-case hexadecimal digits each, the higher one first, and can be
/// read back from them.
pub proof fn law_hex_spells_the_bytes(b: Seq<u8>)
    ensures
        hex_of(b).len() == 2 * b.len(),
        forall|i: int|
            0 <= i < b.len() ==> spells(hex_of(b)[2 * i], hex_of(b)[2 * i + 1], #[trigger] b[i]),
    decreases b.len(),
{
    if b.len() > 0 {
        let init = b.drop_last();
        law_hex_spells_the_bytes(init);
        assert forall|i: int| 0 <= i < b.len() implies spells(
            hex_of(b)[2 * i],
            hex_of(b)[2 * i + 1],
            #[trigger] b[i],
        ) by {
            if i < init.len() {
                assert(init[i] == b[i]);
                assert(hex_of(b)[2 * i] == hex_of(init)[2 * i]);
                assert(hex_of(b)[2 * i + 1] == hex_of(init)[2 * i + 1]);
            } else {
                let x = b[i] as int;
                assert(x == x / 16 * 16 + x % 16 && 0 <= x / 16 < 16 && 0 <= x % 16 < 16)
                    by (nonlinear_arith)
                    requires
                        0 <= x < 256,
                ;
            }
        }
    }
}

/// The short form spells the first four bytes, or all where there are fewer.
pub proof fn law_short_hex_is_a_prefix(b: Seq<u8>)
    ensures
        first_four(b).is_prefix_of(b),
        b.len() >= 4 ==> first_four(b).len() == 4,
        b.len() < 4 ==> first_four(b) == b,
{
}

/// What a list of events says: one thing for each, in order.
pub proof fn law_events_say_what_they_hold(v: Seq<DiscoveryEvent>)
    ensures
        events_view(v).len() == v.len(),
        forall|i: int|
            0 <= i < v.len() ==> match #[trigger] v[i] {
                DiscoveryEvent::PeerFound { public_key, relay_addresses, topic } => {
                    events_view(v)[i] == EventModel::PeerFound(
                        public_key,
                        peers_view(relay_addresses@),
                        topic,
                    )
                },
                DiscoveryEvent::RefreshComplete { topic } => events_view(v)[i]
                    == EventModel::RefreshComplete(topic),
            },
{
}

} // verus!
