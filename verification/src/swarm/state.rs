//! Topics, peers and connections of a swarm, and what each event does to them.
//!
//! The state never touches the network. What has to be done (a discovery started, a peer dialled,
//! a waiter answered) is handed to the caller as a plan.

use vstd::prelude::*;

use super::{backoff_of, fits, is_key_after, keeps_existing, retry_delay};
use crate::bytes::key_eq;
use crate::messages::{peers_view, Ipv4Peer};
use crate::peer_discovery::{copy_peers, DiscoveryEvent, EventModel, PeerDiscoveryConfig};
use crate::peer_info::{copy_keys, drop_key, new_peer, without, PeerInfo, PeerModel, Priority};
use crate::table::{key_pos, Table, ValueTest};

verus! {

/// How a joined topic stands.
#[derive(Debug, Clone, Copy)]
pub struct TopicState {
    /// Whether it is announced.
    pub is_server: bool,
    /// Whether peers are looked up on it.
    pub is_client: bool,
    /// Whether a first refresh is done.
    pub refreshed: bool,
}

/// A peer to dial.
#[derive(Debug)]
pub struct Dial {
    /// Its public key.
    pub public_key: [u8; 32],
    /// The relays through which it can be reached.
    pub relay_addresses: Vec<Ipv4Peer>,
}

/// What a [`Dial`] says.
pub struct DialModel {
    /// See [`Dial::public_key`].
    pub public_key: [u8; 32],
    /// See [`Dial::relay_addresses`].
    pub relay_addresses: Seq<(Seq<char>, u16)>,
}

impl View for Dial {
    type V = DialModel;

    open spec fn view(&self) -> DialModel {
        DialModel {
            public_key: self.public_key,
            relay_addresses: peers_view(self.relay_addresses@),
        }
    }
}

/// Views of a list of dials.
pub open spec fn dials_view(v: Seq<Dial>) -> Seq<DialModel> {
    v.map_values(|d: Dial| d@)
}

/// A failed peer that is reported again after a while.
#[derive(Debug)]
pub struct RetryPlan {
    /// Its public key.
    pub public_key: [u8; 32],
    /// The relays through which it can be reached.
    pub relay_addresses: Vec<Ipv4Peer>,
    /// The topic under which it is reported.
    pub topic: [u8; 32],
    /// When it is reported, in milliseconds from now.
    pub delay_ms: u64,
}

/// What joining a topic asks for.
#[derive(Debug)]
pub struct JoinPlan {
    /// Register as a server under the own key.
    pub register: bool,
    /// Start discovery of the topic, with these relays.
    pub discovery: Option<(PeerDiscoveryConfig, Vec<Ipv4Peer>)>,
}

/// What leaving a topic asks for.
#[derive(Debug)]
pub struct LeavePlan {
    /// Stop discovery of the topic.
    pub cancel: bool,
    /// Take the announcement of the topic back.
    pub unannounce: bool,
    /// Give up the registration as a server.
    pub unregister: bool,
    /// Those that waited for all topics to be refreshed, and now do not wait any more.
    pub flushed: Vec<u64>,
}

/// What ending a swarm asks for.
#[derive(Debug)]
pub struct ShutdownPlan {
    /// Topics whose discovery is stopped.
    pub topics: Vec<[u8; 32]>,
    /// Peers whose connection is closed.
    pub connections: Vec<[u8; 32]>,
    /// Give up the registration as a server.
    pub unregister: bool,
}

/// A command to a swarm.
#[derive(Debug, Clone, Copy)]
pub enum SwarmCommand {
    /// Join a topic.
    Join {
        /// The topic.
        topic: [u8; 32],
        /// Announce on it.
        server: bool,
        /// Look up peers on it.
        client: bool,
    },
    /// Leave a topic.
    Leave {
        /// The topic.
        topic: [u8; 32],
    },
    /// Tell when all topics had a refresh.
    Flush {
        /// Whom to tell.
        waiter: u64,
    },
    /// Shut down.
    Destroy,
}

/// What a command asks for.
#[derive(Debug)]
pub enum CommandOutcome {
    /// A topic was joined.
    Joined(JoinPlan),
    /// A topic was left.
    Left(LeavePlan),
    /// Whether all topics had a refresh; else the waiter is told later.
    Flushed(bool),
    /// The swarm shuts down. Whether the registration as a server is to be given up.
    Destroyed(bool),
}

/// What became of an inbound connection.
#[derive(Debug, Clone, Copy, PartialEq, Eq, Structural)]
pub enum Admission {
    /// There is a connection to the peer already.
    AlreadyConnected,
    /// There are as many connections as there may be.
    AtCapacity,
    /// The peer did not say how its stream is reached.
    NoStream,
    /// The connection has a slot now.
    Accepted,
}

/// What became of a dialled connection.
#[derive(Debug)]
pub enum Connected {
    /// The connection that was there stays; the new one is dropped.
    KeptExisting,
    /// There are as many connections as there may be; the new one is dropped. These peers are
    /// dialled next.
    AtCapacity {
        /// Peers to dial.
        dials: Vec<Dial>,
    },
    /// The new connection counts. It belongs to these topics, and these peers are dialled next.
    New {
        /// Topics of the peer.
        topics: Vec<[u8; 32]>,
        /// Peers to dial.
        dials: Vec<Dial>,
    },
}

/// What a swarm holds, as mathematical values.
#[verifier::ext_equal]
pub struct SwarmModel {
    /// The own public key.
    pub public_key: [u8; 32],
    /// Connections that may be there.
    pub max_peers: usize,
    /// Dials that may run at once.
    pub max_parallel: usize,
    /// Address of the relay that is announced.
    pub relay_address: Option<(Seq<char>, u16)>,
    /// Joined topics.
    pub topics: Map<[u8; 32], TopicState>,
    /// Known peers.
    pub peers: Map<[u8; 32], PeerModel>,
    /// Connections, and whether they were dialled.
    pub connections: Map<[u8; 32], bool>,
    /// Peers to dial, oldest first.
    pub queue: Seq<[u8; 32]>,
    /// Whether the own key is registered as a server.
    pub server_registered: bool,
    /// Dials that run.
    pub active_connects: usize,
    /// Those that wait for all topics to be refreshed.
    pub flush_waiters: Seq<u64>,
}

/// Position of the greatest number, the first where there are several.
pub open spec fn first_max(r: Seq<int>) -> int
    decreases r.len(),
{
    if r.len() <= 1 {
        0
    } else {
        let i = first_max(r.drop_last());
        if r.last() > r[i] {
            r.len() - 1
        } else {
            i
        }
    }
}

/// A number raised by one, unless it is the greatest of its type.
pub open spec fn one_more(n: u32) -> u32 {
    if n == u32::MAX {
        n
    } else {
        (n + 1) as u32
    }
}

impl SwarmModel {
    /// The peer's priority; a peer that is not known comes last.
    pub open spec fn rank_of(self, pk: [u8; 32]) -> int {
        if self.peers.contains_key(pk) {
            self.peers[pk].priority.rank()
        } else {
            Priority::VeryLow.rank()
        }
    }

    /// Priorities of the queued peers.
    pub open spec fn ranks(self) -> Seq<int> {
        self.queue.map_values(|pk: [u8; 32]| self.rank_of(pk))
    }

    /// Whether a joined topic is announced.
    pub open spec fn serves(self) -> bool {
        exists|t: [u8; 32]| self.topics.contains_key(t) && (#[trigger] self.topics[t]).is_server
    }

    /// Whether all joined topics had a refresh.
    pub open spec fn all_refreshed(self) -> bool {
        forall|t: [u8; 32]| self.topics.contains_key(t) ==> (#[trigger] self.topics[t]).refreshed
    }

    /// Those that waited for all topics to be refreshed and need not wait any more.
    pub open spec fn due(self) -> Seq<u64> {
        if self.all_refreshed() {
            self.flush_waiters
        } else {
            Seq::empty()
        }
    }

    /// Those that need not wait any more were answered.
    pub open spec fn answered(self) -> Self {
        if self.all_refreshed() {
            SwarmModel { flush_waiters: Seq::empty(), ..self }
        } else {
            self
        }
    }

    /// A topic was joined. A topic that is joined already stays as it is.
    pub open spec fn joined(self, topic: [u8; 32], server: bool, client: bool) -> Self {
        if self.topics.contains_key(topic) {
            self
        } else {
            SwarmModel {
                topics: self.topics.insert(
                    topic,
                    TopicState { is_server: server, is_client: client, refreshed: false },
                ),
                server_registered: self.server_registered || server,
                ..self
            }
        }
    }

    /// A topic was left, and those that waited only for it were answered. Where it was not joined
    /// nothing changes.
    pub open spec fn left(self, topic: [u8; 32]) -> Self {
        if self.topics.contains_key(topic) {
            self.parted(topic).answered()
        } else {
            self
        }
    }

    /// A topic was left: no peer belongs to it any more, and the registration as a server ends
    /// with the last topic that is announced.
    pub open spec fn parted(self, topic: [u8; 32]) -> Self {
        if !self.topics.contains_key(topic) {
            self
        } else {
            let m = SwarmModel {
                topics: self.topics.remove(topic),
                peers: self.peers.map_values(
                    |p: PeerModel| PeerModel { topics: without(p.topics, topic), ..p },
                ),
                ..self
            };
            SwarmModel {
                server_registered: self.server_registered && !(self.topics[topic].is_server
                    && !m.serves()),
                ..m
            }
        }
    }

    /// Whether a found peer is of interest: not the swarm itself, not connected, and there is room
    /// for a connection.
    pub open spec fn wants(self, pk: [u8; 32]) -> bool {
        &&& pk != self.public_key
        &&& !self.connections.contains_key(pk)
        &&& self.connections.dom().len() < self.max_peers
    }

    /// What is known of a found peer before it is queued.
    pub open spec fn noted(
        self,
        pk: [u8; 32],
        relays: Seq<(Seq<char>, u16)>,
        topic: [u8; 32],
    ) -> PeerModel {
        let p = if self.peers.contains_key(pk) {
            self.peers[pk]
        } else {
            new_peer(pk, relays)
        };
        PeerModel {
            relay_addresses: if relays.len() > 0 {
                relays
            } else {
                p.relay_addresses
            },
            topics: if p.topics.contains(topic) {
                p.topics
            } else {
                p.topics.push(topic)
            },
            ..p
        }
    }

    /// A peer was found. It is queued unless it is queued, being dialled, banned or waiting.
    pub open spec fn found(
        self,
        pk: [u8; 32],
        relays: Seq<(Seq<char>, u16)>,
        topic: [u8; 32],
        priority: Priority,
    ) -> Self {
        if !self.wants(pk) {
            self
        } else {
            let p = self.noted(pk, relays, topic);
            if p.queued || p.connecting || p.banned || p.waiting {
                SwarmModel { peers: self.peers.insert(pk, p), ..self }
            } else {
                SwarmModel {
                    peers: self.peers.insert(pk, PeerModel { queued: true, priority, ..p }),
                    queue: self.queue.push(pk),
                    ..self
                }
            }
        }
    }

    /// Whether another dial can start.
    pub open spec fn can_dial(self) -> bool {
        self.active_connects < self.max_parallel && self.queue.len() > 0
    }

    /// The queued peer that is dialled next, and what is left: the oldest of those with the
    /// highest priority.
    pub open spec fn dialled_one(self) -> (Self, DialModel) {
        let i = first_max(self.ranks());
        let pk = self.queue[i];
        let m = SwarmModel {
            queue: self.queue.remove(i),
            active_connects: (self.active_connects + 1) as usize,
            ..self
        };
        if self.peers.contains_key(pk) {
            let p = self.peers[pk];
            (
                SwarmModel {
                    peers: self.peers.insert(
                        pk,
                        PeerModel {
                            queued: false,
                            connecting: true,
                            attempts: one_more(p.attempts),
                            ..p
                        },
                    ),
                    ..m
                },
                DialModel { public_key: pk, relay_addresses: p.relay_addresses },
            )
        } else {
            (m, DialModel { public_key: pk, relay_addresses: Seq::empty() })
        }
    }

    /// Dials as many queued peers as may be dialled at once.
    pub open spec fn dialled(self) -> (Self, Seq<DialModel>)
        decreases self.queue.len(),
    {
        if self.can_dial() {
            proof {
                lemma_first_max(self.ranks());
            }
            let (m1, d) = self.dialled_one();
            let (m2, ds) = m1.dialled();
            (m2, seq![d] + ds)
        } else {
            (self, Seq::empty())
        }
    }

    /// A dial ended, one way or the other.
    pub open spec fn dial_ended(self, pk: [u8; 32]) -> Self {
        let m = SwarmModel {
            active_connects: if self.active_connects > 0 {
                (self.active_connects - 1) as usize
            } else {
                0
            },
            ..self
        };
        if self.peers.contains_key(pk) {
            SwarmModel {
                peers: self.peers.insert(pk, PeerModel { connecting: false, ..self.peers[pk] }),
                ..m
            }
        } else {
            m
        }
    }

    /// A dialled connection counts.
    pub open spec fn connected(self, pk: [u8; 32]) -> Self {
        let m = SwarmModel { connections: self.connections.insert(pk, true), ..self };
        if self.peers.contains_key(pk) {
            SwarmModel {
                peers: self.peers.insert(pk, PeerModel { proven: true, ..self.peers[pk] }),
                ..m
            }
        } else {
            m
        }
    }

    /// Whether a failed peer is tried again.
    pub open spec fn retries(self, pk: [u8; 32]) -> bool {
        self.peers.contains_key(pk) && !self.peers[pk].banned && self.peers[pk].topics.len() > 0
    }

    /// A failed peer waits for its retry.
    pub open spec fn retried(self, pk: [u8; 32]) -> Self {
        if self.retries(pk) {
            SwarmModel {
                peers: self.peers.insert(pk, PeerModel { waiting: true, ..self.peers[pk] }),
                ..self
            }
        } else {
            self
        }
    }

    /// The delay of a failed peer is over: it waits no longer and counts as found.
    pub open spec fn retry_due(
        self,
        pk: [u8; 32],
        relays: Seq<(Seq<char>, u16)>,
        topic: [u8; 32],
        priority: Priority,
    ) -> Self {
        self.awake(pk).found(pk, relays, topic, priority)
    }

    /// A peer does not wait any more.
    pub open spec fn awake(self, pk: [u8; 32]) -> Self {
        if self.peers.contains_key(pk) {
            SwarmModel {
                peers: self.peers.insert(pk, PeerModel { waiting: false, ..self.peers[pk] }),
                ..self
            }
        } else {
            self
        }
    }

    /// Whether a dialled connection is one too many: the peer is not connected, and there are as
    /// many connections as there may be.
    pub open spec fn surplus(self, pk: [u8; 32]) -> bool {
        !self.connections.contains_key(pk) && self.connections.dom().len() >= self.max_peers
    }

    /// A refresh of a topic is done.
    pub open spec fn refreshed(self, topic: [u8; 32]) -> Self {
        if self.topics.contains_key(topic) {
            SwarmModel {
                topics: self.topics.insert(
                    topic,
                    TopicState { refreshed: true, ..self.topics[topic] },
                ),
                ..self
            }
        } else {
            self
        }
    }

    /// What becomes of an inbound connection.
    pub open spec fn admission(self, pk: [u8; 32], has_stream: bool) -> Admission {
        if self.connections.contains_key(pk) {
            Admission::AlreadyConnected
        } else if self.connections.dom().len() >= self.max_peers {
            Admission::AtCapacity
        } else if !has_stream {
            Admission::NoStream
        } else {
            Admission::Accepted
        }
    }

    /// The inbound connection was accepted or not.
    pub open spec fn admitted(self, pk: [u8; 32], has_stream: bool) -> Self {
        if self.admission(pk, has_stream) == Admission::Accepted {
            SwarmModel { connections: self.connections.insert(pk, false), ..self }
        } else {
            self
        }
    }

    /// Queue, flags and numbers fit each other: a peer is in the queue exactly once where it is
    /// marked as queued, the swarm itself never is, a queued peer is not being dialled, and no
    /// more dials run and no more connections are there than may.
    pub open spec fn consistent(self) -> bool {
        &&& self.topics.dom().finite()
        &&& self.connections.dom().finite()
        &&& self.queue.no_duplicates()
        &&& forall|pk: [u8; 32]| #[trigger]
            self.queue.contains(pk) <==> self.peers.contains_key(pk) && self.peers[pk].queued
        &&& forall|pk: [u8; 32]| #[trigger]
            self.peers.contains_key(pk) ==> !(self.peers[pk].queued && self.peers[pk].connecting)
        &&& !self.peers.contains_key(self.public_key)
        &&& self.active_connects <= self.max_parallel
        &&& self.connections.dom().len() <= self.max_peers
    }
}

/// The position of the greatest number is one, no number is greater, and none before it is as
/// great.
pub proof fn lemma_first_max(r: Seq<int>)
    ensures
        r.len() > 0 ==> 0 <= first_max(r) < r.len(),
        forall|j: int| 0 <= j < r.len() ==> (#[trigger] r[j]) <= r[first_max(r)],
        forall|j: int| 0 <= j < first_max(r) ==> (#[trigger] r[j]) < r[first_max(r)],
    decreases r.len(),
{
    if r.len() > 1 {
        let t = r.drop_last();
        lemma_first_max(t);
        assert(forall|j: int| 0 <= j < t.len() ==> (#[trigger] r[j]) == t[j]);
    }
}

/// What is known of the peers of a table.
pub open spec fn peer_models(m: Map<[u8; 32], PeerInfo>) -> Map<[u8; 32], PeerModel> {
    m.map_values(|p: PeerInfo| p@)
}

/// Topics, peers and connections of a swarm.
pub struct SwarmState {
    public_key: [u8; 32],
    max_peers: usize,
    max_parallel: usize,
    relay_address: Option<Ipv4Peer>,
    topics: Table<[u8; 32], TopicState>,
    peers: Table<[u8; 32], PeerInfo>,
    connections: Table<[u8; 32], bool>,
    queue: Vec<[u8; 32]>,
    server_registered: bool,
    active_connects: usize,
    flush_waiters: Vec<u64>,
}

/// View of an optional peer.
pub open spec fn peer_view(p: Option<Ipv4Peer>) -> Option<(Seq<char>, u16)> {
    match p {
        Some(a) => Some(a@),
        None => None,
    }
}

impl View for SwarmState {
    type V = SwarmModel;

    closed spec fn view(&self) -> SwarmModel {
        SwarmModel {
            public_key: self.public_key,
            max_peers: self.max_peers,
            max_parallel: self.max_parallel,
            relay_address: peer_view(self.relay_address),
            topics: self.topics@,
            peers: peer_models(self.peers@),
            connections: self.connections@,
            queue: self.queue@,
            server_registered: self.server_registered,
            active_connects: self.active_connects,
            flush_waiters: self.flush_waiters@,
        }
    }
}

/// Whether a topic is announced.
struct Announced {}

impl ValueTest<TopicState> for Announced {
    closed spec fn passes(&self, t: TopicState) -> bool {
        t.is_server
    }

    fn check(&self, t: &TopicState) -> (r: bool) {
        t.is_server
    }
}

/// Whether a topic had no refresh yet.
struct Unrefreshed {}

impl ValueTest<TopicState> for Unrefreshed {
    closed spec fn passes(&self, t: TopicState) -> bool {
        !t.refreshed
    }

    fn check(&self, t: &TopicState) -> (r: bool) {
        !t.refreshed
    }
}

impl SwarmState {
    /// The tables are sound, and queue, flags and numbers fit each other.
    pub closed spec fn wf(&self) -> bool {
        &&& self.topics.wf()
        &&& self.peers.wf()
        &&& self.connections.wf()
        &&& self@.consistent()
    }

    /// In a sound state queue, flags and numbers fit each other.
    pub proof fn lemma_consistent(&self)
        requires
            self.wf(),
        ensures
            self@.consistent(),
    {
    }

    /// A swarm without topics.
    pub fn new(
        public_key: [u8; 32],
        max_peers: usize,
        max_parallel: usize,
        relay_address: Option<Ipv4Peer>,
    ) -> (r: Self)
        ensures
            r.wf(),
            r@ == (SwarmModel {
                public_key,
                max_peers,
                max_parallel,
                relay_address: peer_view(relay_address),
                topics: Map::empty(),
                peers: Map::empty(),
                connections: Map::empty(),
                queue: Seq::empty(),
                server_registered: false,
                active_connects: 0,
                flush_waiters: Seq::empty(),
            }),
    {
        let r = SwarmState {
            public_key,
            max_peers,
            max_parallel,
            relay_address,
            topics: Table::new(),
            peers: Table::new(),
            connections: Table::new(),
            queue: Vec::new(),
            server_registered: false,
            active_connects: 0,
            flush_waiters: Vec::new(),
        };
        assert(r@.peers =~= Map::empty());
        r
    }

    /// Joins a topic. Joining it again changes nothing.
    pub fn do_join(&mut self, topic: [u8; 32], server: bool, client: bool) -> (r: JoinPlan)
        requires
            old(self).wf(),
        ensures
            final(self).wf(),
            final(self)@ == old(self)@.joined(topic, server, client),
            join_fits(old(self)@, topic, server, client, r),
    {
        if self.topics.contains_key(&topic) {
            return JoinPlan { register: false, discovery: None };
        }
        let register: bool = server && !self.server_registered;
        if register {
            self.server_registered = true;
        }
        let mut relays: Vec<Ipv4Peer> = Vec::new();
        if let Some(a) = &self.relay_address {
            relays.push(Ipv4Peer { host: a.host.clone(), port: a.port });
        }
        proof {
            match old(self)@.relay_address {
                Some(a) => {
                    assert(peers_view(relays@) =~= seq![a]);
                },
                None => {
                    assert(peers_view(relays@) =~= Seq::empty());
                },
            }
        }
        self.topics.insert(
            topic,
            TopicState { is_server: server, is_client: client, refreshed: false },
        );
        assert(self@ =~= old(self)@.joined(topic, server, client));
        JoinPlan {
            register,
            discovery: Some(
                (PeerDiscoveryConfig { topic, is_server: server, is_client: client }, relays),
            ),
        }
    }

    /// Leaves a topic. Leaving one that was not joined changes nothing. Those that waited only for
    /// this topic to be refreshed are answered.
    pub fn do_leave(&mut self, topic: [u8; 32]) -> (r: LeavePlan)
        requires
            old(self).wf(),
        ensures
            final(self).wf(),
            final(self)@ == old(self)@.left(topic),
            leave_fits(old(self)@, topic, r),
    {
        let ghost m = self@;
        let state = match self.topics.remove(&topic) {
            None => {
                assert(self@ =~= m);
                return LeavePlan {
                    cancel: false,
                    unannounce: false,
                    unregister: false,
                    flushed: Vec::new(),
                };
            },
            Some(s) => s,
        };
        self.drop_topic(topic);
        let mut unregister: bool = false;
        if state.is_server && self.server_registered {
            let serving: bool = self.topics.any(&Announced {  });
            if !serving {
                self.server_registered = false;
                unregister = true;
            }
        }
        assert(self@ =~= m.parted(topic));
        let flushed = self.check_flush_waiters();
        LeavePlan { cancel: true, unannounce: state.is_server, unregister, flushed }
    }

    /// Takes a topic away from every peer.
    fn drop_topic(&mut self, topic: [u8; 32])
        requires
            old(self).peers.wf(),
        ensures
            final(self).peers.wf(),
            final(self)@ == (SwarmModel {
                peers: old(self)@.peers.map_values(
                    |p: PeerModel| PeerModel { topics: without(p.topics, topic), ..p },
                ),
                ..old(self)@
            }),
            final(self).topics == old(self).topics,
            final(self).connections == old(self).connections,
    {
        let n: usize = self.peers.len();
        let ghost f = |p: PeerModel| PeerModel { topics: without(p.topics, topic), ..p };
        let ghost before = self.peers.items();
        let mut i: usize = 0;
        while i < n
            invariant
                i <= n,
                n == before.len(),
                before == old(self).peers.items(),
                f == (|p: PeerModel| PeerModel { topics: without(p.topics, topic), ..p }),
                self.peers.wf(),
                self.peers.items().len() == n,
                self.topics == old(self).topics,
                self.connections == old(self).connections,
                self.public_key == old(self).public_key,
                self.max_peers == old(self).max_peers,
                self.max_parallel == old(self).max_parallel,
                self.relay_address == old(self).relay_address,
                self.queue == old(self).queue,
                self.server_registered == old(self).server_registered,
                self.active_connects == old(self).active_connects,
                self.flush_waiters == old(self).flush_waiters,
                forall|j: int|
                    0 <= j < n ==> (#[trigger] self.peers.items()[j]).0 == before[j].0
                        && self.peers.items()[j].1@ == (if j < i {
                        f(before[j].1@)
                    } else {
                        before[j].1@
                    }),
            decreases n - i,
        {
            let info = self.peers.value_at_mut(i);
            drop_key(&mut info.topics, &topic);
            i += 1;
        }
        proof {
            self.peers.lemma_items();
            old(self).peers.lemma_items();
            let now = self@.peers;
            let then = old(self)@.peers;
            assert forall|k: [u8; 32]| #[trigger] now.contains_key(k) <==> then.contains_key(k) by {
                if now.contains_key(k) {
                    let p = key_pos(self.peers.items(), k);
                    assert(before[p].0 == self.peers.items()[p].0);
                    assert(old(self).peers@.contains_key(before[p].0));
                }
                if then.contains_key(k) {
                    let p = key_pos(before, k);
                    assert(self.peers.items()[p].0 == before[p].0);
                    assert(self.peers@.contains_key(self.peers.items()[p].0));
                }
            }
            assert forall|k: [u8; 32]| #[trigger] now.contains_key(k) implies now[k] == f(
                then[k],
            ) by {
                let p = key_pos(self.peers.items(), k);
                assert(self.peers.items()[p].0 == before[p].0);
                assert(old(self).peers@[before[p].0] == before[p].1);
            }
            assert(now =~= then.map_values(f));
        }
    }

    /// Asks to be told when all topics had a refresh. Gives `true` where that is the case, and
    /// else remembers who asked.
    pub fn flush(&mut self, waiter: u64) -> (done: bool)
        requires
            old(self).wf(),
        ensures
            final(self).wf(),
            done == old(self)@.all_refreshed(),
            final(self)@ == (if done {
                old(self)@
            } else {
                SwarmModel { flush_waiters: old(self)@.flush_waiters.push(waiter), ..old(self)@ }
            }),
    {
        if self.all_topics_refreshed() {
            true
        } else {
            self.flush_waiters.push(waiter);
            false
        }
    }

    /// Ends the registration as a server, on the way to shutting down. Gives `true` where there
    /// was one.
    pub fn destroy(&mut self) -> (unregister: bool)
        requires
            old(self).wf(),
        ensures
            final(self).wf(),
            unregister == old(self)@.server_registered,
            final(self)@ == (SwarmModel { server_registered: false, ..old(self)@ }),
    {
        let unregister: bool = self.server_registered;
        self.server_registered = false;
        unregister
    }

    /// Whether all joined topics had a refresh.
    pub fn all_topics_refreshed(&self) -> (r: bool)
        requires
            self.wf(),
        ensures
            r == self@.all_refreshed(),
    {
        !self.topics.any(&Unrefreshed {  })
    }

    /// Those that waited for all topics to be refreshed, once that is the case.
    pub fn check_flush_waiters(&mut self) -> (r: Vec<u64>)
        requires
            old(self).wf(),
        ensures
            final(self).wf(),
            r@ == old(self)@.due(),
            final(self)@ == old(self)@.answered(),
    {
        let mut r: Vec<u64> = Vec::new();
        if self.all_topics_refreshed() {
            r.append(&mut self.flush_waiters);
            assert(r@ =~= old(self)@.flush_waiters);
            assert(self@ =~= (SwarmModel { flush_waiters: Seq::empty(), ..old(self)@ }));
        }
        r
    }

    /// Takes in that a peer was found on a topic. `priority` is the place that it would have in
    /// the queue of dials.
    pub fn on_peer_found(
        &mut self,
        public_key: [u8; 32],
        relay_addresses: Vec<Ipv4Peer>,
        topic: [u8; 32],
        priority: Priority,
    )
        requires
            old(self).wf(),
        ensures
            final(self).wf(),
            final(self)@ == old(self)@.found(
                public_key,
                peers_view(relay_addresses@),
                topic,
                priority,
            ),
    {
        let ghost m = self@;
        let ghost relays = peers_view(relay_addresses@);
        if key_eq(&public_key, &self.public_key) {
            return;
        }
        if self.connections.contains_key(&public_key) {
            return;
        }
        if self.connections.len() >= self.max_peers {
            return;
        }
        if !self.peers.contains_key(&public_key) {
            let copy = copy_peers(&relay_addresses);
            self.peers.insert(public_key, PeerInfo::new(public_key, copy));
        }
        let ghost p0 = if m.peers.contains_key(public_key) {
            m.peers[public_key]
        } else {
            new_peer(public_key, relays)
        };
        assert(peer_models(self.peers@) =~= m.peers.insert(public_key, p0));
        let at: usize = match self.peers.position(&public_key) {
            Some(i) => i,
            None => {
                return;
            },
        };
        let ghost tbl = self.peers@;
        let info = self.peers.value_at_mut(at);
        if relay_addresses.len() > 0 {
            info.relay_addresses = relay_addresses;
        }
        if !info.has_topic(&topic) {
            info.topics.push(topic);
        }
        let enqueue: bool = !info.queued && !info.connecting && !info.banned && !info.is_waiting();
        if enqueue {
            info.queued = true;
            info.priority = priority;
        }
        if enqueue {
            self.queue.push(public_key);
        }
        proof {
            let p = m.noted(public_key, relays, topic);
            let q = if enqueue {
                PeerModel { queued: true, priority, ..p }
            } else {
                p
            };
            assert(self.peers@[public_key]@ =~= q);
            assert(peer_models(self.peers@) =~= m.peers.insert(public_key, q));
            assert(self@ =~= m.found(public_key, relays, topic, priority));
            lemma_found_consistent(m, public_key, relays, topic, priority);
        }
    }

    /// Takes in that a refresh of a topic is done. Gives the peers to dial, and those that waited
    /// for all topics to be refreshed and need not wait any more.
    pub fn on_refresh_complete(&mut self, topic: [u8; 32]) -> (r: (Vec<Dial>, Vec<u64>))
        requires
            old(self).wf(),
        ensures
            final(self).wf(),
            ({
                let (m, dials) = old(self)@.refreshed(topic).dialled();
                &&& dials_view(r.0@) == dials
                &&& r.1@ == m.due()
                &&& final(self)@ == m.answered()
            }),
    {
        let ghost m = self@;
        if let Some(i) = self.topics.position(&topic) {
            let state = self.topics.value_at_mut(i);
            state.refreshed = true;
        }
        proof {
            assert(self@.topics =~= m.refreshed(topic).topics);
            assert(self@ =~= m.refreshed(topic));
        }
        let dials = self.attempt_connections();
        let waiters = self.check_flush_waiters();
        (dials, waiters)
    }

    /// Takes in what a discovery reports: the peers to dial and the flush waiters to answer, which
    /// only a finished refresh brings. `priority` is the place that a found peer would have in the
    /// queue of dials.
    pub fn handle_discovery_event(&mut self, event: DiscoveryEvent, priority: Priority) -> (r: (
        Vec<Dial>,
        Vec<u64>,
    ))
        requires
            old(self).wf(),
        ensures
            final(self).wf(),
            match event@ {
                EventModel::PeerFound(public_key, relays, topic) => {
                    &&& final(self)@ == old(self)@.found(public_key, relays, topic, priority)
                    &&& r.0@.len() == 0
                    &&& r.1@.len() == 0
                },
                EventModel::RefreshComplete(topic) => {
                    let (m, dials) = old(self)@.refreshed(topic).dialled();
                    &&& dials_view(r.0@) == dials
                    &&& r.1@ == m.due()
                    &&& final(self)@ == m.answered()
                },
            },
    {
        match event {
            DiscoveryEvent::PeerFound { public_key, relay_addresses, topic } => {
                self.on_peer_found(public_key, relay_addresses, topic, priority);
                (Vec::new(), Vec::new())
            },
            DiscoveryEvent::RefreshComplete { topic } => self.on_refresh_complete(topic),
        }
    }

    /// Picks the queued peers that are dialled now.
    pub fn attempt_connections(&mut self) -> (dials: Vec<Dial>)
        requires
            old(self).wf(),
        ensures
            final(self).wf(),
            (final(self)@, dials_view(dials@)) == old(self)@.dialled(),
    {
        let mut dials: Vec<Dial> = Vec::new();
        assert(dials_view(dials@) + self@.dialled().1 =~= self@.dialled().1);
        while self.active_connects < self.max_parallel && self.queue.len() > 0
            invariant
                self.wf(),
                old(self)@.dialled() == (self@.dialled().0, dials_view(dials@) + self@.dialled().1),
            decreases self.queue.len(),
        {
            let ghost m = self@;
            let ghost before = dials@;
            let d = self.dial_next();
            let ghost dv = d@;
            dials.push(d);
            proof {
                let (m1, dm) = m.dialled_one();
                assert(dials_view(dials@) =~= dials_view(before).push(dv));
                assert(dials_view(before) + m.dialled().1 =~= dials_view(dials@)
                    + m1.dialled().1);
            }
        }
        assert(dials_view(dials@) + self@.dialled().1 =~= dials_view(dials@));
        dials
    }

    /// Position of the queued peer that is dialled next.
    fn next_in_queue(&self) -> (r: usize)
        requires
            self.wf(),
            self.queue@.len() > 0,
        ensures
            r == first_max(self@.ranks()),
            r < self.queue@.len(),
    {
        let ghost ranks = self@.ranks();
        let mut best: usize = 0;
        let mut best_level: u8 = self.level_of(&self.queue[0]);
        let mut i: usize = 1;
        assert(first_max(ranks.take(1)) == 0);
        while i < self.queue.len()
            invariant
                self.wf(),
                ranks == self@.ranks(),
                ranks.len() == self.queue@.len(),
                1 <= i <= self.queue@.len(),
                best < i,
                best == first_max(ranks.take(i as int)),
                best_level == ranks[best as int],
            decreases self.queue@.len() - i,
        {
            let level: u8 = self.level_of(&self.queue[i]);
            proof {
                let t = ranks.take(i + 1);
                assert(t.drop_last() =~= ranks.take(i as int));
                assert(t.last() == level);
                assert(t[best as int] == ranks[best as int]);
            }
            if level > best_level {
                best = i;
                best_level = level;
            }
            i += 1;
        }
        assert(ranks.take(ranks.len() as int) =~= ranks);
        best
    }

    fn level_of(&self, pk: &[u8; 32]) -> (r: u8)
        requires
            self.peers.wf(),
        ensures
            r == self@.rank_of(*pk),
    {
        match self.peers.get(pk) {
            Some(info) => info.priority.level(),
            None => Priority::VeryLow.level(),
        }
    }

    /// Takes the next peer out of the queue and marks it as being dialled.
    fn dial_next(&mut self) -> (d: Dial)
        requires
            old(self).wf(),
            old(self)@.can_dial(),
        ensures
            final(self).wf(),
            (final(self)@, d@) == old(self)@.dialled_one(),
            final(self).queue@.len() == old(self).queue@.len() - 1,
    {
        let ghost m = self@;
        let i: usize = self.next_in_queue();
        let pk: [u8; 32] = self.queue.remove(i);
        self.active_connects += 1;
        let mut relay_addresses: Vec<Ipv4Peer> = Vec::new();
        if let Some(at) = self.peers.position(&pk) {
            let info = self.peers.value_at_mut(at);
            info.queued = false;
            info.connecting = true;
            if info.attempts < u32::MAX {
                info.attempts += 1;
            }
            relay_addresses = copy_peers(&info.relay_addresses);
        } else {
            assert(peers_view(relay_addresses@) =~= Seq::empty());
        }
        let d = Dial { public_key: pk, relay_addresses };
        proof {
            let (m1, dm) = m.dialled_one();
            assert(self@.peers =~= m1.peers);
            assert(self@ =~= m1);
            lemma_dialled_consistent(m);
        }
        d
    }

    /// Takes in that a dialled connection came up. Where there are as many connections as there
    /// may be by now, it is dropped.
    pub fn on_connected(&mut self, public_key: [u8; 32]) -> (r: Connected)
        requires
            old(self).wf(),
        ensures
            final(self).wf(),
            ({
                let m = old(self)@.dial_ended(public_key);
                if m.connections.contains_key(public_key) && keeps_existing(
                    m.public_key,
                    public_key,
                    m.connections[public_key],
                ) {
                    r is KeptExisting && final(self)@ == m
                } else if m.surplus(public_key) {
                    &&& r matches Connected::AtCapacity { dials } && (
                        final(self)@,
                        dials_view(dials@),
                    ) == m.dialled()
                    &&& final(self)@.connections == old(self)@.connections
                } else {
                    let c = m.connected(public_key);
                    &&& r matches Connected::New { topics, dials } && topics@ == (
                    if m.peers.contains_key(public_key) {
                        m.peers[public_key].topics
                    } else {
                        Seq::empty()
                    }) && (final(self)@, dials_view(dials@)) == c.dialled()
                }
            }),
    {
        self.end_dial(public_key);
        let ghost m = self@;
        let existing: Option<bool> = match self.connections.get(&public_key) {
            Some(b) => Some(*b),
            None => None,
        };
        if let Some(is_initiator) = existing {
            if is_initiator == is_key_after(&self.public_key, &public_key) {
                return Connected::KeptExisting;
            }
        } else if self.connections.len() >= self.max_peers {
            proof {
                lemma_dials_keep_connections(m);
            }
            let dials = self.attempt_connections();
            return Connected::AtCapacity { dials };
        }
        self.connections.insert(public_key, true);
        let mut topics: Vec<[u8; 32]> = Vec::new();
        if let Some(at) = self.peers.position(&public_key) {
            let info = self.peers.value_at_mut(at);
            info.connected();
            topics = copy_keys(&info.topics);
        }
        proof {
            let c = m.connected(public_key);
            assert(self@.peers =~= c.peers);
            assert(self@ =~= c);
            lemma_flags_kept(m, c);
        }
        let dials = self.attempt_connections();
        Connected::New { topics, dials }
    }

    /// Takes in that a dial failed: the peer is tried again later, unless it is banned or belongs
    /// to no topic. Other peers are dialled meanwhile.
    pub fn on_connect_failed(&mut self, public_key: [u8; 32]) -> (r: (Option<RetryPlan>, Vec<Dial>))
        requires
            old(self).wf(),
        ensures
            final(self).wf(),
            ({
                let m = old(self)@.dial_ended(public_key);
                &&& retry_fits(m, public_key, r.0)
                &&& r.0 matches Some(p) ==> fits(
                    p.delay_ms,
                    backoff_of(m.peers[public_key].proven, m.peers[public_key].attempts),
                )
                &&& (final(self)@, dials_view(r.1@)) == m.retried(public_key).dialled()
            }),
    {
        self.end_dial(public_key);
        let retry = self.schedule_retry(public_key);
        let dials = self.attempt_connections();
        (retry, dials)
    }

    fn end_dial(&mut self, pk: [u8; 32])
        requires
            old(self).wf(),
        ensures
            final(self).wf(),
            final(self)@ == old(self)@.dial_ended(pk),
    {
        let ghost m = self@;
        if self.active_connects > 0 {
            self.active_connects -= 1;
        }
        if let Some(at) = self.peers.position(&pk) {
            let info = self.peers.value_at_mut(at);
            info.connecting = false;
        }
        proof {
            assert(self@.peers =~= m.dial_ended(pk).peers);
            assert(self@ =~= m.dial_ended(pk));
            lemma_flags_kept(m, m.dial_ended(pk));
        }
    }

    /// Lets a failed peer wait, for a delay that grows with its failures.
    pub fn schedule_retry(&mut self, public_key: [u8; 32]) -> (r: Option<RetryPlan>)
        requires
            old(self).wf(),
        ensures
            final(self).wf(),
            final(self)@ == old(self)@.retried(public_key),
            retry_fits(old(self)@, public_key, r),
            r matches Some(p) ==> fits(
                p.delay_ms,
                backoff_of(
                    old(self)@.peers[public_key].proven,
                    old(self)@.peers[public_key].attempts,
                ),
            ),
    {
        let delay_ms: u64 = match self.peers.get(&public_key) {
            Some(info) => retry_delay(info),
            None => {
                return None;
            },
        };
        self.plan_retry(public_key, delay_ms)
    }

    /// Lets a failed peer wait for the given delay, in milliseconds.
    pub fn plan_retry(&mut self, public_key: [u8; 32], delay_ms: u64) -> (r: Option<RetryPlan>)
        requires
            old(self).wf(),
        ensures
            final(self).wf(),
            final(self)@ == old(self)@.retried(public_key),
            retry_fits(old(self)@, public_key, r),
            r matches Some(p) ==> p.delay_ms == delay_ms,
    {
        let ghost m = self@;
        let at: usize = match self.peers.position(&public_key) {
            Some(i) => i,
            None => {
                return None;
            },
        };
        let info = self.peers.value_at_mut(at);
        if info.banned || info.topics.len() == 0 {
            proof {
                assert(peer_models(self.peers@) =~= m.peers);
                assert(self@ =~= m);
            }
            return None;
        }
        info.set_waiting(true);
        let relay_addresses = copy_peers(&info.relay_addresses);
        let topic: [u8; 32] = info.topics[0];
        proof {
            assert(self@.peers =~= m.retried(public_key).peers);
            assert(self@ =~= m.retried(public_key));
            lemma_flags_kept(m, m.retried(public_key));
        }
        Some(RetryPlan { public_key, relay_addresses, topic, delay_ms })
    }

    /// Takes in that the delay of a failed peer is over. `priority` is the place that it would
    /// have in the queue of dials.
    pub fn on_retry_due(&mut self, plan: RetryPlan, priority: Priority)
        requires
            old(self).wf(),
        ensures
            final(self).wf(),
            final(self)@ == old(self)@.retry_due(
                plan.public_key,
                peers_view(plan.relay_addresses@),
                plan.topic,
                priority,
            ),
    {
        let ghost m = self@;
        let RetryPlan { public_key, relay_addresses, topic, delay_ms: _ } = plan;
        if let Some(at) = self.peers.position(&public_key) {
            let info = self.peers.value_at_mut(at);
            info.set_waiting(false);
        }
        proof {
            assert(self@.peers =~= m.awake(public_key).peers);
            assert(self@ =~= m.awake(public_key));
            lemma_flags_kept(m, m.awake(public_key));
        }
        self.on_peer_found(public_key, relay_addresses, topic, priority);
    }

    /// Takes in an inbound connection. `has_stream` says whether the peer told how its stream is
    /// reached.
    pub fn accept_inbound(&mut self, public_key: [u8; 32], has_stream: bool) -> (r: Admission)
        requires
            old(self).wf(),
        ensures
            final(self).wf(),
            r == old(self)@.admission(public_key, has_stream),
            final(self)@ == old(self)@.admitted(public_key, has_stream),
    {
        if self.connections.contains_key(&public_key) {
            return Admission::AlreadyConnected;
        }
        if self.connections.len() >= self.max_peers {
            return Admission::AtCapacity;
        }
        if !has_stream {
            return Admission::NoStream;
        }
        self.connections.insert(public_key, false);
        Admission::Accepted
    }

    /// Gives the slot of an inbound connection back whose stream failed. Gives `false` where there
    /// was none.
    pub fn release_slot(&mut self, public_key: &[u8; 32]) -> (r: bool)
        requires
            old(self).wf(),
        ensures
            final(self).wf(),
            r == old(self)@.connections.contains_key(*public_key),
            final(self)@ == (SwarmModel {
                connections: old(self)@.connections.remove(*public_key),
                ..old(self)@
            }),
    {
        self.connections.remove(public_key).is_some()
    }

    /// Carries a command out.
    pub fn handle_command(&mut self, command: SwarmCommand) -> (r: CommandOutcome)
        requires
            old(self).wf(),
        ensures
            final(self).wf(),
            match command {
                SwarmCommand::Join { topic, server, client } => {
                    &&& final(self)@ == old(self)@.joined(topic, server, client)
                    &&& r matches CommandOutcome::Joined(plan) && join_fits(
                        old(self)@,
                        topic,
                        server,
                        client,
                        plan,
                    )
                },
                SwarmCommand::Leave { topic } => {
                    &&& final(self)@ == old(self)@.left(topic)
                    &&& r matches CommandOutcome::Left(plan) && leave_fits(old(self)@, topic, plan)
                },
                SwarmCommand::Flush { waiter } => {
                    &&& r == CommandOutcome::Flushed(old(self)@.all_refreshed())
                    &&& final(self)@ == (if old(self)@.all_refreshed() {
                        old(self)@
                    } else {
                        SwarmModel {
                            flush_waiters: old(self)@.flush_waiters.push(waiter),
                            ..old(self)@
                        }
                    })
                },
                SwarmCommand::Destroy => {
                    &&& r == CommandOutcome::Destroyed(old(self)@.server_registered)
                    &&& final(self)@ == (SwarmModel { server_registered: false, ..old(self)@ })
                },
            },
    {
        match command {
            SwarmCommand::Join { topic, server, client } => {
                CommandOutcome::Joined(self.do_join(topic, server, client))
            },
            SwarmCommand::Leave { topic } => CommandOutcome::Left(self.do_leave(topic)),
            SwarmCommand::Flush { waiter } => CommandOutcome::Flushed(self.flush(waiter)),
            SwarmCommand::Destroy => CommandOutcome::Destroyed(self.destroy()),
        }
    }

    /// Ends the swarm: no topic is joined and no connection is there any more. Gives the topics
    /// whose discovery is to be stopped, the peers whose connections are to be closed, and whether
    /// the registration as a server is to be given up.
    pub fn shutdown(&mut self) -> (r: ShutdownPlan)
        requires
            old(self).wf(),
        ensures
            final(self).wf(),
            r.topics@.no_duplicates(),
            r.topics@.to_set() == old(self)@.topics.dom(),
            r.connections@.no_duplicates(),
            r.connections@.to_set() == old(self)@.connections.dom(),
            r.unregister == old(self)@.server_registered,
            final(self)@ == (SwarmModel {
                topics: Map::empty(),
                connections: Map::empty(),
                server_registered: false,
                ..old(self)@
            }),
    {
        let topics = self.joined_topics();
        let connections = self.connected_peers();
        self.topics = Table::new();
        self.connections = Table::new();
        let unregister: bool = self.destroy();
        ShutdownPlan { topics, connections, unregister }
    }

    /// What is known of a peer.
    pub fn known_peer(&self, public_key: &[u8; 32]) -> (r: Option<&PeerInfo>)
        requires
            self.wf(),
        ensures
            match r {
                Some(info) => self@.peers.contains_key(*public_key) && info@
                    == self@.peers[*public_key],
                None => !self@.peers.contains_key(*public_key),
            },
    {
        self.peers.get(public_key)
    }

    /// The peers that are connected.
    pub fn connected_peers(&self) -> (r: Vec<[u8; 32]>)
        requires
            self.wf(),
        ensures
            r@.no_duplicates(),
            r@.to_set() == self@.connections.dom(),
    {
        let ks = self.connections.keys_where(&AnyConnection {  });
        assert(ks@.to_set() =~= self@.connections.dom());
        ks
    }

    /// The topics that are joined.
    pub fn joined_topics(&self) -> (r: Vec<[u8; 32]>)
        requires
            self.wf(),
        ensures
            r@.no_duplicates(),
            r@.to_set() == self@.topics.dom(),
    {
        let ks = self.topics.keys_where(&AnyTopic {  });
        assert(ks@.to_set() =~= self@.topics.dom());
        ks
    }
}

/// Every topic.
struct AnyTopic {}

impl ValueTest<TopicState> for AnyTopic {
    closed spec fn passes(&self, t: TopicState) -> bool {
        true
    }

    fn check(&self, t: &TopicState) -> (r: bool) {
        true
    }
}

/// Every connection.
struct AnyConnection {}

impl ValueTest<bool> for AnyConnection {
    closed spec fn passes(&self, b: bool) -> bool {
        true
    }

    fn check(&self, b: &bool) -> (r: bool) {
        true
    }
}

/// Whether a plan fits leaving a topic: discovery of a joined topic is stopped, one that is
/// announced is unannounced, the registration as a server ends with the last of these, and those
/// that waited only for this topic are answered.
pub open spec fn leave_fits(m: SwarmModel, topic: [u8; 32], plan: LeavePlan) -> bool {
    &&& plan.cancel == m.topics.contains_key(topic)
    &&& plan.unannounce == (m.topics.contains_key(topic) && m.topics[topic].is_server)
    &&& plan.unregister == (m.server_registered && !m.parted(topic).server_registered)
    &&& plan.flushed@ == (if m.topics.contains_key(topic) {
        m.parted(topic).due()
    } else {
        Seq::empty()
    })
}

/// Whether a plan fits joining a topic: nothing for one that is joined already, else discovery with
/// the announced relay, and a registration where it is the first topic that is announced.
pub open spec fn join_fits(
    m: SwarmModel,
    topic: [u8; 32],
    server: bool,
    client: bool,
    plan: JoinPlan,
) -> bool {
    if m.topics.contains_key(topic) {
        !plan.register && plan.discovery is None
    } else {
        &&& plan.register == (server && !m.server_registered)
        &&& plan.discovery matches Some((config, relays)) && config == (PeerDiscoveryConfig {
            topic,
            is_server: server,
            is_client: client,
        }) && peers_view(relays@) == (match m.relay_address {
            Some(a) => seq![a],
            None => Seq::empty(),
        })
    }
}

/// Whether a retry is planned where one is due, for the peer and the first topic that it was found
/// on.
pub open spec fn retry_fits(m: SwarmModel, pk: [u8; 32], r: Option<RetryPlan>) -> bool {
    match r {
        Some(p) => {
            &&& m.retries(pk)
            &&& p.public_key == pk
            &&& peers_view(p.relay_addresses@) == m.peers[pk].relay_addresses
            &&& p.topic == m.peers[pk].topics[0]
        },
        None => !m.retries(pk),
    }
}

/// A change that touches neither the queue nor the marks of queued peers, and starts no dial,
/// keeps the state consistent.
proof fn lemma_flags_kept(m: SwarmModel, n: SwarmModel)
    requires
        m.consistent(),
        n.topics == m.topics,
        n.connections.dom().finite(),
        n.connections.dom().len() <= n.max_peers,
        n.queue == m.queue,
        n.public_key == m.public_key,
        n.max_parallel == m.max_parallel,
        n.active_connects <= m.active_connects,
        n.peers.dom() =~= m.peers.dom(),
        forall|pk: [u8; 32]| #[trigger]
            n.peers.contains_key(pk) ==> n.peers[pk].queued == m.peers[pk].queued && (
            n.peers[pk].connecting ==> m.peers[pk].connecting),
    ensures
        n.consistent(),
{
    assert forall|pk: [u8; 32]| #[trigger] n.queue.contains(pk) <==> n.peers.contains_key(pk)
        && n.peers[pk].queued by {
        assert(m.queue.contains(pk) <==> m.peers.contains_key(pk) && m.peers[pk].queued);
        assert(n.peers.contains_key(pk) <==> m.peers.contains_key(pk));
    }
    assert forall|pk: [u8; 32]| #[trigger] n.peers.contains_key(pk) implies !(n.peers[pk].queued
        && n.peers[pk].connecting) by {
        assert(m.peers.contains_key(pk));
    }
    assert(n.peers.contains_key(n.public_key) <==> m.peers.contains_key(m.public_key));
}

proof fn lemma_found_consistent(
    m: SwarmModel,
    pk: [u8; 32],
    relays: Seq<(Seq<char>, u16)>,
    topic: [u8; 32],
    priority: Priority,
)
    requires
        m.consistent(),
    ensures
        m.found(pk, relays, topic, priority).consistent(),
{
    let n = m.found(pk, relays, topic, priority);
    if m.wants(pk) {
        let p = m.noted(pk, relays, topic);
        assert(m.queue.contains(pk) <==> m.peers.contains_key(pk) && m.peers[pk].queued);
        if p.queued || p.connecting || p.banned || p.waiting {
            assert forall|x: [u8; 32]| #[trigger] n.queue.contains(x) <==> n.peers.contains_key(x)
                && n.peers[x].queued by {
                assert(m.queue.contains(x) <==> m.peers.contains_key(x) && m.peers[x].queued);
            }
        } else {
            assert(!m.queue.contains(pk));
            assert forall|x: [u8; 32]| #[trigger] n.queue.contains(x) <==> n.peers.contains_key(x)
                && n.peers[x].queued by {
                assert(m.queue.contains(x) <==> m.peers.contains_key(x) && m.peers[x].queued);
                if m.queue.contains(x) {
                    let i = choose|i: int| 0 <= i < m.queue.len() && m.queue[i] == x;
                    assert(n.queue[i] == x);
                }
                if x == pk {
                    assert(n.queue[m.queue.len() as int] == pk);
                }
            }
        }
    }
}

/// Dialling takes no slot of a connection.
proof fn lemma_dials_keep_connections(m: SwarmModel)
    ensures
        m.dialled().0.connections == m.connections,
    decreases m.queue.len(),
{
    if m.can_dial() {
        lemma_first_max(m.ranks());
        lemma_dials_keep_connections(m.dialled_one().0);
    }
}

/// Dialling keeps the state consistent.
pub proof fn lemma_dialled_consistent(m: SwarmModel)
    requires
        m.consistent(),
        m.can_dial(),
    ensures
        m.dialled_one().0.consistent(),
        m.peers.contains_key(m.queue[first_max(m.ranks())]),
{
    lemma_first_max(m.ranks());
    let i = first_max(m.ranks());
    let pk = m.queue[i];
    let (n, d) = m.dialled_one();
    assert(m.queue.contains(pk));
    assert forall|x: [u8; 32]| #[trigger] n.queue.contains(x) <==> n.peers.contains_key(x)
        && n.peers[x].queued by {
        assert(m.queue.contains(x) <==> m.peers.contains_key(x) && m.peers[x].queued);
        if n.queue.contains(x) {
            let j = choose|j: int| 0 <= j < n.queue.len() && n.queue[j] == x;
            let k = if j < i {
                j
            } else {
                j + 1
            };
            assert(m.queue[k] == x);
            assert(x != pk);
        }
        if m.queue.contains(x) && x != pk {
            let j = choose|j: int| 0 <= j < m.queue.len() && m.queue[j] == x;
            let k = if j < i {
                j
            } else {
                j - 1
            };
            assert(n.queue[k] == x);
        }
    }
    assert(n.queue.no_duplicates()) by {
        assert forall|a: int, b: int| 0 <= a < n.queue.len() && 0 <= b < n.queue.len() && a
            != b implies n.queue[a] != n.queue[b] by {
            let a2 = if a < i {
                a
            } else {
                a + 1
            };
            let b2 = if b < i {
                b
            } else {
                b + 1
            };
            assert(m.queue[a2] != m.queue[b2]);
        }
    }
}

} // verus!
