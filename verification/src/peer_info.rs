//! What a swarm keeps about a peer.

use vstd::prelude::*;

use crate::bytes::key_eq;
use crate::messages::{peers_view, Ipv4Peer};

verus! {

/// How soon a peer is dialled, compared with others.
#[derive(Debug, Clone, Copy, PartialEq, Eq, Structural)]
pub enum Priority {
    /// After all others.
    VeryLow,
    /// Late.
    Low,
    /// In the middle.
    Normal,
    /// Early.
    High,
    /// Before all others.
    VeryHigh,
}

impl Priority {
    /// Place of the priority in the order from very low to very high.
    pub open spec fn rank(self) -> int {
        match self {
            Priority::VeryLow => 0,
            Priority::Low => 1,
            Priority::Normal => 2,
            Priority::High => 3,
            Priority::VeryHigh => 4,
        }
    }

    /// The place of the priority.
    pub fn level(&self) -> (r: u8)
        ensures
            r == self.rank(),
    {
        match self {
            Priority::VeryLow => 0,
            Priority::Low => 1,
            Priority::Normal => 2,
            Priority::High => 3,
            Priority::VeryHigh => 4,
        }
    }
}

/// A known peer.
#[derive(Debug)]
pub struct PeerInfo {
    /// Its public key.
    pub public_key: [u8; 32],
    /// The relays that it announces.
    pub relay_addresses: Vec<Ipv4Peer>,
    /// The topics that it was found on, oldest first.
    pub topics: Vec<[u8; 32]>,
    /// Its place in the queue of dials.
    pub priority: Priority,
    /// Whether a connection to it came up before.
    pub proven: bool,
    /// Dials so far.
    pub attempts: u32,
    /// Whether it is in the queue of dials.
    pub queued: bool,
    /// Whether it is being dialled.
    pub connecting: bool,
    /// Whether it is not to be dialled any more.
    pub banned: bool,
    /// Whether it waits for a retry.
    pub waiting: bool,
}

/// What is known of a peer.
#[verifier::ext_equal]
pub struct PeerModel {
    /// See [`PeerInfo::public_key`].
    pub public_key: [u8; 32],
    /// See [`PeerInfo::relay_addresses`].
    pub relay_addresses: Seq<(Seq<char>, u16)>,
    /// See [`PeerInfo::topics`].
    pub topics: Seq<[u8; 32]>,
    /// See [`PeerInfo::priority`].
    pub priority: Priority,
    /// See [`PeerInfo::proven`].
    pub proven: bool,
    /// See [`PeerInfo::attempts`].
    pub attempts: u32,
    /// See [`PeerInfo::queued`].
    pub queued: bool,
    /// See [`PeerInfo::connecting`].
    pub connecting: bool,
    /// See [`PeerInfo::banned`].
    pub banned: bool,
    /// See [`PeerInfo::waiting`].
    pub waiting: bool,
}

impl View for PeerInfo {
    type V = PeerModel;

    open spec fn view(&self) -> PeerModel {
        PeerModel {
            public_key: self.public_key,
            relay_addresses: peers_view(self.relay_addresses@),
            topics: self.topics@,
            priority: self.priority,
            proven: self.proven,
            attempts: self.attempts,
            queued: self.queued,
            connecting: self.connecting,
            banned: self.banned,
            waiting: self.waiting,
        }
    }
}

/// A peer that was just found.
pub open spec fn new_peer(
    public_key: [u8; 32],
    relay_addresses: Seq<(Seq<char>, u16)>,
) -> PeerModel {
    PeerModel {
        public_key,
        relay_addresses,
        topics: Seq::empty(),
        priority: Priority::Normal,
        proven: false,
        attempts: 0,
        queued: false,
        connecting: false,
        banned: false,
        waiting: false,
    }
}

impl PeerInfo {
    /// A peer that was just found.
    pub fn new(public_key: [u8; 32], relay_addresses: Vec<Ipv4Peer>) -> (r: Self)
        ensures
            r.relay_addresses == relay_addresses,
            r@ == new_peer(public_key, peers_view(relay_addresses@)),
    {
        PeerInfo {
            public_key,
            relay_addresses,
            topics: Vec::new(),
            priority: Priority::Normal,
            proven: false,
            attempts: 0,
            queued: false,
            connecting: false,
            banned: false,
            waiting: false,
        }
    }

    /// Whether the peer waits for a retry.
    pub fn is_waiting(&self) -> (r: bool)
        ensures
            r == self@.waiting,
    {
        self.waiting
    }

    /// Sets whether the peer waits for a retry.
    pub fn set_waiting(&mut self, waiting: bool)
        ensures
            final(self)@ == (PeerModel { waiting, ..old(self)@ }),
    {
        self.waiting = waiting;
    }

    /// Notes that a connection to the peer came up.
    pub fn connected(&mut self)
        ensures
            final(self)@ == (PeerModel { proven: true, ..old(self)@ }),
    {
        self.proven = true;
    }

    /// Whether the peer was found on a topic.
    pub fn has_topic(&self, topic: &[u8; 32]) -> (r: bool)
        ensures
            r == self@.topics.contains(*topic),
    {
        contains_key(&self.topics, topic)
    }
}

/// Whether a list holds a key.
pub fn contains_key(keys: &Vec<[u8; 32]>, k: &[u8; 32]) -> (r: bool)
    ensures
        r == keys@.contains(*k),
{
    let mut i: usize = 0;
    while i < keys.len()
        invariant
            i <= keys@.len(),
            forall|j: int| 0 <= j < i ==> keys@[j] != *k,
        decreases keys@.len() - i,
    {
        if key_eq(&keys[i], k) {
            assert(keys@[i as int] == *k);
            return true;
        }
        i += 1;
    }
    false
}

/// A list without a key.
pub open spec fn without(keys: Seq<[u8; 32]>, k: [u8; 32]) -> Seq<[u8; 32]>
    decreases keys.len(),
{
    if keys.len() == 0 {
        Seq::empty()
    } else if keys.last() == k {
        without(keys.drop_last(), k)
    } else {
        without(keys.drop_last(), k).push(keys.last())
    }
}

/// Drops every occurrence of a key from a list.
pub fn drop_key(keys: &mut Vec<[u8; 32]>, k: &[u8; 32])
    ensures
        final(keys)@ == without(old(keys)@, *k),
{
    let mut kept: Vec<[u8; 32]> = Vec::new();
    let mut i: usize = 0;
    assert(keys@.take(0) =~= Seq::empty());
    while i < keys.len()
        invariant
            i <= keys@.len(),
            keys@ == old(keys)@,
            kept@ == without(keys@.take(i as int), *k),
        decreases keys@.len() - i,
    {
        proof {
            assert(keys@.take(i + 1).drop_last() =~= keys@.take(i as int));
        }
        if !key_eq(&keys[i], k) {
            kept.push(keys[i]);
        }
        i += 1;
    }
    assert(keys@.take(keys@.len() as int) =~= keys@);
    *keys = kept;
}

/// What is left of a list without a key does not hold it, and holds everything else.
pub proof fn lemma_without(keys: Seq<[u8; 32]>, k: [u8; 32])
    ensures
        !without(keys, k).contains(k),
        forall|x: [u8; 32]|
            #![trigger keys.contains(x)]
            #![trigger without(keys, k).contains(x)]
            x != k ==> (without(keys, k).contains(x) <==> keys.contains(x)),
    decreases keys.len(),
{
    if keys.len() > 0 {
        let t = keys.drop_last();
        lemma_without(t, k);
        assert forall|x: [u8; 32]|
            #![trigger keys.contains(x)]
            #![trigger without(keys, k).contains(x)]
            x != k implies (without(keys, k).contains(x) <==> keys.contains(x)) by {
            let w = without(keys, k);
            if keys.contains(x) {
                let i = choose|i: int| 0 <= i < keys.len() && keys[i] == x;
                if i < t.len() {
                    assert(t[i] == x);
                    assert(t.contains(x));
                    let j = choose|j: int| 0 <= j < without(t, k).len() && without(t, k)[j] == x;
                    assert(w[j] == x);
                } else {
                    assert(w[w.len() - 1] == x);
                }
            }
            if w.contains(x) {
                let j = choose|j: int| 0 <= j < w.len() && w[j] == x;
                if keys.last() != k && j == w.len() - 1 {
                    assert(keys[keys.len() - 1] == x);
                } else {
                    assert(without(t, k)[j] == x);
                    assert(without(t, k).contains(x));
                    let i = choose|i: int| 0 <= i < t.len() && t[i] == x;
                    assert(keys[i] == x);
                }
            }
        }
        if without(keys, k).contains(k) {
            let w = without(keys, k);
            let j = choose|j: int| 0 <= j < w.len() && w[j] == k;
            if !(keys.last() != k && j == w.len() - 1) {
                assert(without(t, k)[j] == k);
            }
        }
    }
}

/// A copy of a list of keys.
pub fn copy_keys(keys: &Vec<[u8; 32]>) -> (r: Vec<[u8; 32]>)
    ensures
        r@ == keys@,
{
    let mut r: Vec<[u8; 32]> = Vec::new();
    let mut i: usize = 0;
    while i < keys.len()
        invariant
            i <= keys@.len(),
            r@ == keys@.take(i as int),
        decreases keys@.len() - i,
    {
        r.push(keys[i]);
        i += 1;
        assert(r@ =~= keys@.take(i as int));
    }
    assert(keys@.take(keys@.len() as int) =~= keys@);
    r
}

/// What is left of a list without a key are its other entries, in their order.
pub proof fn law_without_keeps_the_others(keys: Seq<[u8; 32]>, k: [u8; 32])
    ensures
        without(keys, k) == keys.filter(|x: [u8; 32]| x != k),
    decreases keys.len(),
{
    reveal(Seq::filter);
    if keys.len() > 0 {
        law_without_keeps_the_others(keys.drop_last(), k);
    }
}

} // verus!
