//! NAT classification: samples of the address that others see are gathered, and the kind of NAT
//! and the addresses to give out are derived from them.

pub mod laws;

use vstd::prelude::*;

use crate::bytes::text_eq;
use crate::hyperdht_messages::{
    FIREWALL_CONSISTENT, FIREWALL_OPEN, FIREWALL_RANDOM, FIREWALL_UNKNOWN,
};
use crate::messages::{peers_view, Ipv4Peer};
use crate::table::{entries_map, lemma_entries, lemma_pushed, lemma_replaced, unique_keys};

verus! {

/// Samples after which the analysis counts as done, whatever they say.
pub const NAT_MIN_SAMPLES: u32 = 4;

/// Candidates asked for beyond the samples wanted.
pub const SPARE_CANDIDATES: usize = 5;

/// Nodes that a sampling run asks at the same time.
pub const CONCURRENT_PINGS: usize = 4;

/// An address that others reported, and how often.
#[derive(Debug)]
pub struct Sample {
    /// The reported host.
    pub host: String,
    /// The reported port, zero where only hosts are counted.
    pub port: u16,
    /// How often it was reported.
    pub hits: u32,
}

/// What a [`Sample`] says.
pub struct SampleModel {
    /// The reported host and port.
    pub addr: (Seq<char>, u16),
    /// How often it was reported.
    pub hits: int,
}

impl View for Sample {
    type V = SampleModel;

    open spec fn view(&self) -> SampleModel {
        SampleModel { addr: (self.host@, self.port), hits: self.hits as int }
    }
}

/// Views of a list of samples.
pub open spec fn samples_view(s: Seq<Sample>) -> Seq<SampleModel> {
    s.map_values(|x: Sample| x@)
}

/// Position of the first sample of an address, or the number of samples where there is none.
pub open spec fn first_of(s: Seq<SampleModel>, addr: (Seq<char>, u16)) -> int
    decreases s.len(),
{
    if s.len() == 0 {
        0
    } else {
        let i = first_of(s.drop_last(), addr);
        if i < s.len() - 1 || s.last().addr == addr {
            i
        } else {
            s.len() as int
        }
    }
}

/// Where a sample with `hits` hits comes to stand when it rises from position `i` past all samples
/// with fewer hits.
pub open spec fn rise(s: Seq<SampleModel>, i: int, hits: int) -> int
    decreases i,
{
    if 0 < i && s[i - 1].hits < hits {
        rise(s, i - 1, hits)
    } else {
        i
    }
}

/// The samples after one more report of an address: its sample gains a hit and rises past samples
/// with fewer hits; an address without a sample gets one at the end.
pub open spec fn reported(s: Seq<SampleModel>, addr: (Seq<char>, u16)) -> Seq<SampleModel> {
    let i = first_of(s, addr);
    if i < s.len() {
        let hits = s[i].hits + 1;
        s.remove(i).insert(rise(s, i, hits), SampleModel { addr, hits })
    } else {
        s.push(SampleModel { addr, hits: 1 })
    }
}

/// The samples are ordered by hits, most first.
pub open spec fn ranked(s: Seq<SampleModel>) -> bool {
    forall|i: int, j: int| 0 <= i <= j < s.len() ==> (#[trigger] s[i]).hits >= (#[trigger] s[j]).hits
}

/// No address has two samples.
pub open spec fn distinct(s: Seq<SampleModel>) -> bool {
    forall|i: int, j: int|
        0 <= i < s.len() && 0 <= j < s.len() && i != j ==> (#[trigger] s[i]).addr != (
        #[trigger] s[j]).addr
}

/// Number of reports that the samples stand for.
pub open spec fn total(s: Seq<SampleModel>) -> int
    decreases s.len(),
{
    if s.len() == 0 {
        0
    } else {
        total(s.drop_last()) + s.last().hits
    }
}

/// Samples that a run of reports can lead to.
pub open spec fn sound(s: Seq<SampleModel>) -> bool {
    &&& ranked(s)
    &&& distinct(s)
    &&& forall|i: int| 0 <= i < s.len() ==> (#[trigger] s[i]).hits >= 1
}

proof fn lemma_first_of(s: Seq<SampleModel>, addr: (Seq<char>, u16))
    ensures
        0 <= first_of(s, addr) <= s.len(),
        first_of(s, addr) < s.len() ==> s[first_of(s, addr)].addr == addr,
        forall|i: int| 0 <= i < first_of(s, addr) ==> (#[trigger] s[i]).addr != addr,
    decreases s.len(),
{
    if s.len() > 0 {
        let t = s.drop_last();
        lemma_first_of(t, addr);
        assert(forall|i: int| 0 <= i < t.len() ==> (#[trigger] t[i]) == s[i]);
        assert forall|i: int| 0 <= i < first_of(s, addr) implies (#[trigger] s[i]).addr != addr by {
            if i < t.len() {
                assert(t[i].addr != addr);
            }
        }
    }
}

proof fn lemma_rise(s: Seq<SampleModel>, i: int, hits: int)
    requires
        0 <= i,
    ensures
        0 <= rise(s, i, hits) <= i,
        forall|k: int| rise(s, i, hits) <= k < i ==> (#[trigger] s[k]).hits < hits,
        rise(s, i, hits) > 0 ==> s[rise(s, i, hits) - 1].hits >= hits,
    decreases i,
{
    if 0 < i && s[i - 1].hits < hits {
        lemma_rise(s, i - 1, hits);
    }
}

proof fn lemma_total_insert(s: Seq<SampleModel>, p: int, x: SampleModel)
    requires
        0 <= p <= s.len(),
    ensures
        total(s.insert(p, x)) == total(s) + x.hits,
    decreases s.len(),
{
    let t = s.insert(p, x);
    if p == s.len() {
        assert(t.drop_last() =~= s);
    } else {
        assert(t.drop_last() =~= s.drop_last().insert(p, x));
        lemma_total_insert(s.drop_last(), p, x);
    }
}

proof fn lemma_total_remove(s: Seq<SampleModel>, i: int)
    requires
        0 <= i < s.len(),
    ensures
        total(s.remove(i)) == total(s) - s[i].hits,
{
    lemma_total_insert(s.remove(i), i, s[i]);
    assert(s.remove(i).insert(i, s[i]) =~= s);
}

proof fn lemma_hits_within_total(s: Seq<SampleModel>, i: int)
    requires
        forall|k: int| 0 <= k < s.len() ==> (#[trigger] s[k]).hits >= 1,
        0 <= i < s.len(),
    ensures
        s[i].hits <= total(s),
        s.len() <= total(s),
    decreases s.len(),
{
    reveal_with_fuel(total, 2);
    let t = s.drop_last();
    assert(s[s.len() - 1].hits >= 1);
    assert(forall|k: int| 0 <= k < t.len() ==> (#[trigger] t[k]) == s[k]);
    if t.len() > 0 {
        lemma_hits_within_total(t, if i < t.len() { i } else { 0 });
    }
}

/// A report keeps the samples ordered by hits and without repeated addresses, and raises the
/// number of reports that they stand for by one.
pub proof fn law_report_keeps_samples_sound(s: Seq<SampleModel>, addr: (Seq<char>, u16))
    requires
        sound(s),
    ensures
        sound(reported(s, addr)),
        total(reported(s, addr)) == total(s) + 1,
        reported(s, addr).len() >= s.len(),
        reported(s, addr).len() >= 1,
{
    lemma_first_of(s, addr);
    let i = first_of(s, addr);
    let r = reported(s, addr);
    if i < s.len() {
        let hits = s[i].hits + 1;
        let x = SampleModel { addr, hits };
        lemma_rise(s, i, hits);
        let p = rise(s, i, hits);
        lemma_total_remove(s, i);
        lemma_total_insert(s.remove(i), p, x);
        assert forall|k: int| 0 <= k < r.len() implies #[trigger] r[k] == (if k < p {
            s[k]
        } else if k == p {
            x
        } else if k <= i {
            s[k - 1]
        } else {
            s[k]
        }) by {}
        assert forall|a: int, b: int| 0 <= a <= b < r.len() implies (#[trigger] r[a]).hits >= (
        #[trigger] r[b]).hits by {
            if a < p && b == p {
                assert(s[a].hits >= s[p - 1].hits);
            }
            if a == p && b > p {
                if b <= i {
                    assert(s[b - 1].hits < hits);
                } else {
                    assert(s[i].hits >= s[b].hits);
                }
            }
        }
    } else {
        let x = SampleModel { addr, hits: 1 };
        assert(r.drop_last() =~= s);
        assert forall|a: int, b: int| 0 <= a <= b < r.len() implies (#[trigger] r[a]).hits >= (
        #[trigger] r[b]).hits by {
            if b == s.len() && a < s.len() {
                assert(s[a].hits >= 1);
            }
        }
        assert forall|a: int, b: int| 0 <= a < r.len() && 0 <= b < r.len() && a != b implies (
        #[trigger] r[a]).addr != (#[trigger] r[b]).addr by {
            if a < s.len() && b < s.len() {
                assert(s[a].addr != s[b].addr);
            }
        }
    }
}

/// Counts one report of an address.
pub fn add_sample(samples: &mut Vec<Sample>, host: &str, port: u16)
    requires
        forall|i: int| 0 <= i < old(samples)@.len() ==> (#[trigger] old(samples)@[i]).hits < u32::MAX,
    ensures
        samples_view(final(samples)@) == reported(samples_view(old(samples)@), (host@, port)),
{
    let ghost before = samples_view(samples@);
    let ghost addr = (host@, port);
    let mut i: usize = 0;
    while i < samples.len()
        invariant
            i <= samples@.len(),
            samples@ == old(samples)@,
            before == samples_view(samples@),
            addr == (host@, port),
            forall|k: int| 0 <= k < samples@.len() ==> (#[trigger] samples@[k]).hits < u32::MAX,
            forall|k: int| 0 <= k < i ==> (#[trigger] before[k]).addr != addr,
        decreases samples@.len() - i,
    {
        if samples[i].port == port && text_eq(samples[i].host.as_str(), host) {
            proof {
                lemma_first_of(before, addr);
                assert(before[i as int].addr == addr);
            }
            let hits: u32 = samples[i].hits + 1;
            let mut p: usize = i;
            while p > 0 && samples[p - 1].hits < hits
                invariant
                    p <= i < samples@.len(),
                    before == samples_view(samples@),
                    rise(before, p as int, hits as int) == rise(before, i as int, hits as int),
                decreases p,
            {
                assert(before[p - 1].hits == samples@[p - 1].hits);
                p -= 1;
            }
            assert(p > 0 ==> before[p - 1].hits == samples@[p - 1].hits);
            let mut s = samples.remove(i);
            s.hits = hits;
            samples.insert(p, s);
            assert(samples_view(samples@) =~= reported(before, addr));
            return;
        }
        i += 1;
    }
    let s = Sample { host: host.to_owned(), port, hits: 1 };
    samples.push(s);
    proof {
        lemma_first_of(before, addr);
        assert(samples_view(samples@) =~= reported(before, addr));
    }
}

/// What is known of a NAT, as mathematical values.
#[verifier::ext_equal]
pub struct NatModel {
    /// Reported hosts, most often reported first.
    pub hosts: Seq<SampleModel>,
    /// Reported hosts with their ports, most often reported first.
    pub full: Seq<SampleModel>,
    /// Nodes that were asked (1) or have reported (2).
    pub visited: Map<(Seq<char>, u16), u8>,
    /// Whether the classification is held still.
    pub frozen: bool,
    /// Whether a NAT is in front at all.
    pub firewalled: bool,
    /// Number of reports.
    pub sampled: u32,
    /// The classification.
    pub firewall: u64,
    /// The addresses to give out.
    pub addresses: Option<Seq<(Seq<char>, u16)>>,
    /// Whether the analysis is done.
    pub settled: bool,
}

/// The addresses to give out under a consistent NAT: all that were reported twice, and the others
/// up to two.
pub open spec fn consistent_addresses(full: Seq<SampleModel>) -> Seq<(Seq<char>, u16)>
    decreases full.len(),
{
    if full.len() == 0 {
        Seq::empty()
    } else {
        let r = consistent_addresses(full.drop_last());
        if full.last().hits >= 2 || r.len() < 2 {
            r.push(full.last().addr)
        } else {
            r
        }
    }
}

impl NatModel {
    /// An analysis without samples.
    pub open spec fn fresh(firewalled: bool) -> Self {
        NatModel {
            hosts: Seq::empty(),
            full: Seq::empty(),
            visited: Map::empty(),
            frozen: false,
            firewalled,
            sampled: 0,
            firewall: if firewalled {
                FIREWALL_UNKNOWN
            } else {
                FIREWALL_OPEN
            },
            addresses: None,
            settled: !firewalled,
        }
    }

    /// The kind of NAT that the samples speak for.
    pub open spec fn classified(self) -> u64 {
        if !self.firewalled {
            FIREWALL_OPEN
        } else if self.sampled < 3 || self.full.len() == 0 {
            self.firewall
        } else if self.full[0].hits >= 3 {
            FIREWALL_CONSISTENT
        } else if self.full[0].hits == 1 {
            FIREWALL_RANDOM
        } else if self.hosts.len() == 1 && self.sampled > 3 {
            FIREWALL_RANDOM
        } else if self.hosts.len() > 1 && self.full.len() > 1 && self.full[1].hits > 1 {
            FIREWALL_CONSISTENT
        } else if self.sampled > 4 {
            FIREWALL_RANDOM
        } else {
            self.firewall
        }
    }

    /// The addresses that fit the classification.
    pub open spec fn addressed(self) -> Option<Seq<(Seq<char>, u16)>> {
        if self.firewall == FIREWALL_UNKNOWN {
            None
        } else if self.firewall == FIREWALL_RANDOM && self.hosts.len() > 0 {
            Some(seq![self.hosts[0].addr])
        } else if self.firewall == FIREWALL_CONSISTENT {
            Some(consistent_addresses(self.full))
        } else {
            self.addresses
        }
    }

    /// Classification and addresses brought up to date.
    pub open spec fn refreshed(self) -> Self {
        let m = NatModel { firewall: self.classified(), ..self };
        NatModel { addresses: m.addressed(), ..m }
    }

    /// As [`Self::refreshed`], where a NAT in front rules an open classification out.
    pub open spec fn updated(self) -> Self {
        if self.firewalled && self.firewall == FIREWALL_OPEN {
            NatModel { firewall: FIREWALL_UNKNOWN, ..self }.refreshed()
        } else {
            self.refreshed()
        }
    }

    /// The analysis is done once the NAT is open or consistent, or enough samples came in.
    pub open spec fn settling(self) -> Self {
        NatModel {
            settled: self.settled || self.firewall == FIREWALL_OPEN || self.firewall
                == FIREWALL_CONSISTENT || self.sampled >= NAT_MIN_SAMPLES,
            ..self
        }
    }

    /// Whether the node has reported already.
    pub open spec fn has_reported(self, from: (Seq<char>, u16)) -> bool {
        self.visited.contains_key(from) && self.visited[from] == 2
    }

    /// The report of `addr` by the node `from` is taken in. Each node reports once.
    pub open spec fn added(self, addr: (Seq<char>, u16), from: (Seq<char>, u16)) -> Self {
        if self.has_reported(from) {
            self
        } else {
            let m = NatModel {
                visited: self.visited.insert(from, 2),
                hosts: reported(self.hosts, (addr.0, 0)),
                full: reported(self.full, addr),
                sampled: (self.sampled + 1) as u32,
                ..self
            };
            (if (m.sampled >= 3 || !m.firewalled) && !m.frozen {
                m.updated()
            } else {
                m
            }).settling()
        }
    }

    /// The samples fit each other and the number of reports.
    pub open spec fn consistent(self) -> bool {
        &&& sound(self.hosts)
        &&& sound(self.full)
        &&& total(self.hosts) == self.sampled
        &&& total(self.full) == self.sampled
    }
}

/// A node that was asked or has reported.
#[derive(Debug)]
struct Visit {
    host: String,
    port: u16,
    mark: u8,
}

spec fn visits(v: Seq<Visit>) -> Seq<((Seq<char>, u16), u8)> {
    v.map_values(|x: Visit| ((x.host@, x.port), x.mark))
}

/// What the analysis has heard, and whether it goes on.
#[derive(Debug)]
pub struct NatRecords {
    samples_host: Vec<Sample>,
    samples_full: Vec<Sample>,
    visited: Vec<Visit>,
    frozen: bool,
    analyzing_settled: bool,
}

/// What is recorded, as mathematical values.
#[verifier::ext_equal]
pub struct RecordsModel {
    /// See [`NatModel::hosts`].
    pub hosts: Seq<SampleModel>,
    /// See [`NatModel::full`].
    pub full: Seq<SampleModel>,
    /// See [`NatModel::visited`].
    pub visited: Map<(Seq<char>, u16), u8>,
    /// See [`NatModel::frozen`].
    pub frozen: bool,
    /// See [`NatModel::settled`].
    pub settled: bool,
}

impl View for NatRecords {
    type V = RecordsModel;

    closed spec fn view(&self) -> RecordsModel {
        RecordsModel {
            hosts: samples_view(self.samples_host@),
            full: samples_view(self.samples_full@),
            visited: entries_map(visits(self.visited@)),
            frozen: self.frozen,
            settled: self.analyzing_settled,
        }
    }
}

/// The state of the NAT analysis.
#[derive(Debug)]
pub struct Nat {
    /// What was heard so far.
    pub records: NatRecords,
    /// Whether a NAT is in front at all.
    pub firewalled: bool,
    /// Number of reports.
    pub sampled: u32,
    /// The classification.
    pub firewall: u64,
    /// The addresses to give out.
    pub addresses: Option<Vec<Ipv4Peer>>,
}

/// View of an optional list of addresses.
pub open spec fn addresses_view(a: Option<Vec<Ipv4Peer>>) -> Option<Seq<(Seq<char>, u16)>> {
    match a {
        Some(v) => Some(peers_view(v@)),
        None => None,
    }
}

impl View for Nat {
    type V = NatModel;

    open spec fn view(&self) -> NatModel {
        NatModel {
            hosts: self.records@.hosts,
            full: self.records@.full,
            visited: self.records@.visited,
            frozen: self.records@.frozen,
            firewalled: self.firewalled,
            sampled: self.sampled,
            firewall: self.firewall,
            addresses: addresses_view(self.addresses),
            settled: self.records@.settled,
        }
    }
}

impl Nat {
    /// No node is listed twice, and the samples fit the number of reports.
    pub closed spec fn wf(&self) -> bool {
        unique_keys(visits(self.records.visited@)) && self@.consistent()
    }

    /// In a sound analysis the samples fit the number of reports.
    pub proof fn lemma_consistent(&self)
        requires
            self.wf(),
        ensures
            self@.consistent(),
    {
    }

    /// Starts an analysis without samples.
    pub fn new(firewalled: bool) -> (n: Self)
        ensures
            n.wf(),
            n@ == NatModel::fresh(firewalled),
    {
        let n = Nat {
            records: NatRecords {
                samples_host: Vec::new(),
                samples_full: Vec::new(),
                visited: Vec::new(),
                frozen: false,
                analyzing_settled: !firewalled,
            },
            firewalled,
            sampled: 0,
            firewall: if firewalled {
                FIREWALL_UNKNOWN
            } else {
                FIREWALL_OPEN
            },
            addresses: None,
        };
        proof {
            assert(n@.hosts =~= Seq::empty());
            assert(n@.full =~= Seq::empty());
            assert(visits(n.records.visited@) =~= Seq::empty());
            assert(n@.visited =~= Map::empty());
        }
        n
    }

    /// Ends the analysis: nothing is reclassified any more, and whoever waits for the analysis is
    /// let go.
    pub fn destroy(&mut self)
        ensures
            final(self)@ == (NatModel { frozen: true, settled: true, ..old(self)@ }),
            old(self).wf() ==> final(self).wf(),
    {
        self.records.frozen = true;
        self.records.analyzing_settled = true;
    }

    /// Holds the classification still.
    pub fn freeze(&mut self)
        ensures
            final(self)@ == (NatModel { frozen: true, ..old(self)@ }),
            old(self).wf() ==> final(self).wf(),
    {
        self.records.frozen = true;
    }

    /// Lets the classification go on, and brings it up to date.
    pub fn unfreeze(&mut self)
        ensures
            final(self)@ == (NatModel { frozen: false, ..old(self)@ }).refreshed(),
            old(self).wf() ==> final(self).wf(),
    {
        self.records.frozen = false;
        self.update_firewall();
        self.update_addresses();
        assert(self@ =~= (NatModel { frozen: false, ..old(self)@ }).refreshed());
    }

    /// Brings classification and addresses up to date.
    pub fn update(&mut self)
        ensures
            final(self)@ == old(self)@.updated(),
            old(self).wf() ==> final(self).wf(),
    {
        if self.firewalled && self.firewall == FIREWALL_OPEN {
            self.firewall = FIREWALL_UNKNOWN;
        }
        self.update_firewall();
        self.update_addresses();
        assert(self@ =~= old(self)@.updated());
    }

    /// Takes in that the node `from` sees us as `addr`. Each node is heard once.
    pub fn add(&mut self, addr: &Ipv4Peer, from: &Ipv4Peer)
        requires
            old(self).wf(),
            old(self)@.has_reported(from@) || old(self)@.sampled < u32::MAX,
        ensures
            final(self).wf(),
            final(self)@ == old(self)@.added(addr@, from@),
    {
        let ghost m = self@;
        proof {
            lemma_entries(visits(self.records.visited@));
        }
        if self.has_heard(from) {
            return;
        }
        self.set_mark(from.host.as_str(), from.port, 2);
        proof {
            lemma_hit_bounds(m.hosts);
            lemma_hit_bounds(m.full);
            law_report_keeps_samples_sound(m.hosts, (addr@.0, 0));
            law_report_keeps_samples_sound(m.full, addr@);
            lemma_view_hits(self.records.samples_host@);
            lemma_view_hits(self.records.samples_full@);
        }
        add_sample(&mut self.records.samples_host, addr.host.as_str(), 0);
        add_sample(&mut self.records.samples_full, addr.host.as_str(), addr.port);
        self.sampled += 1;
        if (self.sampled >= 3 || !self.firewalled) && !self.records.frozen {
            self.update();
        }
        self.try_settle();
        assert(self@ =~= m.added(addr@, from@));
    }

    /// Whether a node has reported already.
    pub fn has_heard(&self, from: &Ipv4Peer) -> (r: bool)
        requires
            self.wf(),
        ensures
            r == self@.has_reported(from@),
    {
        self.mark(from.host.as_str(), from.port) == Some(2)
    }

    /// Whether the classification is one that a direct connection can rely on.
    pub fn is_settled(&self) -> (r: bool)
        ensures
            r == (self@.firewall == FIREWALL_CONSISTENT || self@.firewall == FIREWALL_OPEN),
    {
        self.firewall == FIREWALL_CONSISTENT || self.firewall == FIREWALL_OPEN
    }

    /// Whether the analysis is done, so that whoever waits for it can go on.
    pub fn analyzing_settled(&self) -> (r: bool)
        ensures
            r == self@.settled,
    {
        self.records.analyzing_settled
    }

    fn try_settle(&mut self)
        ensures
            final(self)@ == old(self)@.settling(),
            old(self).wf() ==> final(self).wf(),
    {
        if self.firewall == FIREWALL_OPEN || self.firewall == FIREWALL_CONSISTENT || self.sampled
            >= NAT_MIN_SAMPLES {
            self.records.analyzing_settled = true;
        }
        assert(self@ =~= old(self)@.settling());
    }

    /// Notes that a node is asked. Gives `false` where it was noted before.
    pub fn mark_visited(&mut self, host: &str, port: u16) -> (r: bool)
        requires
            old(self).wf(),
        ensures
            final(self).wf(),
            r == !old(self)@.visited.contains_key((host@, port)),
            final(self)@ == if r {
                NatModel { visited: old(self)@.visited.insert((host@, port), 1), ..old(self)@ }
            } else {
                old(self)@
            },
    {
        if self.mark(host, port).is_some() {
            return false;
        }
        self.set_mark(host, port, 1);
        true
    }

    /// The mark of a node.
    fn mark(&self, host: &str, port: u16) -> (r: Option<u8>)
        requires
            self.wf(),
        ensures
            match r {
                Some(m) => self@.visited.contains_key((host@, port)) && self@.visited[(host@, port)]
                    == m,
                None => !self@.visited.contains_key((host@, port)),
            },
    {
        match self.visit_index(host, port) {
            Some(i) => Some(self.records.visited[i].mark),
            None => None,
        }
    }

    fn visit_index(&self, host: &str, port: u16) -> (r: Option<usize>)
        requires
            self.wf(),
        ensures
            match r {
                Some(i) => i < self.records.visited@.len() && self.records.visited@[i as int].host@ == host@
                    && self.records.visited@[i as int].port == port && self@.visited.contains_key(
                    (host@, port),
                ) && self@.visited[(host@, port)] == self.records.visited@[i as int].mark,
                None => !self@.visited.contains_key((host@, port)),
            },
    {
        let ghost es = visits(self.records.visited@);
        let ghost k = (host@, port);
        let mut i: usize = 0;
        while i < self.records.visited.len()
            invariant
                self.wf(),
                i <= self.records.visited@.len(),
                es == visits(self.records.visited@),
                k == (host@, port),
                forall|j: int| 0 <= j < i ==> (#[trigger] es[j]).0 != k,
            decreases self.records.visited@.len() - i,
        {
            assert(es[i as int] == (
                (self.records.visited@[i as int].host@, self.records.visited@[i as int].port),
                self.records.visited@[i as int].mark,
            ));
            if self.records.visited[i].port == port && text_eq(self.records.visited[i].host.as_str(), host) {
                proof {
                    lemma_entries(es);
                    assert(es[i as int].0 == k);
                }
                return Some(i);
            }
            i += 1;
        }
        None
    }

    fn set_mark(&mut self, host: &str, port: u16, mark: u8)
        requires
            old(self).wf(),
        ensures
            final(self).wf(),
            final(self)@ == (NatModel {
                visited: old(self)@.visited.insert((host@, port), mark),
                ..old(self)@
            }),
            final(self).records.samples_host == old(self).records.samples_host,
            final(self).records.samples_full == old(self).records.samples_full,
    {
        let ghost es = visits(self.records.visited@);
        let ghost k = (host@, port);
        match self.visit_index(host, port) {
            Some(i) => {
                let v = Visit { host: host.to_owned(), port, mark };
                self.records.visited.set(i, v);
                proof {
                    assert(es[i as int].0 == k);
                    lemma_replaced(es, i as int, mark);
                    assert(visits(self.records.visited@) =~= es.update(i as int, (k, mark)));
                }
            },
            None => {
                let v = Visit { host: host.to_owned(), port, mark };
                self.records.visited.push(v);
                proof {
                    lemma_pushed(es, k, mark);
                    assert(visits(self.records.visited@) =~= es.push((k, mark)));
                }
            },
        }
        assert(self@ =~= (NatModel { visited: old(self)@.visited.insert(k, mark), ..old(self)@ }));
    }

    fn update_firewall(&mut self)
        ensures
            final(self)@ == (NatModel { firewall: old(self)@.classified(), ..old(self)@ }),
            final(self).records.samples_host == old(self).records.samples_host,
            final(self).records.samples_full == old(self).records.samples_full,
            final(self).records.visited == old(self).records.visited,
    {
        let ghost m = self@;
        proof {
            assert(m.full.len() == self.records.samples_full@.len());
            assert(m.hosts.len() == self.records.samples_host@.len());
            if m.full.len() > 0 {
                assert(m.full[0].hits == self.records.samples_full@[0].hits);
            }
            if m.full.len() > 1 {
                assert(m.full[1].hits == self.records.samples_full@[1].hits);
            }
        }
        if !self.firewalled {
            self.firewall = FIREWALL_OPEN;
            assert(self@ =~= (NatModel { firewall: m.classified(), ..m }));
            return;
        }
        if self.sampled < 3 || self.records.samples_full.len() == 0 {
            return;
        }
        let max: u32 = self.records.samples_full[0].hits;
        if max >= 3 {
            self.firewall = FIREWALL_CONSISTENT;
        } else if max == 1 {
            self.firewall = FIREWALL_RANDOM;
        } else if self.records.samples_host.len() == 1 && self.sampled > 3 {
            self.firewall = FIREWALL_RANDOM;
        } else if self.records.samples_host.len() > 1 && self.records.samples_full.len() > 1
            && self.records.samples_full[1].hits > 1 {
            self.firewall = FIREWALL_CONSISTENT;
        } else if self.sampled > 4 {
            self.firewall = FIREWALL_RANDOM;
        }
        assert(self@ =~= (NatModel { firewall: m.classified(), ..m }));
    }

    fn update_addresses(&mut self)
        ensures
            final(self)@ == (NatModel { addresses: old(self)@.addressed(), ..old(self)@ }),
            final(self).records.samples_host == old(self).records.samples_host,
            final(self).records.samples_full == old(self).records.samples_full,
            final(self).records.visited == old(self).records.visited,
    {
        let ghost m = self@;
        if self.firewall == FIREWALL_UNKNOWN {
            self.addresses = None;
        } else if self.firewall == FIREWALL_RANDOM {
            if self.records.samples_host.len() > 0 {
                let mut addrs: Vec<Ipv4Peer> = Vec::new();
                addrs.push(
                    Ipv4Peer {
                        host: self.records.samples_host[0].host.clone(),
                        port: self.records.samples_host[0].port,
                    },
                );
                proof {
                    assert(m.hosts[0].addr == (
                        self.records.samples_host@[0].host@,
                        self.records.samples_host@[0].port,
                    ));
                    assert(peers_view(addrs@) =~= seq![m.hosts[0].addr]);
                }
                self.addresses = Some(addrs);
            }
        } else if self.firewall == FIREWALL_CONSISTENT {
            let mut addrs: Vec<Ipv4Peer> = Vec::new();
            let mut i: usize = 0;
            assert(peers_view(addrs@) =~= consistent_addresses(m.full.take(0)));
            while i < self.records.samples_full.len()
                invariant
                    i <= self.records.samples_full@.len(),
                    m.full == samples_view(self.records.samples_full@),
                    peers_view(addrs@) == consistent_addresses(m.full.take(i as int)),
                decreases self.records.samples_full@.len() - i,
            {
                let ghost before = addrs@;
                let ghost t = m.full.take(i + 1);
                assert(t.drop_last() =~= m.full.take(i as int));
                assert(t.last() == self.records.samples_full@[i as int]@);
                assert(peers_view(before).len() == before.len());
                if self.records.samples_full[i].hits >= 2 || addrs.len() < 2 {
                    addrs.push(
                        Ipv4Peer {
                            host: self.records.samples_full[i].host.clone(),
                            port: self.records.samples_full[i].port,
                        },
                    );
                    assert(peers_view(addrs@) =~= peers_view(before).push(t.last().addr));
                }
                i += 1;
            }
            assert(m.full.take(m.full.len() as int) =~= m.full);
            self.addresses = Some(addrs);
        }
        assert(self@ =~= (NatModel { addresses: m.addressed(), ..m }));
    }
}

/// A run that asks known nodes how they see us, and feeds their answers to the analysis.
#[derive(Debug, Clone, Copy)]
pub struct AutoSample {
    /// Reports before the run.
    pub before: u32,
}

impl AutoSample {
    /// The nodes to ask: the first `max_samples` candidates. There is nothing to ask where the NAT
    /// is classified already or no candidate is known.
    pub fn plan(analysis: &Nat, candidates: Vec<Ipv4Peer>, max_samples: usize) -> (r: Option<
        (Self, Vec<Ipv4Peer>),
    >)
        ensures
            if analysis@.firewall != FIREWALL_UNKNOWN || candidates@.len() == 0 {
                r is None
            } else {
                r matches Some((run, nodes)) && run.before == analysis@.sampled && nodes@ == (
                if max_samples <= candidates@.len() {
                    candidates@.take(max_samples as int)
                } else {
                    candidates@
                })
            },
    {
        if analysis.firewall != FIREWALL_UNKNOWN || candidates.len() == 0 {
            return None;
        }
        let mut nodes = candidates;
        nodes.truncate(max_samples);
        Some((AutoSample { before: analysis.sampled }, nodes))
    }

    /// Takes the answer of the node `from` in. An answer that does not say how it sees us is
    /// passed over. Gives `true` where the NAT is classified and no more answers are needed.
    pub fn on_reply(&self, analysis: &mut Nat, to: Option<&Ipv4Peer>, from: &Ipv4Peer) -> (stop: bool)
        requires
            old(analysis).wf(),
            old(analysis)@.has_reported(from@) || old(analysis)@.sampled < u32::MAX,
        ensures
            final(analysis).wf(),
            match to {
                Some(addr) => {
                    &&& final(analysis)@ == old(analysis)@.added(addr@, from@)
                    &&& stop == (final(analysis)@.firewall != FIREWALL_UNKNOWN)
                },
                None => final(analysis)@ == old(analysis)@ && !stop,
            },
    {
        match to {
            Some(addr) => {
                analysis.add(addr, from);
                analysis.firewall != FIREWALL_UNKNOWN
            },
            None => false,
        }
    }

    /// Number of reports that the run has added.
    pub fn added(&self, analysis: &Nat) -> (r: usize)
        requires
            self.before <= analysis@.sampled,
        ensures
            r == analysis@.sampled - self.before,
    {
        (analysis.sampled - self.before) as usize
    }
}

/// A node is heard once: what it reports again changes nothing.
pub proof fn law_each_node_reports_once(
    m: NatModel,
    addr: (Seq<char>, u16),
    again: (Seq<char>, u16),
    from: (Seq<char>, u16),
)
    ensures
        m.added(addr, from).has_reported(from),
        m.added(addr, from).added(again, from) == m.added(addr, from),
{
}

/// While the analysis is frozen, reports change neither the classification nor the addresses;
/// thawing then derives both from all that was reported.
pub proof fn law_frozen_analysis_keeps_its_verdict(
    m: NatModel,
    addr: (Seq<char>, u16),
    from: (Seq<char>, u16),
)
    requires
        m.frozen,
    ensures
        m.added(addr, from).firewall == m.firewall,
        m.added(addr, from).addresses == m.addresses,
        m.added(addr, from).frozen,
{
}

/// Without a NAT in front, every report leaves the classification open.
pub proof fn law_without_nat_always_open(
    m: NatModel,
    addr: (Seq<char>, u16),
    from: (Seq<char>, u16),
)
    requires
        !m.firewalled,
        m.firewall == FIREWALL_OPEN,
    ensures
        m.added(addr, from).firewall == FIREWALL_OPEN,
        m.refreshed().firewall == FIREWALL_OPEN,
        m.updated().firewall == FIREWALL_OPEN,
{
}

/// With a NAT in front, an update never leaves the classification open.
pub proof fn law_update_rules_open_out_behind_a_nat(m: NatModel)
    requires
        m.firewalled,
    ensures
        m.updated().firewall != FIREWALL_OPEN,
{
}

/// An analysis that is done stays done, and it is done as soon as the NAT is classified as open or
/// consistent or enough samples came in.
pub proof fn law_analysis_settles(m: NatModel, addr: (Seq<char>, u16), from: (Seq<char>, u16))
    ensures
        m.settled ==> m.added(addr, from).settled,
        m.settled ==> m.refreshed().settled && m.updated().settled,
        !m.has_reported(from) ==> {
            let after = m.added(addr, from);
            after.settled == (m.settled || after.firewall == FIREWALL_OPEN || after.firewall
                == FIREWALL_CONSISTENT || after.sampled >= NAT_MIN_SAMPLES)
        },
{
}

/// Three nodes that see the same address make the NAT consistent, and that address is given out.
pub proof fn law_three_equal_reports_are_consistent(
    addr: (Seq<char>, u16),
    a: (Seq<char>, u16),
    b: (Seq<char>, u16),
    c: (Seq<char>, u16),
)
    requires
        a != b,
        a != c,
        b != c,
    ensures
        ({
            let m = NatModel::fresh(true).added(addr, a).added(addr, b).added(addr, c);
            &&& m.firewall == FIREWALL_CONSISTENT
            &&& m.addresses == Some(seq![addr])
            &&& m.settled
        }),
{
    reveal_with_fuel(first_of, 3);
    reveal_with_fuel(rise, 3);
    reveal_with_fuel(consistent_addresses, 3);
    let m1 = NatModel::fresh(true).added(addr, a);
    let one = |k: (Seq<char>, u16), n: int| seq![SampleModel { addr: k, hits: n }];
    let host = (addr.0, 0u16);
    assert(m1.full =~= one(addr, 1));
    assert(m1.hosts =~= one(host, 1));
    let m2 = m1.added(addr, b);
    assert(m2.full =~= one(addr, 2));
    assert(m2.hosts =~= one(host, 2));
    let m3 = m2.added(addr, c);
    assert(m3.full =~= one(addr, 3));
    assert(m3.hosts =~= one(host, 3));
    assert(m3.full.drop_last() =~= Seq::empty());
    assert(consistent_addresses(m3.full) =~= seq![addr]);
}

/// Three nodes that see one host under three ports make the NAT random, and the host is given out
/// without a port.
pub proof fn law_three_different_ports_are_random(
    host: Seq<char>,
    p: u16,
    q: u16,
    r: u16,
    a: (Seq<char>, u16),
    b: (Seq<char>, u16),
    c: (Seq<char>, u16),
)
    requires
        a != b,
        a != c,
        b != c,
        p != q,
        p != r,
        q != r,
    ensures
        ({
            let m = NatModel::fresh(true).added((host, p), a).added((host, q), b).added((host, r), c);
            &&& m.firewall == FIREWALL_RANDOM
            &&& m.addresses == Some(seq![(host, 0u16)])
        }),
{
    reveal_with_fuel(first_of, 4);
    reveal_with_fuel(rise, 3);
    let h = (host, 0u16);
    let s = |n: int| seq![SampleModel { addr: h, hits: n }];
    let f = |port: u16| SampleModel { addr: (host, port), hits: 1 };
    let m1 = NatModel::fresh(true).added((host, p), a);
    assert(m1.full =~= seq![f(p)]);
    assert(m1.hosts =~= s(1));
    let m2 = m1.added((host, q), b);
    assert(m1.full.drop_last() =~= Seq::empty());
    assert(m2.full =~= seq![f(p), f(q)]);
    assert(m2.hosts =~= s(2));
    let m3 = m2.added((host, r), c);
    assert(m2.full.drop_last() =~= seq![f(p)]);
    assert(m3.full =~= seq![f(p), f(q), f(r)]);
    assert(m3.hosts =~= s(3));
}

/// Under a consistent NAT every address that was reported twice is given out, and the two most
/// reported ones are, as far as there are two.
pub proof fn law_consistent_addresses_cover(full: Seq<SampleModel>, i: int)
    requires
        0 <= i < full.len(),
        full[i].hits >= 2 || i < 2,
    ensures
        consistent_addresses(full).contains(full[i].addr),
    decreases full.len(),
{
    let t = full.drop_last();
    let r = consistent_addresses(t);
    if i == full.len() - 1 {
        lemma_consistent_len(t);
        let c = consistent_addresses(full);
        assert(c[c.len() - 1] == full[i].addr);
    } else {
        law_consistent_addresses_cover(t, i);
        let k = choose|k: int| 0 <= k < r.len() && r[k] == t[i].addr;
        assert(consistent_addresses(full)[k] == full[i].addr);
    }
}

proof fn lemma_consistent_len(full: Seq<SampleModel>)
    ensures
        consistent_addresses(full).len() <= full.len(),
    decreases full.len(),
{
    if full.len() > 0 {
        lemma_consistent_len(full.drop_last());
    }
}

proof fn lemma_hit_bounds(s: Seq<SampleModel>)
    requires
        sound(s),
    ensures
        forall|i: int| 0 <= i < s.len() ==> (#[trigger] s[i]).hits <= total(s),
{
    assert forall|i: int| 0 <= i < s.len() implies (#[trigger] s[i]).hits <= total(s) by {
        lemma_hits_within_total(s, i);
    }
}

proof fn lemma_view_hits(v: Seq<Sample>)
    ensures
        forall|i: int| 0 <= i < v.len() ==> (#[trigger] v[i]).hits == samples_view(v)[i].hits,
{
}

/// An operation of an analysis.
pub enum NatOperation {
    /// See [`Nat::add`].
    Add {
        /// The address that is reported.
        addr: (Seq<char>, u16),
        /// The node that reports it.
        from: (Seq<char>, u16),
    },
    /// See [`Nat::mark_visited`].
    MarkVisited {
        /// The node.
        node: (Seq<char>, u16),
    },
    /// See [`Nat::freeze`].
    Freeze,
    /// See [`Nat::unfreeze`].
    Unfreeze,
    /// See [`Nat::update`].
    Update,
    /// See [`Nat::destroy`].
    Destroy,
}

impl NatModel {
    /// What an operation leads to.
    pub open spec fn then_do(self, op: NatOperation) -> Self {
        match op {
            NatOperation::Add { addr, from } => self.added(addr, from),
            NatOperation::MarkVisited { node } => if self.visited.contains_key(node) {
                self
            } else {
                NatModel { visited: self.visited.insert(node, 1), ..self }
            },
            NatOperation::Freeze => NatModel { frozen: true, ..self },
            NatOperation::Unfreeze => NatModel { frozen: false, ..self }.refreshed(),
            NatOperation::Update => self.updated(),
            NatOperation::Destroy => NatModel { frozen: true, settled: true, ..self },
        }
    }

    /// The samples speak for a consistent NAT.
    spec fn speaks_for_consistent(self) -> bool {
        &&& self.full.len() > 0
        &&& {
            ||| self.full[0].hits >= 3
            ||| self.full[0].hits >= 2 && self.hosts.len() > 1 && self.full.len() > 1
                && self.full[1].hits >= 2
        }
    }

    /// A consistent classification is one that the samples speak for.
    spec fn earned(self) -> bool {
        &&& self.firewalled
        &&& sound(self.hosts)
        &&& sound(self.full)
        &&& self.firewall == FIREWALL_CONSISTENT ==> self.speaks_for_consistent()
    }
}

/// What a run of operations leads to, from an analysis behind a NAT.
pub open spec fn analysed(ops: Seq<NatOperation>) -> NatModel
    decreases ops.len(),
{
    if ops.len() == 0 {
        NatModel::fresh(true)
    } else {
        analysed(ops.drop_last()).then_do(ops.last())
    }
}

/// A report lowers neither the most hits nor the second most.
proof fn lemma_top_hits_grow(s: Seq<SampleModel>, addr: (Seq<char>, u16))
    requires
        sound(s),
    ensures
        reported(s, addr).len() >= s.len(),
        s.len() > 0 ==> reported(s, addr)[0].hits >= s[0].hits,
        s.len() > 1 ==> reported(s, addr)[1].hits >= s[1].hits,
{
    lemma_first_of(s, addr);
    let i = first_of(s, addr);
    if i < s.len() {
        let hits = s[i].hits + 1;
        lemma_rise(s, i, hits);
        let p = rise(s, i, hits);
        let r = reported(s, addr);
        let x = SampleModel { addr, hits };
        assert forall|k: int| 0 <= k < r.len() implies #[trigger] r[k] == (if k < p {
            s[k]
        } else if k == p {
            x
        } else if k <= i {
            s[k - 1]
        } else {
            s[k]
        }) by {}
        assert(r.len() == s.len());
        if p < i {
            assert(s[p].hits < hits);
        }
        if s.len() > 1 {
            assert(s[0].hits >= s[1].hits);
        }
    }
}

/// Whatever an analysis does next, a consistent classification stays and stays earned.
proof fn lemma_earned_step(m: NatModel, op: NatOperation)
    requires
        m.earned(),
    ensures
        m.then_do(op).earned(),
        m.firewall == FIREWALL_CONSISTENT ==> m.then_do(op).firewall == FIREWALL_CONSISTENT,
{
    match op {
        NatOperation::Add { addr, from } => {
            if !m.has_reported(from) {
                law_report_keeps_samples_sound(m.hosts, (addr.0, 0));
                law_report_keeps_samples_sound(m.full, addr);
                lemma_top_hits_grow(m.full, addr);
            }
        },
        _ => {},
    }
}

proof fn lemma_earned(ops: Seq<NatOperation>)
    ensures
        analysed(ops).earned(),
    decreases ops.len(),
{
    if ops.len() > 0 {
        lemma_earned(ops.drop_last());
        lemma_earned_step(analysed(ops.drop_last()), ops.last());
    }
}

/// Once an analysis behind a NAT has classified it as consistent, nothing that it does afterwards
/// takes that back: no further report, whatever it says and whoever makes it, and nothing else.
pub proof fn law_consistent_is_never_taken_back(ops: Seq<NatOperation>, k: int)
    requires
        0 <= k <= ops.len(),
        analysed(ops.take(k)).firewall == FIREWALL_CONSISTENT,
    ensures
        analysed(ops).firewall == FIREWALL_CONSISTENT,
    decreases ops.len() - k,
{
    if k == ops.len() {
        assert(ops.take(k) =~= ops);
    } else {
        let next = ops.take(k + 1);
        assert(next.drop_last() =~= ops.take(k));
        lemma_earned(ops.take(k));
        lemma_earned_step(analysed(ops.take(k)), ops[k]);
        law_consistent_is_never_taken_back(ops, k + 1);
    }
}

} // verus!
