//! The verdict of an analysis behind a NAT, stated over the list of reports that it heard.

use vstd::prelude::*;

use super::{
    analysed, consistent_addresses, first_of, lemma_first_of, lemma_rise, ranked, reported, rise,
    NatModel, NatOperation, SampleModel,
};
use crate::hyperdht_messages::{
    FIREWALL_CONSISTENT, FIREWALL_OPEN, FIREWALL_RANDOM, FIREWALL_UNKNOWN,
};

verus! {

/// How often an address stands in a list of reports.
pub open spec fn times(r: Seq<(Seq<char>, u16)>, a: (Seq<char>, u16)) -> int
    decreases r.len(),
{
    if r.len() == 0 {
        0
    } else {
        times(r.drop_last(), a) + (if r.last() == a {
            1int
        } else {
            0
        })
    }
}

/// Where an address stands last in a list of reports, or -1.
pub open spec fn latest(r: Seq<(Seq<char>, u16)>, a: (Seq<char>, u16)) -> int
    decreases r.len(),
{
    if r.len() == 0 {
        -1
    } else if r.last() == a {
        r.len() - 1
    } else {
        latest(r.drop_last(), a)
    }
}

/// Whether `a` was reported more often than `b`, or as often and before `b` was for the last time.
pub open spec fn ahead(
    r: Seq<(Seq<char>, u16)>,
    a: (Seq<char>, u16),
    b: (Seq<char>, u16),
) -> bool {
    times(r, a) > times(r, b) || times(r, a) == times(r, b) && latest(r, a) < latest(r, b)
}

/// The reports with their hosts alone.
pub open spec fn host_reports(r: Seq<(Seq<char>, u16)>) -> Seq<(Seq<char>, u16)> {
    r.map_values(|x: (Seq<char>, u16)| (x.0, 0u16))
}

/// Whether an earlier operation than the `i`-th takes a report of the node in.
pub open spec fn heard_before(ops: Seq<NatOperation>, i: int, from: (Seq<char>, u16)) -> bool {
    exists|j: int|
        0 <= j < i && (#[trigger] ops[j] matches NatOperation::Add { addr: _, from: f } && f == from)
}

/// The reports that a run takes in, in their order: the first of each node.
pub open spec fn heard(ops: Seq<NatOperation>) -> Seq<(Seq<char>, u16)>
    decreases ops.len(),
{
    if ops.len() == 0 {
        Seq::empty()
    } else {
        let r = heard(ops.drop_last());
        match ops.last() {
            NatOperation::Add { addr, from } => if heard_before(ops, ops.len() - 1, from) {
                r
            } else {
                r.push(addr)
            },
            _ => r,
        }
    }
}

/// Some address was reported at least three times.
pub open spec fn three_agree(r: Seq<(Seq<char>, u16)>) -> bool {
    exists|a: (Seq<char>, u16)| #[trigger] times(r, a) >= 3
}

/// Two addresses were reported at least twice each.
pub open spec fn two_pairs_agree(r: Seq<(Seq<char>, u16)>) -> bool {
    exists|a: (Seq<char>, u16), b: (Seq<char>, u16)|
        a != b && #[trigger] times(r, a) >= 2 && #[trigger] times(r, b) >= 2
}

/// Two reports name different hosts.
pub open spec fn two_hosts(r: Seq<(Seq<char>, u16)>) -> bool {
    exists|i: int, j: int|
        0 <= i < r.len() && 0 <= j < r.len() && (#[trigger] r[i]).0 != (#[trigger] r[j]).0
}

/// No two reports name the same address.
pub open spec fn all_differ(r: Seq<(Seq<char>, u16)>) -> bool {
    forall|a: (Seq<char>, u16)| #[trigger] times(r, a) <= 1
}

/// Reports of a consistent NAT: three agree, or two pairs do and there is more than one host.
pub open spec fn look_consistent(r: Seq<(Seq<char>, u16)>) -> bool {
    three_agree(r) || two_pairs_agree(r) && two_hosts(r)
}

/// Reports of a random NAT: they do not look consistent, and none agree, or four of one host came
/// in, or five at all.
pub open spec fn look_random(r: Seq<(Seq<char>, u16)>) -> bool {
    !look_consistent(r) && (all_differ(r) || !two_hosts(r) && r.len() >= 4 || r.len() >= 5)
}

/// The samples hold exactly the reported addresses with how often each was reported, the one that
/// is ahead first.
pub open spec fn tallies(s: Seq<SampleModel>, r: Seq<(Seq<char>, u16)>) -> bool {
    &&& forall|i: int|
        0 <= i < s.len() ==> (#[trigger] s[i]).hits == times(r, s[i].addr) && s[i].hits >= 1
    &&& forall|a: (Seq<char>, u16)| #[trigger]
        times(r, a) > 0 ==> exists|i: int| 0 <= i < s.len() && (#[trigger] s[i]).addr == a
    &&& forall|i: int, j: int|
        0 <= i < j < s.len() ==> ahead(r, (#[trigger] s[i]).addr, (#[trigger] s[j]).addr)
}

proof fn lemma_times(r: Seq<(Seq<char>, u16)>, a: (Seq<char>, u16))
    ensures
        0 <= times(r, a) <= r.len(),
        -1 <= latest(r, a) < r.len(),
        times(r, a) > 0 <==> latest(r, a) >= 0,
        latest(r, a) >= 0 ==> r[latest(r, a)] == a,
        forall|i: int| 0 <= i < r.len() && #[trigger] r[i] == a ==> i <= latest(r, a),
    decreases r.len(),
{
    if r.len() > 0 {
        lemma_times(r.drop_last(), a);
        assert forall|i: int| 0 <= i < r.len() && #[trigger] r[i] == a implies i <= latest(r, a) by {
            if i < r.len() - 1 {
                assert(r.drop_last()[i] == a);
            }
        }
    }
}

proof fn lemma_push(r: Seq<(Seq<char>, u16)>, x: (Seq<char>, u16), a: (Seq<char>, u16))
    ensures
        times(r.push(x), a) == times(r, a) + (if x == a {
            1int
        } else {
            0
        }),
        latest(r.push(x), a) == (if x == a {
            r.len() as int
        } else {
            latest(r, a)
        }),
{
    assert(r.push(x).drop_last() =~= r);
}

/// Taking a report in keeps the samples a tally of what was reported.
pub proof fn law_samples_tally_the_reports(
    s: Seq<SampleModel>,
    r: Seq<(Seq<char>, u16)>,
    x: (Seq<char>, u16),
)
    requires
        tallies(s, r),
    ensures
        tallies(reported(s, x), r.push(x)),
{
    let q = r.push(x);
    let t = reported(s, x);
    lemma_first_of(s, x);
    let i = first_of(s, x);
    assert forall|a: (Seq<char>, u16)| true implies #[trigger] times(q, a) == times(r, a) + (if x
        == a {
        1int
    } else {
        0
    }) && latest(q, a) == (if x == a {
        r.len() as int
    } else {
        latest(r, a)
    }) && latest(r, a) < r.len() && times(r, a) >= 0 by {
        lemma_push(r, x, a);
        lemma_times(r, a);
    }
    if i < s.len() {
        let hits = s[i].hits + 1;
        lemma_rise(s, i, hits);
        let p = rise(s, i, hits);
        let y = SampleModel { addr: x, hits };
        assert forall|k: int| 0 <= k < t.len() implies #[trigger] t[k] == (if k < p {
            s[k]
        } else if k == p {
            y
        } else if k <= i {
            s[k - 1]
        } else {
            s[k]
        }) by {}
        assert forall|k: int| 0 <= k < s.len() && k != i implies (#[trigger] s[k]).addr != x by {
            if k < i {
                assert(ahead(r, s[k].addr, s[i].addr));
            } else {
                assert(ahead(r, s[i].addr, s[k].addr));
            }
        }
        assert forall|k: int| 0 <= k < t.len() implies (#[trigger] t[k]).hits == times(q, t[k].addr)
            && t[k].hits >= 1 by {
            assert(times(q, t[k].addr) >= 0);
        }
        assert forall|a: (Seq<char>, u16)| #[trigger] times(q, a) > 0 implies exists|k: int|
            0 <= k < t.len() && (#[trigger] t[k]).addr == a by {
            if a == x {
                assert(t[p].addr == a);
            } else {
                assert(times(r, a) > 0);
                let k = choose|k: int| 0 <= k < s.len() && (#[trigger] s[k]).addr == a;
                let l = if k < p {
                    k
                } else if k < i {
                    k + 1
                } else {
                    k
                };
                assert(t[l] == s[k]);
            }
        }
        assert forall|k: int, l: int| 0 <= k < l < t.len() implies ahead(
            q,
            (#[trigger] t[k]).addr,
            (#[trigger] t[l]).addr,
        ) by {
            assert(times(q, t[k].addr) >= 0 && times(q, t[l].addr) >= 0);
            if l == p {
                if k < p - 1 {
                    assert(ahead(r, s[k].addr, s[p - 1].addr));
                }
                assert(s[k].hits >= hits);
            } else if k == p {
                if l <= i {
                    assert(s[l - 1].hits < hits);
                } else {
                    assert(ahead(r, s[i].addr, s[l].addr));
                }
            } else {
                let k2 = if k < p {
                    k
                } else if k <= i {
                    k - 1
                } else {
                    k
                };
                let l2 = if l < p {
                    l
                } else if l <= i {
                    l - 1
                } else {
                    l
                };
                assert(ahead(r, s[k2].addr, s[l2].addr));
            }
        }
    } else {
        assert(times(r, x) == 0) by {
            lemma_times(r, x);
            if times(r, x) > 0 {
                let k = choose|k: int| 0 <= k < s.len() && (#[trigger] s[k]).addr == x;
            }
        }
        assert forall|k: int| 0 <= k < t.len() implies (#[trigger] t[k]).hits == times(q, t[k].addr)
            && t[k].hits >= 1 by {
            assert(times(q, t[k].addr) >= 0);
        }
        assert forall|a: (Seq<char>, u16)| #[trigger] times(q, a) > 0 implies exists|k: int|
            0 <= k < t.len() && (#[trigger] t[k]).addr == a by {
            if a == x {
                assert(t[s.len() as int].addr == a);
            } else {
                assert(times(r, a) > 0);
                let k = choose|k: int| 0 <= k < s.len() && (#[trigger] s[k]).addr == a;
                assert(t[k] == s[k]);
            }
        }
        assert forall|k: int, l: int| 0 <= k < l < t.len() implies ahead(
            q,
            (#[trigger] t[k]).addr,
            (#[trigger] t[l]).addr,
        ) by {
            assert(times(q, t[k].addr) >= 0 && times(q, t[l].addr) >= 0);
            if l < s.len() {
                assert(ahead(r, s[k].addr, s[l].addr));
            } else {
                assert(s[k].hits >= 1);
            }
        }
    }
}

proof fn lemma_tally_facts(s: Seq<SampleModel>, r: Seq<(Seq<char>, u16)>)
    requires
        tallies(s, r),
        r.len() > 0,
    ensures
        s.len() > 0,
        s[0].hits >= 3 <==> three_agree(r),
        s[0].hits == 1 <==> all_differ(r),
        s.len() > 1 && s[1].hits >= 2 <==> two_pairs_agree(r),
{
    let z = r.last();
    lemma_times(r, z);
    assert(times(r, z) > 0) by {
        assert(r[r.len() - 1] == z);
    }
    let k = choose|k: int| 0 <= k < s.len() && (#[trigger] s[k]).addr == z;
    assert forall|i: int| 0 <= i < s.len() implies (#[trigger] s[i]).hits <= s[0].hits by {
        if i > 0 {
            assert(ahead(r, s[0].addr, s[i].addr));
        }
    }
    if three_agree(r) {
        let a = choose|a: (Seq<char>, u16)| #[trigger] times(r, a) >= 3;
        let i = choose|i: int| 0 <= i < s.len() && (#[trigger] s[i]).addr == a;
        assert(s[i].hits <= s[0].hits);
    }
    if s[0].hits >= 3 {
        assert(times(r, s[0].addr) >= 3);
    }
    if s[0].hits == 1 {
        assert forall|a: (Seq<char>, u16)| #[trigger] times(r, a) <= 1 by {
            if times(r, a) > 0 {
                let i = choose|i: int| 0 <= i < s.len() && (#[trigger] s[i]).addr == a;
                assert(s[i].hits <= s[0].hits);
            }
        }
    }
    if all_differ(r) {
        assert(times(r, s[0].addr) <= 1);
    }
    if s.len() > 1 && s[1].hits >= 2 {
        assert(ahead(r, s[0].addr, s[1].addr));
        assert(times(r, s[0].addr) >= 2 && times(r, s[1].addr) >= 2);
    }
    if two_pairs_agree(r) {
        let (a, b) = choose|a: (Seq<char>, u16), b: (Seq<char>, u16)|
            a != b && #[trigger] times(r, a) >= 2 && #[trigger] times(r, b) >= 2;
        let i = choose|i: int| 0 <= i < s.len() && (#[trigger] s[i]).addr == a;
        let j = choose|j: int| 0 <= j < s.len() && (#[trigger] s[j]).addr == b;
        assert(i != j);
        let l = if i > j {
            i
        } else {
            j
        };
        if l > 1 {
            assert(ahead(r, s[1].addr, s[l].addr));
        }
    }
}

proof fn lemma_host_facts(s: Seq<SampleModel>, r: Seq<(Seq<char>, u16)>)
    requires
        tallies(s, host_reports(r)),
        r.len() > 0,
    ensures
        s.len() >= 1,
        s.len() > 1 <==> two_hosts(r),
{
    let h = host_reports(r);
    lemma_tally_facts(s, h);
    if s.len() > 1 {
        let a = s[0].addr;
        let b = s[1].addr;
        assert(ahead(h, a, b));
        lemma_times(h, a);
        lemma_times(h, b);
        let i = latest(h, a);
        let j = latest(h, b);
        assert(h[i] == a && h[j] == b);
        assert(a != b);
        assert(r[i].0 != r[j].0);
    }
    if two_hosts(r) {
        let (i, j) = choose|i: int, j: int|
            0 <= i < r.len() && 0 <= j < r.len() && (#[trigger] r[i]).0 != (#[trigger] r[j]).0;
        lemma_times(h, h[i]);
        lemma_times(h, h[j]);
        assert(latest(h, h[i]) >= i && latest(h, h[j]) >= j);
        let k = choose|k: int| 0 <= k < s.len() && (#[trigger] s[k]).addr == h[i];
        let l = choose|l: int| 0 <= l < s.len() && (#[trigger] s[l]).addr == h[j];
        assert(k != l);
    }
}

/// What more reports cannot undo.
proof fn lemma_grows(r: Seq<(Seq<char>, u16)>, x: (Seq<char>, u16))
    ensures
        look_consistent(r) ==> look_consistent(r.push(x)),
{
    let q = r.push(x);
    if three_agree(r) {
        let a = choose|a: (Seq<char>, u16)| #[trigger] times(r, a) >= 3;
        lemma_push(r, x, a);
        assert(times(q, a) >= 3);
    } else if two_pairs_agree(r) && two_hosts(r) {
        let (a, b) = choose|a: (Seq<char>, u16), b: (Seq<char>, u16)|
            a != b && #[trigger] times(r, a) >= 2 && #[trigger] times(r, b) >= 2;
        lemma_push(r, x, a);
        lemma_push(r, x, b);
        assert(times(q, a) >= 2 && times(q, b) >= 2);
        let (i, j) = choose|i: int, j: int|
            0 <= i < r.len() && 0 <= j < r.len() && (#[trigger] r[i]).0 != (#[trigger] r[j]).0;
        assert(q[i].0 != q[j].0);
    }
}

/// What holds of an analysis behind a NAT that heard `r`.
spec fn fits_reports(m: NatModel, r: Seq<(Seq<char>, u16)>) -> bool {
    &&& m.firewalled
    &&& m.sampled == r.len()
    &&& tallies(m.full, r)
    &&& tallies(m.hosts, host_reports(r))
    &&& m.firewall == FIREWALL_UNKNOWN || m.firewall == FIREWALL_RANDOM || m.firewall
        == FIREWALL_CONSISTENT
    &&& r.len() < 3 ==> m.firewall == FIREWALL_UNKNOWN
    &&& m.firewall == FIREWALL_CONSISTENT ==> look_consistent(r)
    &&& !m.frozen ==> up_to_date(m, r)
}

/// Classification and addresses are those that the reports ask for.
spec fn up_to_date(m: NatModel, r: Seq<(Seq<char>, u16)>) -> bool {
    &&& r.len() >= 3 && look_consistent(r) ==> m.firewall == FIREWALL_CONSISTENT
    &&& r.len() >= 3 && look_random(r) ==> m.firewall == FIREWALL_RANDOM
    &&& m.addresses == match m.firewall {
        FIREWALL_RANDOM => Some(seq![m.hosts[0].addr]),
        FIREWALL_CONSISTENT => Some(consistent_addresses(m.full)),
        _ => None,
    }
}

proof fn lemma_refreshed(m: NatModel, r: Seq<(Seq<char>, u16)>)
    requires
        m.firewalled,
        m.sampled == r.len(),
        tallies(m.full, r),
        tallies(m.hosts, host_reports(r)),
        m.firewall == FIREWALL_UNKNOWN || m.firewall == FIREWALL_RANDOM || m.firewall
            == FIREWALL_CONSISTENT,
        r.len() < 3 ==> m.firewall == FIREWALL_UNKNOWN,
        m.firewall == FIREWALL_CONSISTENT ==> look_consistent(r),
    ensures
        fits_reports(m.refreshed(), r),
        fits_reports(m.updated(), r),
        up_to_date(m.refreshed(), r),
        r.len() >= 3 && !look_consistent(r) && !look_random(r) ==> m.refreshed().firewall
            == m.firewall,
        r.len() < 3 ==> m.refreshed().firewall == m.firewall,
        m.updated() == m.refreshed(),
{
    if r.len() > 0 {
        lemma_tally_facts(m.full, r);
        lemma_host_facts(m.hosts, r);
    }
}

/// The classification of reports that speak for nothing yet, where the analysis was never frozen.
spec fn undecided_fits(m: NatModel, r: Seq<(Seq<char>, u16)>) -> bool {
    r.len() >= 3 && !look_consistent(r) && !look_random(r) ==> m.firewall == (if r.len() == 4
        && all_differ(r.take(3)) {
        FIREWALL_RANDOM
    } else {
        FIREWALL_UNKNOWN
    })
}

/// Whether nothing in a run freezes or ends the analysis.
pub open spec fn never_frozen(ops: Seq<NatOperation>) -> bool {
    forall|i: int|
        0 <= i < ops.len() ==> !(#[trigger] ops[i] is Freeze) && !(ops[i] is Destroy)
}

proof fn lemma_add(m: NatModel, r: Seq<(Seq<char>, u16)>, x: (Seq<char>, u16), from: (Seq<char>, u16))
    requires
        fits_reports(m, r),
        !m.has_reported(from),
        r.len() < u32::MAX,
    ensures
        fits_reports(m.added(x, from), r.push(x)),
        !m.frozen && undecided_fits(m, r) ==> undecided_fits(m.added(x, from), r.push(x)),
{
    let q = r.push(x);
    law_samples_tally_the_reports(m.full, r, x);
    law_samples_tally_the_reports(m.hosts, host_reports(r), (x.0, 0));
    assert(host_reports(q) =~= host_reports(r).push((x.0, 0u16)));
    lemma_grows(r, x);
    let n = NatModel {
        visited: m.visited.insert(from, 2),
        hosts: reported(m.hosts, (x.0, 0)),
        full: reported(m.full, x),
        sampled: (m.sampled + 1) as u32,
        ..m
    };
    lemma_refreshed(n, q);
    if q.len() == 4 {
        assert(q.take(3) =~= r);
    }
    if r.len() == 3 {
        assert(r.take(3) =~= r);
    }
}

proof fn lemma_run(ops: Seq<NatOperation>)
    requires
        heard(ops).len() <= u32::MAX,
    ensures
        fits_reports(analysed(ops), heard(ops)),
        forall|from: (Seq<char>, u16)| #[trigger]
            analysed(ops).has_reported(from) <==> heard_before(ops, ops.len() as int, from),
        never_frozen(ops) ==> !analysed(ops).frozen && undecided_fits(analysed(ops), heard(ops)),
    decreases ops.len(),
{
    if ops.len() == 0 {
        let m = analysed(ops);
        assert(host_reports(heard(ops)) =~= Seq::empty());
    } else {
        let t = ops.drop_last();
        let n = t.len() as int;
        lemma_run(t);
        let m = analysed(t);
        let r = heard(t);
        assert forall|from: (Seq<char>, u16)| heard_before(ops, n, from) <==> heard_before(
            t,
            n,
            from,
        ) by {
            if heard_before(t, n, from) {
                let j = choose|j: int|
                    0 <= j < n && (#[trigger] t[j] matches NatOperation::Add { addr: _, from: f }
                        && f == from);
                assert(ops[j] == t[j]);
            }
            if heard_before(ops, n, from) {
                let j = choose|j: int|
                    0 <= j < n && (#[trigger] ops[j] matches NatOperation::Add { addr: _, from: f }
                        && f == from);
                assert(ops[j] == t[j]);
            }
        }
        let after = analysed(ops);
        let op = ops.last();
        assert forall|from: (Seq<char>, u16)| #[trigger] after.has_reported(from)
            <==> heard_before(ops, ops.len() as int, from) by {
            assert(m.has_reported(from) <==> heard_before(t, n, from));
            if heard_before(ops, n, from) {
                let j = choose|j: int|
                    0 <= j < n && (#[trigger] ops[j] matches NatOperation::Add { addr: _, from: f }
                        && f == from);
                assert(ops[j] matches NatOperation::Add { addr: _, from: f } && f == from);
            }
            if heard_before(ops, ops.len() as int, from) && !heard_before(ops, n, from) {
                let j = choose|j: int|
                    0 <= j < ops.len() && (#[trigger] ops[j] matches NatOperation::Add {
                        addr: _,
                        from: f,
                    } && f == from);
                assert(j == n);
            }
            assert(ops[n] == op);
        }
        match op {
            NatOperation::Add { addr, from } => {
                assert(m.has_reported(from) <==> heard_before(ops, n, from));
                if !m.has_reported(from) {
                    lemma_add(m, r, addr, from);
                }
            },
            NatOperation::Unfreeze => {
                lemma_refreshed(NatModel { frozen: false, ..m }, r);
            },
            NatOperation::Update => {
                lemma_refreshed(m, r);
            },
            _ => {},
        }
        if never_frozen(ops) {
            assert(!(ops[n] is Freeze) && !(ops[n] is Destroy));
            assert forall|i: int| 0 <= i < t.len() implies !(#[trigger] t[i] is Freeze) && !(
            t[i] is Destroy) by {
                assert(t[i] == ops[i]);
            }
        }
    }
}

/// The classification behind a NAT follows from how often each address and each host was reported,
/// in whatever order. As long as the analysis is not frozen and three reports came in: it is
/// consistent exactly where some address was reported three times, or two addresses were reported
/// twice and more than one host was reported. Else it is random where all reports differ, where
/// four of one host came in, or where five came in at all. Before three reports came in nothing is
/// known. A node is heard once.
pub proof fn law_verdict_follows_from_the_reports(ops: Seq<NatOperation>)
    requires
        heard(ops).len() <= u32::MAX,
    ensures
        ({
            let m = analysed(ops);
            let r = heard(ops);
            &&& m.sampled == r.len()
            &&& m.firewall == FIREWALL_CONSISTENT ==> look_consistent(r)
            &&& m.firewall != FIREWALL_OPEN
            &&& r.len() < 3 ==> m.firewall == FIREWALL_UNKNOWN
            &&& !m.frozen && r.len() >= 3 ==> {
                &&& m.firewall == FIREWALL_CONSISTENT <==> look_consistent(r)
                &&& look_random(r) ==> m.firewall == FIREWALL_RANDOM
                &&& !look_consistent(r) && !look_random(r) ==> m.firewall == FIREWALL_UNKNOWN
                    || m.firewall == FIREWALL_RANDOM
            }
        }),
{
    lemma_run(ops);
}

/// Where the analysis was never frozen, three or four reports that speak for nothing yet leave the
/// NAT unknown, unless the first three of the four all differed and made it random already.
pub proof fn law_undecided_reports_leave_the_verdict(ops: Seq<NatOperation>)
    requires
        never_frozen(ops),
        3 <= heard(ops).len() <= u32::MAX,
        !look_consistent(heard(ops)),
        !look_random(heard(ops)),
    ensures
        analysed(ops).firewall == (if heard(ops).len() == 4 && all_differ(heard(ops).take(3)) {
            FIREWALL_RANDOM
        } else {
            FIREWALL_UNKNOWN
        }),
{
    lemma_run(ops);
}

/// Whether an address is among the first two of those that were reported.
pub open spec fn leads(r: Seq<(Seq<char>, u16)>, a: (Seq<char>, u16)) -> bool {
    !exists|b: (Seq<char>, u16), c: (Seq<char>, u16)|
        b != c && times(r, b) > 0 && times(r, c) > 0 && #[trigger] ahead(r, b, a)
            && #[trigger] ahead(r, c, a)
}

/// The addresses to give out follow from the reports, as long as the analysis is not frozen: none
/// while nothing is known, the host that is ahead without a port where the NAT is random, and where
/// it is consistent every address that was reported twice or is among the first two, in the order
/// in which they are ahead of each other, and no other.
pub proof fn law_addresses_follow_from_the_reports(ops: Seq<NatOperation>)
    requires
        heard(ops).len() <= u32::MAX,
        !analysed(ops).frozen,
    ensures
        ({
            let m = analysed(ops);
            let r = heard(ops);
            &&& m.firewall == FIREWALL_UNKNOWN ==> m.addresses is None
            &&& m.firewall == FIREWALL_RANDOM ==> (m.addresses matches Some(v) && v.len() == 1
                && v[0].1 == 0 && times(host_reports(r), v[0]) > 0 && forall|h: (Seq<char>, u16)|
                h != v[0] && #[trigger] times(host_reports(r), h) > 0 ==> ahead(
                    host_reports(r),
                    v[0],
                    h,
                ))
            &&& m.firewall == FIREWALL_CONSISTENT ==> (m.addresses matches Some(v) && (forall|
                a: (Seq<char>, u16),
            | #[trigger]
                v.contains(a) <==> times(r, a) >= 2 || times(r, a) == 1 && leads(r, a)) && forall|
                i: int,
                j: int,
            |
                0 <= i < j < v.len() ==> ahead(r, #[trigger] v[i], #[trigger] v[j]))
        }),
{
    lemma_run(ops);
    let m = analysed(ops);
    let r = heard(ops);
    if m.firewall == FIREWALL_RANDOM {
        let h = host_reports(r);
        lemma_host_facts(m.hosts, r);
        let a = m.hosts[0].addr;
        lemma_times(h, a);
        assert(h[latest(h, a)] == a);
        assert forall|x: (Seq<char>, u16)| x != a && #[trigger] times(h, x) > 0 implies ahead(
            h,
            a,
            x,
        ) by {
            let i = choose|i: int| 0 <= i < m.hosts.len() && (#[trigger] m.hosts[i]).addr == x;
            assert(ahead(h, m.hosts[0].addr, m.hosts[i].addr));
        }
    }
    if m.firewall == FIREWALL_CONSISTENT {
        lemma_given_out(m.full, r);
    }
}

proof fn lemma_given_out(s: Seq<SampleModel>, r: Seq<(Seq<char>, u16)>)
    requires
        tallies(s, r),
    ensures
        ({
            let v = consistent_addresses(s);
            &&& forall|a: (Seq<char>, u16)| #[trigger]
                v.contains(a) <==> times(r, a) >= 2 || times(r, a) == 1 && leads(r, a)
            &&& forall|i: int, j: int|
                0 <= i < j < v.len() ==> ahead(r, #[trigger] v[i], #[trigger] v[j])
        }),
{
    let v = consistent_addresses(s);
    assert forall|i: int, j: int| 0 <= i <= j < s.len() implies (#[trigger] s[i]).hits >= (
    #[trigger] s[j]).hits by {
        if i < j {
            assert(ahead(r, s[i].addr, s[j].addr));
        }
    }
    lemma_prefix(s);
    let n = v.len() as int;
    assert forall|i: int, j: int| 0 <= i < j < v.len() implies ahead(
        r,
        #[trigger] v[i],
        #[trigger] v[j],
    ) by {
        assert(ahead(r, s[i].addr, s[j].addr));
    }
    assert forall|a: (Seq<char>, u16)| #[trigger] v.contains(a) <==> times(r, a) >= 2 || times(r, a)
        == 1 && leads(r, a) by {
        lemma_times(r, a);
        if v.contains(a) {
            let i = choose|i: int| 0 <= i < v.len() && v[i] == a;
            assert(s[i].addr == a);
            assert(s[i].hits == times(r, a));
            if s[i].hits < 2 {
                assert(i < 2);
                lemma_leads(s, r, i);
            }
        }
        if times(r, a) >= 1 {
            let i = choose|i: int| 0 <= i < s.len() && (#[trigger] s[i]).addr == a;
            assert(s[i].hits == times(r, a));
            lemma_leads(s, r, i);
            if times(r, a) >= 2 || leads(r, a) {
                assert(i < n);
                assert(v[i] == a);
            }
        }
    }
}

/// The addresses given out are the first ones: those with two hits, and the first two.
proof fn lemma_prefix(s: Seq<SampleModel>)
    requires
        ranked(s),
    ensures
        ({
            let v = consistent_addresses(s);
            &&& v.len() <= s.len()
            &&& forall|i: int| 0 <= i < v.len() ==> #[trigger] v[i] == s[i].addr
            &&& forall|i: int|
                0 <= i < s.len() ==> (i < v.len() <==> i < 2 || (#[trigger] s[i]).hits >= 2)
        }),
    decreases s.len(),
{
    if s.len() > 0 {
        let t = s.drop_last();
        let n = t.len() as int;
        assert(forall|i: int| 0 <= i < n ==> #[trigger] t[i] == s[i]);
        lemma_prefix(t);
        let u = consistent_addresses(t);
        if n > 0 {
            assert(t[n - 1].hits >= s[n].hits);
            assert(n - 1 < u.len() <==> n - 1 < 2 || t[n - 1].hits >= 2);
        }
        if n > 1 {
            assert(t[1].hits == s[1].hits);
            assert(1 < u.len());
        }
        let v = consistent_addresses(s);
        assert forall|i: int| 0 <= i < s.len() implies (i < v.len() <==> i < 2 || (
        #[trigger] s[i]).hits >= 2) by {
            if i < n {
                assert(i < u.len() <==> i < 2 || t[i].hits >= 2);
            }
        }
    }
}

proof fn lemma_leads(s: Seq<SampleModel>, r: Seq<(Seq<char>, u16)>, i: int)
    requires
        tallies(s, r),
        0 <= i < s.len(),
    ensures
        leads(r, s[i].addr) <==> i < 2,
{
    let a = s[i].addr;
    if i >= 2 {
        assert(ahead(r, s[0].addr, a) && ahead(r, s[1].addr, a));
        assert(ahead(r, s[0].addr, s[1].addr));
        assert(s[0].hits == times(r, s[0].addr) && s[1].hits == times(r, s[1].addr));
        assert(s[0].addr != s[1].addr);
    } else if !leads(r, a) {
        let (b, c) = choose|b: (Seq<char>, u16), c: (Seq<char>, u16)|
            b != c && times(r, b) > 0 && times(r, c) > 0 && #[trigger] ahead(r, b, a)
                && #[trigger] ahead(r, c, a);
        let j = choose|j: int| 0 <= j < s.len() && (#[trigger] s[j]).addr == b;
        let k = choose|k: int| 0 <= k < s.len() && (#[trigger] s[k]).addr == c;
        if j > i {
            assert(ahead(r, a, b));
        }
        if k > i {
            assert(ahead(r, a, c));
        }
        assert(j < i && k < i);
    }
}

/// The verdict and the addresses follow from the reports, the verdict before and whether there is a
/// NAT in front: not from whether the analysis is frozen or done, nor from who reported.
pub proof fn law_nothing_else_decides(a: NatModel, b: NatModel)
    requires
        a.full == b.full,
        a.hosts == b.hosts,
        a.sampled == b.sampled,
        a.firewalled == b.firewalled,
        a.firewall == b.firewall,
    ensures
        a.classified() == b.classified(),
        a.addresses == b.addresses ==> a.addressed() == b.addressed(),
        a.updated().firewall == b.updated().firewall,
        a.refreshed().firewall == a.classified(),
        a.firewall != 1 ==> a.addressed() == b.addressed() || (a.firewall != 2 && a.firewall != 0
            && (a.firewall != 3 || a.hosts.len() == 0)),
        a.refreshed().full == a.full && a.refreshed().hosts == a.hosts && a.refreshed().sampled
            == a.sampled && a.refreshed().visited == a.visited && a.refreshed().frozen == a.frozen
            && a.refreshed().settled == a.settled && a.refreshed().firewalled == a.firewalled,
{
}

/// A node that was not heard before is heard now, and its sample is counted. With four samples the
/// analysis is done, and earlier where the NAT is open or consistent.
pub proof fn law_report_is_taken_in(
    m: NatModel,
    addr: (Seq<char>, u16),
    from: (Seq<char>, u16),
)
    requires
        m.sampled < u32::MAX,
        !(m.visited.contains_key(from) && m.visited[from] == 2),
    ensures
        ({
            let after = m.added(addr, from);
            &&& after.sampled == m.sampled + 1
            &&& after.visited == m.visited.insert(from, 2)
            &&& after.frozen == m.frozen && after.firewalled == m.firewalled
            &&& after.settled <==> m.settled || after.firewall == 1 || after.firewall == 2
                || m.sampled >= 3
            &&& m.frozen ==> after.firewall == m.firewall && after.addresses == m.addresses
            &&& m.firewalled && m.sampled < 2 ==> after.firewall == m.firewall && after.addresses
                == m.addresses
        }),
{
}

/// A new analysis knows nothing: of a NAT in front it waits for reports, without one it is open and
/// done.
pub proof fn law_new_analysis(firewalled: bool)
    ensures
        ({
            let m = NatModel::fresh(firewalled);
            &&& m.hosts.len() == 0 && m.full.len() == 0 && m.sampled == 0 && m.visited.dom().len()
                == 0
            &&& m.firewalled == firewalled && !m.frozen && m.addresses is None
            &&& m.firewall == if firewalled {
                0u64
            } else {
                1
            }
            &&& m.settled == !firewalled
        }),
{
}

/// A report of an address that has no sample yet adds one at the end. Else the first sample of the
/// address, at `i`, gains a hit and moves to `j`: before all those directly ahead of it that had no
/// more hits than it, and behind one that had more. The others keep their order and their hits,
/// whatever the samples were.
pub proof fn law_report_moves_one_sample(
    s: Seq<SampleModel>,
    addr: (Seq<char>, u16),
    i: int,
    j: int,
)
    ensures
        (forall|k: int| 0 <= k < s.len() ==> (#[trigger] s[k]).addr != addr) ==> reported(s, addr)
            == s.push(SampleModel { addr, hits: 1 }),
        0 <= j <= i < s.len() && s[i].addr == addr && (forall|k: int|
            0 <= k < i ==> (#[trigger] s[k]).addr != addr) && (forall|k: int|
            j <= k < i ==> (#[trigger] s[k]).hits <= s[i].hits) && (j == 0 || s[j - 1].hits
            > s[i].hits) ==> reported(s, addr) == s.remove(i).insert(
            j,
            SampleModel { addr, hits: s[i].hits + 1 },
        ),
{
    lemma_first_of(s, addr);
    let f = first_of(s, addr);
    if 0 <= j <= i < s.len() && s[i].addr == addr && (forall|k: int|
        0 <= k < i ==> (#[trigger] s[k]).addr != addr) && (forall|k: int|
        j <= k < i ==> (#[trigger] s[k]).hits <= s[i].hits) && (j == 0 || s[j - 1].hits
        > s[i].hits) {
        assert(f == i) by {
            if f < i {
                assert(s[f].addr == addr);
            }
        }
        lemma_rise(s, i, s[i].hits + 1);
        let p = rise(s, i, s[i].hits + 1);
        if p < j {
            assert(s[j - 1].hits < s[i].hits + 1);
        } else if j < p {
            assert(s[p - 1].hits <= s[i].hits);
        }
    }
}

} // verus!
