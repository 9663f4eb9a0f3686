//! Which texts stand for which IPv6 address, and which of them is written.

use vstd::prelude::*;

use super::{
    gap, group_text, groups_text, hex_value, ipv6_bytes, ipv6_groups, is_group, is_mapped, joined,
    lemma_colon_is, lemma_dotted_is_no_group, lemma_gap_is, lemma_group_ascii, lemma_undotted,
    lemma_zeros_at, list_groups, longest_zeros, some_groups, zero_groups, zeros_at,
};
use crate::ip::{dotted, lemma_dotted_ascii};
use crate::outside::{all_hex, hex_digit};

verus! {

// ── Reading ──────────────────────────────────────────────────────────────────

/// Texts with colons between them.
pub open spec fn spelled(parts: Seq<Seq<u8>>) -> Seq<u8>
    decreases parts.len(),
{
    if parts.len() == 0 {
        Seq::empty()
    } else if parts.len() == 1 {
        parts[0]
    } else {
        parts[0] + seq![0x3au8] + spelled(parts.skip(1))
    }
}

/// Whether each part is one to four hexadecimal digits.
pub open spec fn all_groups(parts: Seq<Seq<u8>>) -> bool {
    forall|i: int|
        0 <= i < parts.len() ==> 1 <= (#[trigger] parts[i]).len() <= 4 && all_hex(parts[i])
}

/// The numbers of the parts.
pub open spec fn values(parts: Seq<Seq<u8>>) -> Seq<u16> {
    parts.map_values(|p: Seq<u8>| hex_value(p) as u16)
}

/// Texts with colons between them, and an IPv4 address in dotted decimal form behind them.
pub open spec fn ended(parts: Seq<Seq<u8>>, o: Seq<u8>) -> Seq<u8> {
    spelled(parts.push(dotted(o)))
}

/// The two groups that an IPv4 address takes.
pub open spec fn embedded(o: Seq<u8>) -> Seq<u16> {
    seq![(0x100 * o[0] + o[1]) as u16, (0x100 * o[2] + o[3]) as u16]
}

/// The number of a group: its digits in base sixteen, in either case.
pub proof fn law_digits_of_a_group(b: Seq<u8>)
    requires
        all_hex(b),
    ensures
        b.len() == 1 ==> hex_value(b) == hex_digit(b[0])->0,
        b.len() == 2 ==> hex_value(b) == 16 * hex_digit(b[0])->0 + hex_digit(b[1])->0,
        b.len() == 3 ==> hex_value(b) == 256 * hex_digit(b[0])->0 + 16 * hex_digit(b[1])->0
            + hex_digit(b[2])->0,
        b.len() == 4 ==> hex_value(b) == 4096 * hex_digit(b[0])->0 + 256 * hex_digit(b[1])->0 + 16
            * hex_digit(b[2])->0 + hex_digit(b[3])->0,
        1 <= b.len() <= 4 ==> 0 <= hex_value(b) < 0x1_0000,
{
    reveal_with_fuel(hex_value, 5);
    assert(forall|i: int| 0 <= i < b.len() ==> 0 <= hex_digit(#[trigger] b[i])->0 < 16);
}

/// Whether a text can stand beside a double colon: it holds none and touches it with no colon.
spec fn no_gap(x: Seq<u8>) -> bool {
    &&& x.len() > 0 ==> x[0] != 0x3a && x.last() != 0x3a
    &&& forall|k: int| 0 <= k && k + 1 < x.len() ==> !(#[trigger] x[k] == 0x3a && x[k + 1] == 0x3a)
}

/// Whether a part is not empty and holds no colon.
spec fn plain(p: Seq<u8>) -> bool {
    p.len() > 0 && forall|k: int| 0 <= k < p.len() ==> (#[trigger] p[k]) != 0x3a
}

proof fn lemma_plain_group(p: Seq<u8>)
    requires
        1 <= p.len() <= 4,
        all_hex(p),
    ensures
        plain(p),
        is_group(p),
{
    assert forall|k: int| 0 <= k < p.len() implies (#[trigger] p[k]) != 0x3a by {
        assert(hex_digit(p[k]) is Some);
    }
}

proof fn lemma_plain_dotted(o: Seq<u8>)
    ensures
        plain(dotted(o)),
{
    lemma_dotted_ascii(o);
}

proof fn lemma_spelled_shape(parts: Seq<Seq<u8>>)
    requires
        forall|i: int| 0 <= i < parts.len() ==> plain(#[trigger] parts[i]),
    ensures
        no_gap(spelled(parts)),
        parts.len() > 0 ==> spelled(parts).len() > 0,
    decreases parts.len(),
{
    if parts.len() > 1 {
        let p = parts[0];
        let rest = spelled(parts.skip(1));
        let b = spelled(parts);
        assert(plain(p));
        assert forall|i: int| 0 <= i < parts.skip(1).len() implies plain(
            #[trigger] parts.skip(1)[i],
        ) by {
            assert(plain(parts[i + 1]));
        }
        lemma_spelled_shape(parts.skip(1));
        assert(b[0] == p[0]);
        assert(b.last() == rest.last());
        assert forall|k: int| 0 <= k && k + 1 < b.len() implies !(#[trigger] b[k] == 0x3a && b[k
            + 1] == 0x3a) by {
            if k < p.len() {
                assert(b[k] == p[k]);
            } else if k == p.len() {
                assert(b[k + 1] == rest[0]);
            } else {
                assert(b[k] == rest[k - p.len() - 1]);
                assert(b[k + 1] == rest[k - p.len()]);
            }
        }
    } else if parts.len() == 1 {
        assert(plain(parts[0]));
    }
}

proof fn lemma_gap_at(x: Seq<u8>, y: Seq<u8>)
    requires
        no_gap(x),
    ensures
        ({
            let b = x + seq![0x3au8, 0x3au8] + y;
            &&& gap(b) == x.len()
            &&& b.take(x.len() as int) == x
            &&& b.skip(x.len() as int + 2) == y
        }),
{
    let b = x + seq![0x3au8, 0x3au8] + y;
    let c = x.len() as int;
    assert(b.take(c) =~= x);
    assert(b.skip(c + 2) =~= y);
    assert forall|k: int| 0 <= k < c && k + 1 < b.len() implies !(#[trigger] b[k] == 58 && b[k + 1]
        == 58) by {
        assert(b[k] == x[k]);
        if k + 1 < c {
            assert(b[k + 1] == x[k + 1]);
        } else {
            assert(x[k] == x.last());
        }
    }
    lemma_gap_is(b, c);
}

/// One part and what follows it are read in turn.
proof fn lemma_one_part(p: Seq<u8>, rest: Seq<u8>)
    requires
        1 <= p.len() <= 4,
        all_hex(p),
    ensures
        list_groups(p) == Some((seq![hex_value(p) as u16], false)),
        list_groups(p + seq![0x3au8] + rest) == (match list_groups(rest) {
            Some((g, v4)) => Some((seq![hex_value(p) as u16] + g, v4)),
            None => None,
        }),
{
    lemma_plain_group(p);
    lemma_colon_is(p, p.len() as int);
    let b = p + seq![0x3au8] + rest;
    assert forall|k: int| 0 <= k < p.len() implies (#[trigger] b[k]) != 58 by {
        assert(b[k] == p[k]);
    }
    lemma_colon_is(b, p.len() as int);
    assert(b.take(p.len() as int) =~= p);
    assert(b.skip(p.len() as int + 1) =~= rest);
}

proof fn lemma_list_is_read(parts: Seq<Seq<u8>>)
    requires
        parts.len() > 0,
        all_groups(parts),
    ensures
        list_groups(spelled(parts)) == Some((values(parts), false)),
    decreases parts.len(),
{
    let p = parts[0];
    let rest = parts.skip(1);
    lemma_one_part(p, spelled(rest));
    if parts.len() == 1 {
        assert(values(parts) =~= seq![hex_value(p) as u16]);
    } else {
        assert(all_groups(rest)) by {
            assert forall|i: int| 0 <= i < rest.len() implies 1 <= (#[trigger] rest[i]).len() <= 4
                && all_hex(rest[i]) by {
                assert(rest[i] == parts[i + 1]);
            }
        }
        lemma_list_is_read(rest);
        assert(values(parts) =~= seq![hex_value(p) as u16] + values(rest));
    }
}

proof fn lemma_ended_is_read(parts: Seq<Seq<u8>>, o: Seq<u8>)
    requires
        all_groups(parts),
        o.len() == 4,
    ensures
        list_groups(ended(parts, o)) == Some((values(parts) + embedded(o), true)),
    decreases parts.len(),
{
    let d = dotted(o);
    let all = parts.push(d);
    if parts.len() == 0 {
        lemma_plain_dotted(o);
        lemma_colon_is(d, d.len() as int);
        lemma_dotted_is_no_group(o);
        lemma_undotted(o);
        assert(spelled(all) == d);
        assert(values(parts) + embedded(o) =~= seq![joined(o[0], o[1]), joined(o[2], o[3])]);
    } else {
        let p = parts[0];
        let rest = parts.skip(1);
        assert(all.skip(1) =~= rest.push(d));
        assert(all[0] == p);
        lemma_one_part(p, ended(rest, o));
        assert(all_groups(rest)) by {
            assert forall|i: int| 0 <= i < rest.len() implies 1 <= (#[trigger] rest[i]).len() <= 4
                && all_hex(rest[i]) by {
                assert(rest[i] == parts[i + 1]);
            }
        }
        lemma_ended_is_read(rest, o);
        assert(values(parts) + embedded(o) =~= seq![hex_value(p) as u16] + (values(rest)
            + embedded(o)));
    }
}

proof fn lemma_parts_plain(parts: Seq<Seq<u8>>)
    requires
        all_groups(parts),
    ensures
        no_gap(spelled(parts)),
        parts.len() > 0 ==> spelled(parts).len() > 0,
        some_groups(spelled(parts)) == Some((values(parts), false)),
{
    assert forall|i: int| 0 <= i < parts.len() implies plain(#[trigger] parts[i]) by {
        lemma_plain_group(parts[i]);
    }
    lemma_spelled_shape(parts);
    if parts.len() > 0 {
        lemma_list_is_read(parts);
    } else {
        assert(values(parts) =~= Seq::empty());
    }
}

proof fn lemma_ended_plain(parts: Seq<Seq<u8>>, o: Seq<u8>)
    requires
        all_groups(parts),
        o.len() == 4,
    ensures
        no_gap(ended(parts, o)),
        ended(parts, o).len() > 0,
        some_groups(ended(parts, o)) == Some((values(parts) + embedded(o), true)),
{
    let all = parts.push(dotted(o));
    assert forall|i: int| 0 <= i < all.len() implies plain(#[trigger] all[i]) by {
        if i < parts.len() {
            lemma_plain_group(parts[i]);
        } else {
            lemma_plain_dotted(o);
        }
    }
    lemma_spelled_shape(all);
    lemma_ended_is_read(parts, o);
}

proof fn lemma_no_gap(x: Seq<u8>)
    requires
        no_gap(x),
    ensures
        gap(x) == x.len(),
{
    lemma_gap_is(x, x.len() as int);
}

/// Groups of one to four digits with single colons between them are an address where there are
/// eight of them, and no address otherwise.
pub proof fn law_eight_groups_are_an_address(parts: Seq<Seq<u8>>)
    requires
        all_groups(parts),
        parts.len() > 0,
    ensures
        ipv6_groups(spelled(parts)) == if parts.len() == 8 {
            Some(values(parts))
        } else {
            None
        },
{
    lemma_parts_plain(parts);
    lemma_no_gap(spelled(parts));
}

/// A double colon between, before or behind groups stands for as many zeros as are missing, at
/// least one.
pub proof fn law_double_colon_fills_with_zeros(l: Seq<Seq<u8>>, r: Seq<Seq<u8>>)
    requires
        all_groups(l),
        all_groups(r),
    ensures
        ipv6_groups(spelled(l) + seq![0x3au8, 0x3au8] + spelled(r)) == if l.len() + r.len() < 8 {
            Some(values(l) + Seq::new((8 - l.len() - r.len()) as nat, |i: int| 0u16) + values(r))
        } else {
            None
        },
{
    lemma_parts_plain(l);
    lemma_parts_plain(r);
    lemma_gap_at(spelled(l), spelled(r));
    if l.len() + r.len() < 8 {
        assert(zero_groups(8 - l.len() - r.len()) =~= Seq::new(
            (8 - l.len() - r.len()) as nat,
            |i: int| 0u16,
        ));
    }
}

/// An IPv4 address in dotted decimal form stands for the last two groups, with or without a double
/// colon before it, and not for any others.
pub proof fn law_dotted_end_is_two_groups(l: Seq<Seq<u8>>, r: Seq<Seq<u8>>, o: Seq<u8>)
    requires
        all_groups(l),
        all_groups(r),
        o.len() == 4,
    ensures
        ipv6_groups(ended(r, o)) == if r.len() == 6 {
            Some(values(r) + embedded(o))
        } else {
            None
        },
        ipv6_groups(spelled(l) + seq![0x3au8, 0x3au8] + ended(r, o)) == if l.len() + r.len() < 6 {
            Some(
                values(l) + Seq::new((6 - l.len() - r.len()) as nat, |i: int| 0u16) + (values(r)
                    + embedded(o)),
            )
        } else {
            None
        },
        ipv6_groups(ended(r, o) + seq![0x3au8, 0x3au8] + spelled(l)) is None,
{
    lemma_parts_plain(l);
    lemma_ended_plain(r, o);
    lemma_no_gap(ended(r, o));
    lemma_gap_at(spelled(l), ended(r, o));
    lemma_gap_at(ended(r, o), spelled(l));
    if l.len() + r.len() < 6 {
        assert(zero_groups(6 - l.len() - r.len()) =~= Seq::new(
            (6 - l.len() - r.len()) as nat,
            |i: int| 0u16,
        ));
    }
}

// ── Writing ──────────────────────────────────────────────────────────────────

/// A group is written with one to four lower-case digits that stand for it, the first of which is
/// no zero unless it is the only one.
pub proof fn law_groups_are_written_short(g: u16)
    ensures
        ({
            let b = group_text(g);
            &&& 1 <= b.len() <= 4
            &&& hex_value(b) == g
            &&& forall|i: int|
                0 <= i < b.len() ==> 0x30 <= #[trigger] b[i] <= 0x39 || 0x61 <= b[i] <= 0x66
            &&& b.len() > 1 ==> b[0] != 0x30
        }),
{
    lemma_group_ascii(g);
    reveal_with_fuel(group_text, 5);
}

/// Groups are written with colons between them.
pub proof fn law_groups_are_joined(g: Seq<u16>)
    ensures
        groups_text(g) == spelled(g.map_values(|x: u16| group_text(x))),
    decreases g.len(),
{
    let t = g.map_values(|x: u16| group_text(x));
    if g.len() > 1 {
        law_groups_are_joined(g.skip(1));
        assert(g.skip(1).map_values(|x: u16| group_text(x)) =~= t.skip(1));
    }
}

/// Where the run of zeros that is left out begins: none is longer, and none as long begins earlier.
pub proof fn law_longest_run_is_left_out(g: Seq<u16>, i: int)
    requires
        g.len() == 8,
        0 <= i < 8,
    ensures
        0 <= longest_zeros(g, 8) < 8,
        zeros_at(g, i) <= zeros_at(g, longest_zeros(g, 8)),
        i < longest_zeros(g, 8) ==> zeros_at(g, i) < zeros_at(g, longest_zeros(g, 8)),
        forall|k: int| i <= k < i + zeros_at(g, i) ==> (#[trigger] g[k]) == 0,
        0 <= zeros_at(g, i) <= 8 - i,
        i + zeros_at(g, i) < 8 ==> g[i + zeros_at(g, i)] != 0,
{
    lemma_longest(g, 8, i);
    lemma_zeros_at(g, i);
}

proof fn lemma_longest(g: Seq<u16>, n: int, i: int)
    requires
        1 <= n <= 8,
        g.len() == 8,
    ensures
        0 <= longest_zeros(g, n) < n,
        0 <= i < n ==> zeros_at(g, i) <= zeros_at(g, longest_zeros(g, n)),
        0 <= i < longest_zeros(g, n) ==> zeros_at(g, i) < zeros_at(g, longest_zeros(g, n)),
    decreases n,
{
    if n > 1 {
        lemma_longest(g, n - 1, i);
    }
}

/// How an address is written: one that stands for an IPv4 address ends in its dotted decimal form,
/// every other is written in groups, with a double colon for the longest run of at least two zeros.
pub proof fn law_how_an_address_is_written(g: Seq<u16>, o: Seq<u8>)
    requires
        g.len() == 8,
    ensures
        is_mapped(g) <==> g.take(6) == seq![0u16, 0, 0, 0, 0, 0xffff],
        o.len() == 4 && g == seq![0u16, 0, 0, 0, 0, 0xffff] + embedded(o) ==> ipv6_bytes(g)
            == seq![0x3au8, 0x3a, 0x66, 0x66, 0x66, 0x66, 0x3a] + dotted(o),
        !is_mapped(g) && (forall|i: int| 0 <= i < 7 ==> !(#[trigger] g[i] == 0 && g[i + 1] == 0))
            ==> ipv6_bytes(g) == groups_text(g),
        !is_mapped(g) && (exists|i: int| 0 <= i < 7 && (#[trigger] g[i] == 0 && g[i + 1] == 0))
            ==> {
            let p = longest_zeros(g, 8);
            ipv6_bytes(g) == groups_text(g.take(p)) + seq![0x3au8, 0x3au8] + groups_text(
                g.skip(p + zeros_at(g, p)),
            )
        },
{
    let p = longest_zeros(g, 8);
    lemma_longest(g, 8, 0);
    lemma_zeros_at(g, p);
    if is_mapped(g) {
        assert(g.take(6) =~= seq![0u16, 0, 0, 0, 0, 0xffff]);
    } else if g.take(6) == seq![0u16, 0, 0, 0, 0, 0xffff] {
        assert(g[0] == g.take(6)[0]);
        assert(g[1] == g.take(6)[1]);
        assert(g[2] == g.take(6)[2]);
        assert(g[3] == g.take(6)[3]);
        assert(g[4] == g.take(6)[4]);
        assert(g[5] == g.take(6)[5]);
    }
    if o.len() == 4 && g == seq![0u16, 0, 0, 0, 0, 0xffff] + embedded(o) {
        assert(g[5] == 0xffff);
        assert(g[6] == embedded(o)[0] && g[7] == embedded(o)[1]);
        assert(seq![
            (g[6] / 256) as u8,
            (g[6] % 256) as u8,
            (g[7] / 256) as u8,
            (g[7] % 256) as u8,
        ] =~= o);
        reveal_with_fuel(group_text, 5);
        assert(group_text(0xffff) =~= seq![0x66u8, 0x66, 0x66, 0x66]);
        assert(ipv6_bytes(g) =~= seq![0x3au8, 0x3a, 0x66, 0x66, 0x66, 0x66, 0x3a] + dotted(o));
    }
    if exists|i: int| 0 <= i < 7 && (#[trigger] g[i] == 0 && g[i + 1] == 0) {
        let i = choose|i: int| 0 <= i < 7 && (#[trigger] g[i] == 0 && g[i + 1] == 0);
        lemma_longest(g, 8, i);
        assert(zeros_at(g, i) == 1 + zeros_at(g, i + 1));
        assert(zeros_at(g, i + 1) == 1 + zeros_at(g, i + 2));
        lemma_zeros_at(g, i + 2);
    } else if zeros_at(g, p) > 1 {
        assert(g[p] == 0 && g[p + 1] == 0);
    }
}

} // verus!
