//! IPv6 addresses in text form: eight groups of hexadecimal digits, with a double colon for a run
//! of zeros and a dotted decimal end where one is wanted.

pub mod laws;

use vstd::prelude::*;
use vstd::slice::slice_subrange;
use vstd::utf8::encode_utf8;

use crate::ascii::{ascii_chars, ascii_string, is_ascii};
use crate::ip::{
    decimal, dotted, lemma_decimal, lemma_dotted_ascii, lemma_dotted_unique, push_dotted,
    read_dotted,
};
use crate::outside::{all_hex, hex_digit};

verus! {

/// The number that hexadecimal digits stand for.
pub open spec fn hex_value(b: Seq<u8>) -> int
    decreases b.len(),
{
    if b.len() == 0 {
        0
    } else {
        16 * hex_value(b.drop_last()) + hex_digit(b.last())->0
    }
}

/// Whether `b` is a group: one to four hexadecimal digits.
pub open spec fn is_group(b: Seq<u8>) -> bool {
    1 <= b.len() <= 4 && all_hex(b)
}

/// Position of the first colon, or the length where there is none.
pub open spec fn colon(b: Seq<u8>) -> int
    decreases b.len(),
{
    if b.len() == 0 || b[0] == 58 {
        0
    } else {
        1 + colon(b.skip(1))
    }
}

/// Whether `b` is the dotted decimal form of an IPv4 address.
pub open spec fn is_dotted(b: Seq<u8>) -> bool {
    exists|o: Seq<u8>| o.len() == 4 && #[trigger] dotted(o) == b
}

/// The IPv4 address that `b` is the dotted decimal form of.
pub open spec fn undotted(b: Seq<u8>) -> Seq<u8> {
    choose|o: Seq<u8>| o.len() == 4 && #[trigger] dotted(o) == b
}

/// Two bytes as one group, the high one first.
pub open spec fn joined(hi: u8, lo: u8) -> u16 {
    (256 * hi + lo) as u16
}

/// The groups between single colons in `b`, and whether the last two of them are written in dotted
/// decimal form.
pub open spec fn list_groups(b: Seq<u8>) -> Option<(Seq<u16>, bool)>
    decreases b.len(),
{
    proof {
        lemma_colon(b);
    }
    let c = colon(b);
    if c >= b.len() {
        if is_group(b) {
            Some((seq![hex_value(b) as u16], false))
        } else if is_dotted(b) {
            let o = undotted(b);
            Some((seq![joined(o[0], o[1]), joined(o[2], o[3])], true))
        } else {
            None
        }
    } else if is_group(b.take(c)) {
        match list_groups(b.skip(c + 1)) {
            Some((rest, v4)) => Some((seq![hex_value(b.take(c)) as u16] + rest, v4)),
            None => None,
        }
    } else {
        None
    }
}

/// As [`list_groups`], where nothing stands for no groups.
pub open spec fn some_groups(b: Seq<u8>) -> Option<(Seq<u16>, bool)> {
    if b.len() == 0 {
        Some((Seq::empty(), false))
    } else {
        list_groups(b)
    }
}

/// Position of the first double colon, or the length where there is none.
pub open spec fn gap(b: Seq<u8>) -> int
    decreases b.len(),
{
    if b.len() < 2 {
        b.len() as int
    } else if b[0] == 58 && b[1] == 58 {
        0
    } else {
        1 + gap(b.skip(1))
    }
}

/// `n` groups of zero.
pub open spec fn zero_groups(n: int) -> Seq<u16> {
    Seq::new(n as nat, |i: int| 0u16)
}

/// The eight groups of the address that `b` is a text form of. A double colon stands for at least
/// one group, and only groups behind it may be written in dotted decimal form.
pub open spec fn ipv6_groups(b: Seq<u8>) -> Option<Seq<u16>> {
    let c = gap(b);
    if c >= b.len() {
        match list_groups(b) {
            Some((g, _)) => if g.len() == 8 {
                Some(g)
            } else {
                None
            },
            None => None,
        }
    } else {
        match (some_groups(b.take(c)), some_groups(b.skip(c + 2))) {
            (Some((left, v4)), Some((right, _))) => if !v4 && left.len() + right.len() <= 7 {
                Some(left + zero_groups(8 - left.len() - right.len()) + right)
            } else {
                None
            },
            _ => None,
        }
    }
}

/// The digits of a group, without leading zeros.
pub open spec fn group_text(g: u16) -> Seq<u8>
    decreases g,
{
    if g < 16 {
        seq![hex_lower(g as int)]
    } else {
        group_text(g / 16).push(hex_lower(g as int % 16))
    }
}

/// The hexadecimal digit of a number below sixteen.
pub open spec fn hex_lower(n: int) -> u8 {
    if n < 10 {
        (48 + n) as u8
    } else {
        (87 + n) as u8
    }
}

/// Groups with colons between them.
pub open spec fn groups_text(g: Seq<u16>) -> Seq<u8>
    decreases g.len(),
{
    if g.len() == 0 {
        Seq::empty()
    } else if g.len() == 1 {
        group_text(g[0])
    } else {
        group_text(g[0]) + seq![58u8] + groups_text(g.skip(1))
    }
}

/// Length of the run of zeros that begins at `i`.
pub open spec fn zeros_at(g: Seq<u16>, i: int) -> int
    decreases g.len() - i,
{
    if i < 0 || i >= g.len() || g[i] != 0 {
        0
    } else {
        1 + zeros_at(g, i + 1)
    }
}

/// Where the longest run of zeros among the first `n` starts begins, the first of several.
pub open spec fn longest_zeros(g: Seq<u16>, n: int) -> int
    decreases n,
{
    if n <= 1 {
        0
    } else {
        let p = longest_zeros(g, n - 1);
        if zeros_at(g, n - 1) > zeros_at(g, p) {
            n - 1
        } else {
            p
        }
    }
}

/// Whether an address stands for an IPv4 address.
pub open spec fn is_mapped(g: Seq<u16>) -> bool {
    g[0] == 0 && g[1] == 0 && g[2] == 0 && g[3] == 0 && g[4] == 0 && g[5] == 0xffff
}

/// The canonical text form of an address: the longest run of at least two zeros is left out, and
/// an address that stands for an IPv4 address ends in its dotted decimal form.
pub open spec fn ipv6_bytes(g: Seq<u16>) -> Seq<u8> {
    if is_mapped(g) {
        seq![58u8, 58u8] + group_text(0xffff) + seq![58u8] + dotted(
            seq![
                (g[6] / 256) as u8,
                (g[6] % 256) as u8,
                (g[7] / 256) as u8,
                (g[7] % 256) as u8,
            ],
        )
    } else {
        let p = longest_zeros(g, 8);
        let n = zeros_at(g, p);
        if n > 1 {
            groups_text(g.take(p)) + seq![58u8, 58u8] + groups_text(g.skip(p + n))
        } else {
            groups_text(g)
        }
    }
}

/// The canonical text form of an address.
pub open spec fn ipv6_text(g: Seq<u16>) -> Seq<char> {
    ascii_chars(ipv6_bytes(g))
}

// ── Reading ──────────────────────────────────────────────────────────────────

/// Where the first colon stands.
pub proof fn lemma_colon(b: Seq<u8>)
    ensures
        0 <= colon(b) <= b.len(),
        colon(b) < b.len() ==> b[colon(b)] == 58,
        forall|k: int| 0 <= k < colon(b) ==> (#[trigger] b[k]) != 58,
    decreases b.len(),
{
    if b.len() > 0 && b[0] != 58 {
        let t = b.skip(1);
        lemma_colon(t);
        assert forall|k: int| 0 <= k < colon(b) implies (#[trigger] b[k]) != 58 by {
            if k > 0 {
                assert(t[k - 1] == b[k]);
            }
        }
    }
}

/// The first colon is where one stands with none before it.
proof fn lemma_colon_is(b: Seq<u8>, c: int)
    requires
        0 <= c <= b.len(),
        c < b.len() ==> b[c] == 58,
        forall|k: int| 0 <= k < c ==> (#[trigger] b[k]) != 58,
    ensures
        colon(b) == c,
{
    lemma_colon(b);
}

proof fn lemma_gap(b: Seq<u8>)
    ensures
        0 <= gap(b) <= b.len(),
        gap(b) < b.len() ==> gap(b) + 1 < b.len() && b[gap(b)] == 58 && b[gap(b) + 1] == 58,
        forall|k: int| 0 <= k < gap(b) && k + 1 < b.len() ==> !(#[trigger] b[k] == 58 && b[k + 1] == 58),
    decreases b.len(),
{
    if b.len() >= 2 && !(b[0] == 58 && b[1] == 58) {
        let t = b.skip(1);
        lemma_gap(t);
        assert forall|k: int| 0 <= k < gap(b) && k + 1 < b.len() implies !(#[trigger] b[k] == 58
            && b[k + 1] == 58) by {
            if k > 0 {
                assert(t[k - 1] == b[k]);
                assert(t[k] == b[k + 1]);
            }
        }
    }
}

/// The first double colon is where one stands with none before it.
proof fn lemma_gap_is(b: Seq<u8>, c: int)
    requires
        0 <= c <= b.len(),
        c < b.len() ==> c + 1 < b.len() && b[c] == 58 && b[c + 1] == 58,
        forall|k: int| 0 <= k < c && k + 1 < b.len() ==> !(#[trigger] b[k] == 58 && b[k + 1] == 58),
    ensures
        gap(b) == c,
{
    lemma_gap(b);
    let g = gap(b);
    if g < c {
        assert(b[g] == 58 && b[g + 1] == 58);
    } else if c < g {
        assert(b[c] == 58 && b[c + 1] == 58);
    }
}

fn find_colon(b: &[u8], from: usize) -> (r: usize)
    requires
        from <= b@.len(),
    ensures
        from <= r <= b@.len(),
        r - from == colon(b@.skip(from as int)),
{
    let mut i: usize = from;
    while i < b.len() && b[i] != 58
        invariant
            from <= i <= b@.len(),
            forall|k: int| from <= k < i ==> (#[trigger] b@[k]) != 58,
        decreases b@.len() - i,
    {
        i += 1;
    }
    proof {
        let s = b@.skip(from as int);
        assert forall|k: int| 0 <= k < i - from implies (#[trigger] s[k]) != 58 by {
            assert(s[k] == b@[k + from]);
        }
        lemma_colon_is(s, i - from);
    }
    i
}

fn find_gap(b: &[u8]) -> (r: usize)
    ensures
        r == gap(b@),
        r <= b@.len(),
{
    let mut i: usize = 0;
    while i < b.len()
        invariant
            i <= b@.len(),
            forall|k: int| 0 <= k < i && k + 1 < b@.len() ==> !(#[trigger] b@[k] == 58 && b@[k + 1] == 58),
        decreases b@.len() - i,
    {
        if i + 1 < b.len() && b[i] == 58 && b[i + 1] == 58 {
            proof {
                lemma_gap_is(b@, i as int);
            }
            return i;
        }
        i += 1;
    }
    proof {
        lemma_gap_is(b@, i as int);
    }
    i
}

fn digit_value(c: u8) -> (r: Option<u16>)
    ensures
        match r {
            Some(v) => hex_digit(c) == Some(v as int) && v < 16,
            None => hex_digit(c) is None,
        },
{
    if c >= 48 && c <= 57 {
        Some((c - 48) as u16)
    } else if c >= 97 && c <= 102 {
        Some((c - 87) as u16)
    } else if c >= 65 && c <= 70 {
        Some((c - 55) as u16)
    } else {
        None
    }
}

fn read_group(b: &[u8]) -> (r: Option<u16>)
    ensures
        match r {
            Some(v) => is_group(b@) && hex_value(b@) == v,
            None => !is_group(b@),
        },
{
    if b.len() == 0 || b.len() > 4 {
        return None;
    }
    let mut v: u32 = 0;
    let mut i: usize = 0;
    assert(b@.take(0) =~= Seq::empty());
    while i < b.len()
        invariant
            i <= b@.len() <= 4,
            all_hex(b@.take(i as int)),
            v == hex_value(b@.take(i as int)),
            i == 0 ==> v == 0,
            i == 1 ==> v < 16,
            i == 2 ==> v < 256,
            i == 3 ==> v < 4096,
            i == 4 ==> v < 65536,
        decreases b@.len() - i,
    {
        match digit_value(b[i]) {
            None => {
                proof {
                    assert(hex_digit(b@[i as int]) is None);
                }
                return None;
            },
            Some(d) => {
                proof {
                    let t = b@.take(i + 1);
                    assert(t.drop_last() =~= b@.take(i as int));
                    assert forall|k: int| 0 <= k < t.len() implies hex_digit(#[trigger] t[k]) is Some by {
                        if k < i {
                            assert(t[k] == b@.take(i as int)[k]);
                        }
                    }
                }
                v = 16 * v + d as u32;
            },
        }
        i += 1;
    }
    assert(b@.take(b@.len() as int) =~= b@);
    Some(v as u16)
}

/// A dotted form holds a dot, which is no hexadecimal digit.
proof fn lemma_dotted_is_no_group(o: Seq<u8>)
    ensures
        !is_group(dotted(o)),
{
    lemma_dotted_ascii(o);
    lemma_decimal(o[0]);
    let b = dotted(o);
    let k = decimal(o[0]).len() as int;
    assert(hex_digit(b[k]) is None);
}

proof fn lemma_undotted(o: Seq<u8>)
    requires
        o.len() == 4,
    ensures
        is_dotted(dotted(o)),
        undotted(dotted(o)) == o,
{
    lemma_dotted_unique(o, undotted(dotted(o)));
}

fn read_list(b: &[u8]) -> (r: Option<(Vec<u16>, bool)>)
    ensures
        match list_groups(b@) {
            Some((g, v4)) => r matches Some((v, f)) && v@ == g && f == v4,
            None => r is None,
        },
{
    let mut v: Vec<u16> = Vec::new();
    let mut at: usize = 0;
    proof {
        assert(b@.skip(0) =~= b@);
        if let Some((g, _)) = list_groups(b@) {
            assert(v@ + g =~= g);
        }
    }
    loop
        invariant
            at <= b@.len(),
            list_groups(b@) == (match list_groups(b@.skip(at as int)) {
                Some((g, v4)) => Some((v@ + g, v4)),
                None => None,
            }),
        decreases b@.len() - at,
    {
        let ghost s = b@.skip(at as int);
        let c: usize = find_colon(b, at);
        proof {
            lemma_colon(s);
        }
        let piece = slice_subrange(b, at, c);
        assert(piece@ =~= s.take(c - at));
        if c == b.len() {
            assert(piece@ =~= s);
            if let Some(g) = read_group(piece) {
                let ghost before = v@;
                v.push(g);
                assert(v@ =~= before + seq![g]);
                return Some((v, false));
            }
            match read_dotted(piece) {
                Some(o) => {
                    proof {
                        lemma_undotted(o@);
                    }
                    let hi: u16 = o[0] as u16 * 256 + o[1] as u16;
                    let lo: u16 = o[2] as u16 * 256 + o[3] as u16;
                    let ghost before = v@;
                    v.push(hi);
                    v.push(lo);
                    assert(v@ =~= before + seq![joined(o@[0], o@[1]), joined(o@[2], o@[3])]);
                    return Some((v, true));
                },
                None => {
                    return None;
                },
            }
        }
        match read_group(piece) {
            None => {
                return None;
            },
            Some(g) => {
                let ghost before = v@;
                v.push(g);
                proof {
                    assert(s.skip(c - at + 1) =~= b@.skip(c + 1));
                    if let Some((rest, _)) = list_groups(b@.skip(c + 1)) {
                        assert(v@ + rest =~= before + (seq![g] + rest));
                    }
                }
            },
        }
        at = c + 1;
    }
}

fn read_some(b: &[u8]) -> (r: Option<(Vec<u16>, bool)>)
    ensures
        match some_groups(b@) {
            Some((g, v4)) => r matches Some((v, f)) && v@ == g && f == v4,
            None => r is None,
        },
{
    if b.len() == 0 {
        let none: Vec<u16> = Vec::new();
        assert(none@ =~= Seq::empty());
        return Some((none, false));
    }
    read_list(b)
}

fn eight(v: &Vec<u16>) -> (r: [u16; 8])
    requires
        v@.len() == 8,
    ensures
        r@ == v@,
{
    let r: [u16; 8] = [v[0], v[1], v[2], v[3], v[4], v[5], v[6], v[7]];
    assert(r@ =~= v@);
    r
}

/// Reads an address in text form.
pub fn parse_ipv6(text: &str) -> (r: Option<[u16; 8]>)
    ensures
        match ipv6_groups(encode_utf8(text@)) {
            Some(g) => r matches Some(a) && a@ == g,
            None => r is None,
        },
{
    let b = text.as_bytes();
    let c: usize = find_gap(b);
    proof {
        lemma_gap(b@);
    }
    if c == b.len() {
        return match read_list(b) {
            Some((g, _)) => if g.len() == 8 {
                Some(eight(&g))
            } else {
                None
            },
            None => None,
        };
    }
    let head = slice_subrange(b, 0, c);
    let tail = slice_subrange(b, c + 2, b.len());
    assert(head@ =~= b@.take(c as int));
    assert(tail@ =~= b@.skip(c + 2));
    match (read_some(head), read_some(tail)) {
        (Some((left, v4)), Some((right, _))) => {
            if v4 || left.len() > 7 || right.len() > 7 - left.len() {
                return None;
            }
            let mut g: Vec<u16> = left;
            let ghost l = g@;
            let total: usize = 8 - right.len();
            while g.len() < total
                invariant
                    l.len() <= g@.len() <= total,
                    g@ == l + zero_groups(g@.len() - l.len()),
                decreases total - g@.len(),
            {
                let ghost before = g@;
                g.push(0);
                assert(g@ =~= l + zero_groups(g@.len() - l.len()));
            }
            let mut i: usize = 0;
            let ghost m = g@;
            assert(m + right@.take(0) =~= m);
            while i < right.len()
                invariant
                    i <= right@.len(),
                    g@ == m + right@.take(i as int),
                decreases right@.len() - i,
            {
                g.push(right[i]);
                i += 1;
                assert(g@ =~= m + right@.take(i as int));
            }
            assert(right@.take(right@.len() as int) =~= right@);
            Some(eight(&g))
        },
        _ => None,
    }
}

// ── Writing ──────────────────────────────────────────────────────────────────

fn lower_digit(n: u16) -> (r: u8)
    requires
        n < 16,
    ensures
        r == hex_lower(n as int),
{
    if n < 10 {
        48 + n as u8
    } else {
        87 + n as u8
    }
}

fn push_group(out: &mut Vec<u8>, g: u16)
    ensures
        final(out)@ == old(out)@ + group_text(g),
{
    proof {
        reveal_with_fuel(group_text, 5);
    }
    if g >= 0x1000 {
        out.push(lower_digit(g / 0x1000));
    }
    if g >= 0x100 {
        out.push(lower_digit(g / 0x100 % 16));
    }
    if g >= 0x10 {
        out.push(lower_digit(g / 0x10 % 16));
    }
    out.push(lower_digit(g % 16));
    assert(g / 16 / 16 == g / 0x100);
    assert(g / 16 / 16 / 16 == g / 0x1000);
    assert(out@ =~= old(out)@ + group_text(g));
}

/// Groups with one more at the end.
proof fn lemma_groups_push(g: Seq<u16>, x: u16)
    ensures
        groups_text(g.push(x)) == (if g.len() == 0 {
            group_text(x)
        } else {
            groups_text(g) + seq![58u8] + group_text(x)
        }),
    decreases g.len(),
{
    let h = g.push(x);
    if g.len() == 0 {
    } else {
        assert(h.skip(1) =~= g.skip(1).push(x));
        lemma_groups_push(g.skip(1), x);
        if g.len() == 1 {
            assert(g.skip(1).len() == 0);
            assert(groups_text(h) =~= groups_text(g) + seq![58u8] + group_text(x));
        } else {
            assert(groups_text(h) =~= groups_text(g) + seq![58u8] + group_text(x));
        }
    }
}

fn push_groups(out: &mut Vec<u8>, g: &[u16; 8], from: usize, to: usize)
    requires
        from <= to <= 8,
    ensures
        final(out)@ == old(out)@ + groups_text(g@.subrange(from as int, to as int)),
{
    let ghost before = out@;
    let mut i: usize = from;
    assert(g@.subrange(from as int, from as int) =~= Seq::empty());
    assert(out@ =~= before + groups_text(Seq::empty()));
    while i < to
        invariant
            from <= i <= to <= 8,
            out@ == before + groups_text(g@.subrange(from as int, i as int)),
        decreases to - i,
    {
        let ghost s = g@.subrange(from as int, i as int);
        proof {
            assert(g@.subrange(from as int, i + 1) =~= s.push(g@[i as int]));
            lemma_groups_push(s, g@[i as int]);
        }
        if i > from {
            out.push(58);
        }
        push_group(out, g[i]);
        proof {
            assert(out@ =~= before + groups_text(s.push(g@[i as int])));
        }
        i += 1;
    }
}

proof fn lemma_zeros_at(g: Seq<u16>, i: int)
    requires
        0 <= i <= g.len(),
    ensures
        0 <= zeros_at(g, i) <= g.len() - i,
        forall|k: int| i <= k < i + zeros_at(g, i) ==> (#[trigger] g[k]) == 0,
        i + zeros_at(g, i) < g.len() ==> g[i + zeros_at(g, i)] != 0,
    decreases g.len() - i,
{
    if i < g.len() && g[i] == 0 {
        lemma_zeros_at(g, i + 1);
    }
}

fn count_zeros(g: &[u16; 8], from: usize) -> (r: usize)
    requires
        from <= 8,
    ensures
        r == zeros_at(g@, from as int),
        from + r <= 8,
{
    let mut i: usize = from;
    while i < 8 && g[i] == 0
        invariant
            from <= i <= 8,
            zeros_at(g@, from as int) == i - from + zeros_at(g@, i as int),
        decreases 8 - i,
    {
        i += 1;
    }
    i - from
}

fn longest_run(g: &[u16; 8]) -> (r: (usize, usize))
    ensures
        r.0 == longest_zeros(g@, 8),
        r.1 == zeros_at(g@, r.0 as int),
        r.0 + r.1 <= 8,
        r.0 < 8,
{
    let mut best: usize = 0;
    let mut best_len: usize = count_zeros(g, 0);
    let mut i: usize = 1;
    while i < 8
        invariant
            1 <= i <= 8,
            best < i,
            best == longest_zeros(g@, i as int),
            best_len == zeros_at(g@, best as int),
            best + best_len <= 8,
        decreases 8 - i,
    {
        let n: usize = count_zeros(g, i);
        if n > best_len {
            best = i;
            best_len = n;
        }
        i += 1;
    }
    (best, best_len)
}

proof fn lemma_group_ascii(g: u16)
    ensures
        is_group(group_text(g)),
        hex_value(group_text(g)) == g,
        forall|k: int|
            0 <= k < group_text(g).len() ==> (#[trigger] group_text(g)[k]) != 58 && group_text(g)[k] < 128,
{
    reveal_with_fuel(group_text, 5);
    reveal_with_fuel(hex_value, 6);
    let t = group_text(g);
    let a = g / 16;
    let b = a / 16;
    let c = b / 16;
    if g < 16 {
        assert(t.drop_last() =~= Seq::empty());
    } else {
        assert(t.drop_last() =~= group_text(a));
        if a < 16 {
            assert(group_text(a).drop_last() =~= Seq::empty());
        } else {
            assert(group_text(a).drop_last() =~= group_text(b));
            if b < 16 {
                assert(group_text(b).drop_last() =~= Seq::empty());
            } else {
                assert(group_text(b).drop_last() =~= group_text(c));
                assert(c < 16);
                assert(group_text(c).drop_last() =~= Seq::empty());
            }
        }
    }
}

/// Groups with colons between them hold no double colon, and neither begin nor end with a colon.
proof fn lemma_groups_shape(g: Seq<u16>)
    requires
        g.len() > 0,
    ensures
        groups_text(g).len() > 0,
        is_ascii(groups_text(g)),
        groups_text(g)[0] != 58,
        groups_text(g).last() != 58,
        forall|k: int|
            0 <= k && k + 1 < groups_text(g).len() ==> !(#[trigger] groups_text(g)[k] == 58
                && groups_text(g)[k + 1] == 58),
    decreases g.len(),
{
    let t = group_text(g[0]);
    lemma_group_ascii(g[0]);
    if g.len() > 1 {
        lemma_groups_shape(g.skip(1));
        let rest = groups_text(g.skip(1));
        let b = groups_text(g);
        assert(b == t + seq![58u8] + rest);
        assert(b.last() == rest.last());
        assert(b[0] == t[0]);
        assert forall|k: int| 0 <= k && k + 1 < b.len() implies !(#[trigger] b[k] == 58 && b[k + 1]
            == 58) by {
            if k < t.len() {
                assert(b[k] == t[k]);
            } else if k == t.len() {
                assert(b[k + 1] == rest[0]);
            } else {
                assert(b[k] == rest[k - t.len() - 1]);
                assert(b[k + 1] == rest[k - t.len()]);
            }
        }
        assert forall|k: int| 0 <= k < b.len() implies (#[trigger] b[k]) < 128 by {
            if k < t.len() {
                assert(b[k] == t[k]);
            } else if k > t.len() {
                assert(b[k] == rest[k - t.len() - 1]);
            }
        }
    }
}

/// Groups with colons between them are read back.
proof fn lemma_groups_roundtrip(g: Seq<u16>)
    requires
        g.len() > 0,
    ensures
        list_groups(groups_text(g)) == Some((g, false)),
    decreases g.len(),
{
    let t = group_text(g[0]);
    let b = groups_text(g);
    lemma_group_ascii(g[0]);
    if g.len() == 1 {
        lemma_colon_is(b, b.len() as int);
        assert(seq![g[0]] =~= g);
    } else {
        let rest = groups_text(g.skip(1));
        assert(b == t + seq![58u8] + rest);
        assert forall|k: int| 0 <= k < t.len() implies (#[trigger] b[k]) != 58 by {
            assert(b[k] == t[k]);
        }
        lemma_colon_is(b, t.len() as int);
        assert(b.take(t.len() as int) =~= t);
        assert(b.skip(t.len() as int + 1) =~= rest);
        lemma_groups_roundtrip(g.skip(1));
        assert(seq![g[0]] + g.skip(1) =~= g);
    }
}

proof fn lemma_some_roundtrip(g: Seq<u16>)
    ensures
        some_groups(groups_text(g)) == Some((g, false)),
{
    if g.len() > 0 {
        lemma_groups_shape(g);
        lemma_groups_roundtrip(g);
    } else {
        assert(g =~= Seq::empty());
    }
}

proof fn lemma_longest_zeros(g: Seq<u16>, n: int)
    requires
        1 <= n <= g.len(),
    ensures
        0 <= longest_zeros(g, n) < n,
    decreases n,
{
    if n > 1 {
        lemma_longest_zeros(g, n - 1);
    }
}

/// A left and a right part around a double colon are found again.
proof fn lemma_gap_between(l: Seq<u16>, r: Seq<u16>)
    ensures
        ({
            let b = groups_text(l) + seq![58u8, 58u8] + groups_text(r);
            let c = groups_text(l).len() as int;
            &&& gap(b) == c
            &&& c < b.len()
            &&& b.take(c) == groups_text(l)
            &&& b.skip(c + 2) == groups_text(r)
        }),
{
    let x = groups_text(l);
    let y = groups_text(r);
    let b = x + seq![58u8, 58u8] + y;
    let c = x.len() as int;
    assert(b.take(c) =~= x);
    assert(b.skip(c + 2) =~= y);
    if l.len() > 0 {
        lemma_groups_shape(l);
    }
    assert forall|k: int| 0 <= k < c && k + 1 < b.len() implies !(#[trigger] b[k] == 58 && b[k + 1]
        == 58) by {
        assert(b[k] == x[k]);
        if k + 1 < c {
            assert(b[k + 1] == x[k + 1]);
        } else {
            assert(x[k] == x.last());
        }
    }
    lemma_gap_is(b, c);
}

/// The canonical text form of an address is read back, and it is ASCII.
pub proof fn law_ipv6_roundtrip(g: Seq<u16>)
    requires
        g.len() == 8,
    ensures
        ipv6_groups(ipv6_bytes(g)) == Some(g),
        is_ascii(ipv6_bytes(g)),
{
    let b = ipv6_bytes(g);
    if is_mapped(g) {
        lemma_mapped_roundtrip(g);
    } else {
        let p = longest_zeros(g, 8);
        lemma_longest_zeros(g, 8);
        lemma_zeros_at(g, p);
        let n = zeros_at(g, p);
        if n > 1 {
            let l = g.take(p);
            let r = g.skip(p + n);
            lemma_gap_between(l, r);
            lemma_some_roundtrip(l);
            lemma_some_roundtrip(r);
            assert(l + zero_groups(8 - l.len() - r.len()) + r =~= g);
            if l.len() > 0 {
                lemma_groups_shape(l);
            }
            if r.len() > 0 {
                lemma_groups_shape(r);
            }
        } else {
            lemma_groups_shape(g);
            lemma_groups_roundtrip(g);
            lemma_gap_is(b, b.len() as int);
        }
    }
}

proof fn lemma_mapped_roundtrip(g: Seq<u16>)
    requires
        g.len() == 8,
        is_mapped(g),
    ensures
        ipv6_groups(ipv6_bytes(g)) == Some(g),
        is_ascii(ipv6_bytes(g)),
{
    let o = seq![
        (g[6] / 256) as u8,
        (g[6] % 256) as u8,
        (g[7] / 256) as u8,
        (g[7] % 256) as u8,
    ];
    let d = dotted(o);
    let t = group_text(0xffff);
    let b = ipv6_bytes(g);
    assert(b == seq![58u8, 58u8] + t + seq![58u8] + d);
    lemma_gap_is(b, 0);
    assert(b.take(0) =~= Seq::empty());
    let r = b.skip(2);
    assert(r =~= t + seq![58u8] + d);
    lemma_group_ascii(0xffff);
    lemma_dotted_ascii(o);
    assert forall|k: int| 0 <= k < t.len() implies (#[trigger] r[k]) != 58 by {
        assert(r[k] == t[k]);
    }
    lemma_colon_is(r, t.len() as int);
    assert(r.take(t.len() as int) =~= t);
    assert(r.skip(t.len() as int + 1) =~= d);
    lemma_colon_is(d, d.len() as int);
    lemma_dotted_is_no_group(o);
    lemma_undotted(o);
    assert(list_groups(d) == Some((seq![joined(o[0], o[1]), joined(o[2], o[3])], true)));
    assert(joined(o[0], o[1]) == g[6]);
    assert(joined(o[2], o[3]) == g[7]);
    let right = seq![0xffffu16] + seq![g[6], g[7]];
    assert(list_groups(r) == Some((right, true)));
    assert(Seq::<u16>::empty() + zero_groups(5) + right =~= g);
    assert forall|k: int| 0 <= k < b.len() implies (#[trigger] b[k]) < 128 by {
        if k >= 2 {
            assert(b[k] == r[k - 2]);
            if k - 2 < t.len() {
                assert(r[k - 2] == t[k - 2]);
            } else if k - 2 > t.len() {
                assert(r[k - 2] == d[k - 3 - t.len()]);
            }
        }
    }
}

/// Writes an address in canonical text form.
pub fn format_ipv6(g: &[u16; 8]) -> (r: String)
    ensures
        r@ == ipv6_text(g@),
{
    let mut out: Vec<u8> = Vec::new();
    if g[0] == 0 && g[1] == 0 && g[2] == 0 && g[3] == 0 && g[4] == 0 && g[5] == 0xffff {
        out.push(58);
        out.push(58);
        push_group(&mut out, 0xffff);
        out.push(58);
        let o: [u8; 4] = [
            (g[6] / 256) as u8,
            (g[6] % 256) as u8,
            (g[7] / 256) as u8,
            (g[7] % 256) as u8,
        ];
        push_dotted(&mut out, &o);
        proof {
            assert(o@ =~= seq![
                (g@[6] / 256) as u8,
                (g@[6] % 256) as u8,
                (g@[7] / 256) as u8,
                (g@[7] % 256) as u8,
            ]);
            assert(out@ =~= ipv6_bytes(g@));
        }
    } else {
        let (p, n): (usize, usize) = longest_run(g);
        if n > 1 {
            push_groups(&mut out, g, 0, p);
            out.push(58);
            out.push(58);
            push_groups(&mut out, g, p + n, 8);
            proof {
                assert(g@.subrange(0, p as int) =~= g@.take(p as int));
                assert(g@.subrange(p + n, 8) =~= g@.skip(p + n));
                assert(out@ =~= ipv6_bytes(g@));
            }
        } else {
            push_groups(&mut out, g, 0, 8);
            proof {
                assert(g@.subrange(0, 8) =~= g@);
                assert(out@ =~= ipv6_bytes(g@));
            }
        }
    }
    proof {
        law_ipv6_roundtrip(g@);
    }
    ascii_string(out)
}

} // verus!
