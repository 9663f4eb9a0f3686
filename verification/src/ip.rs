//! IPv4 addresses in dotted decimal form.

use vstd::prelude::*;
use vstd::utf8::encode_utf8;

use crate::ascii::{
    ascii_chars, ascii_string, digits, is_ascii, lemma_ascii_utf8, lemma_text_of_ascii,
};

verus! {

/// The decimal digits of a byte, without leading zeros.
pub open spec fn decimal(n: u8) -> Seq<u8> {
    if n < 10 {
        seq![(48 + n) as u8]
    } else if n < 100 {
        seq![(48 + n / 10) as u8, (48 + n % 10) as u8]
    } else {
        seq![(48 + n / 100) as u8, (48 + n / 10 % 10) as u8, (48 + n % 10) as u8]
    }
}

/// The four bytes of an address as decimals with dots between them.
pub open spec fn dotted(o: Seq<u8>) -> Seq<u8> {
    decimal(o[0]) + seq![46u8] + decimal(o[1]) + seq![46u8] + decimal(o[2]) + seq![46u8] + decimal(
        o[3],
    )
}

/// The address in dotted decimal form.
pub open spec fn ipv4_text(o: Seq<u8>) -> Seq<char> {
    ascii_chars(dotted(o))
}

/// The four bytes of the address that a text is the dotted decimal form of.
pub open spec fn ipv4_of(text: Seq<char>) -> Option<Seq<u8>> {
    if exists|o: Seq<u8>| o.len() == 4 && #[trigger] ipv4_text(o) == text {
        Some(choose|o: Seq<u8>| o.len() == 4 && #[trigger] ipv4_text(o) == text)
    } else {
        None
    }
}

/// Whether a byte is a decimal digit.
pub open spec fn digit(b: u8) -> bool {
    48 <= b <= 57
}

/// The decimal form of a byte is one to three digits.
pub proof fn lemma_decimal(n: u8)
    ensures
        1 <= decimal(n).len() <= 3,
        forall|i: int| 0 <= i < decimal(n).len() ==> digit(#[trigger] decimal(n)[i]),
{
}

/// The dotted form consists of digits and dots, and begins with a digit.
pub proof fn lemma_dotted_ascii(o: Seq<u8>)
    ensures
        is_ascii(dotted(o)),
        dotted(o).len() >= 7,
        forall|i: int|
            0 <= i < dotted(o).len() ==> digit(#[trigger] dotted(o)[i]) || dotted(o)[i] == 46,
        dotted(o)[decimal(o[0]).len() as int] == 46,
{
    lemma_decimal(o[0]);
    lemma_decimal(o[1]);
    lemma_decimal(o[2]);
    lemma_decimal(o[3]);
}

/// Whether the decimal of `n` stands in `b` from `at` to `to`, and no digit follows.
spec fn octet_at(b: Seq<u8>, at: int, n: u8, to: int) -> bool {
    &&& 0 <= at <= to <= b.len()
    &&& b.subrange(at, to) == decimal(n)
    &&& to == b.len() || !digit(b[to])
}

/// A digit run of one to three digits is the decimal of at most one byte.
proof fn lemma_octet_unique(b: Seq<u8>, at: int, n: u8, to: int, m: u8, end: int)
    requires
        octet_at(b, at, n, to),
        octet_at(b, at, m, end),
    ensures
        n == m,
        to == end,
{
    lemma_decimal(n);
    lemma_decimal(m);
    let x = decimal(n);
    let y = decimal(m);
    assert(x.len() == to - at);
    assert(y.len() == end - at);
    if to < end {
        assert(y[to - at] == b[to]);
        assert(digit(y[to - at]));
    } else if end < to {
        assert(x[end - at] == b[end]);
        assert(digit(x[end - at]));
    }
    assert(x == y);
    assert(x[0] == y[0]);
    if x.len() > 1 {
        assert(x[1] == y[1]);
    }
    if x.len() > 2 {
        assert(x[2] == y[2]);
    }
}

/// Reads the decimal of a byte at `at`, up to the first byte that is not a digit.
fn read_octet(b: &[u8], at: usize) -> (r: Option<(u8, usize)>)
    requires
        at <= b@.len(),
    ensures
        match r {
            Some((n, to)) => octet_at(b@, at as int, n, to as int) && at < to,
            None => forall|n: u8, to: int| !octet_at(b@, at as int, n, to),
        },
{
    let mut to: usize = at;
    while to < b.len() && b[to] >= 48 && b[to] <= 57
        invariant
            at <= to <= b@.len(),
            forall|i: int| at <= i < to ==> digit(#[trigger] b@[i]),
        decreases b@.len() - to,
    {
        to += 1;
    }
    let run: usize = to - at;
    proof {
        assert forall|n: u8, end: int| octet_at(b@, at as int, n, end) implies end == to by {
            lemma_decimal(n);
            assert(decimal(n).len() == end - at);
            if end < to {
                assert(digit(b@[end]));
            } else if to < end {
                assert(decimal(n)[to - at] == b@[to as int]);
                assert(digit(decimal(n)[to - at]));
            }
        }
    }
    if run == 1 {
        let n: u8 = b[at] - 48;
        proof {
            assert(b@.subrange(at as int, to as int) =~= decimal(n));
            assert(octet_at(b@, at as int, n, to as int));
        }
        return Some((n, to));
    }
    if run == 2 && b[at] != 48 {
        let n: u8 = (b[at] - 48) * 10 + (b[at + 1] - 48);
        proof {
            assert(b@.subrange(at as int, to as int) =~= decimal(n));
            assert(octet_at(b@, at as int, n, to as int));
        }
        return Some((n, to));
    }
    if run == 3 && b[at] != 48 {
        let v: u32 = (b[at] - 48) as u32 * 100 + (b[at + 1] - 48) as u32 * 10 + (b[at + 2]
            - 48) as u32;
        if v <= 255 {
            let n: u8 = v as u8;
            proof {
                assert(b@.subrange(at as int, to as int) =~= decimal(n));
                assert(octet_at(b@, at as int, n, to as int));
            }
            return Some((n, to));
        }
    }
    proof {
        assert forall|n: u8, end: int| !octet_at(b@, at as int, n, end) by {
            if octet_at(b@, at as int, n, end) {
                lemma_decimal(n);
                let x = decimal(n);
                assert(x.len() == run);
                assert(x[0] == b@[at as int]);
                if run >= 2 {
                    assert(x[1] == b@[at + 1]);
                }
                if run >= 3 {
                    assert(x[2] == b@[at + 2]);
                }
            }
        }
    }
    None
}

/// Whether `o` is the address that `b` is the dotted form of, by the places of its dots.
spec fn dots_at(b: Seq<u8>, o: Seq<u8>, i: int, j: int, k: int) -> bool {
    &&& octet_at(b, 0, o[0], i)
    &&& i < b.len() && b[i] == 46
    &&& octet_at(b, i + 1, o[1], j)
    &&& j < b.len() && b[j] == 46
    &&& octet_at(b, j + 1, o[2], k)
    &&& k < b.len() && b[k] == 46
    &&& octet_at(b, k + 1, o[3], b.len() as int)
}

proof fn lemma_dots(o: Seq<u8>)
    ensures
        ({
            let i = decimal(o[0]).len() as int;
            let j = i + 1 + decimal(o[1]).len();
            let k = j + 1 + decimal(o[2]).len();
            dots_at(dotted(o), o, i, j, k)
        }),
{
    let b = dotted(o);
    let i = decimal(o[0]).len() as int;
    let j = i + 1 + decimal(o[1]).len();
    let k = j + 1 + decimal(o[2]).len();
    assert(b.subrange(0, i) =~= decimal(o[0]));
    assert(b.subrange(i + 1, j) =~= decimal(o[1]));
    assert(b.subrange(j + 1, k) =~= decimal(o[2]));
    assert(b.subrange(k + 1, b.len() as int) =~= decimal(o[3]));
}

proof fn lemma_dots_conv(b: Seq<u8>, o: Seq<u8>, i: int, j: int, k: int)
    requires
        dots_at(b, o, i, j, k),
    ensures
        b == dotted(o),
{
    let n = b.len() as int;
    assert(b =~= b.subrange(0, i) + seq![46u8] + b.subrange(i + 1, j) + seq![46u8] + b.subrange(
        j + 1,
        k,
    ) + seq![46u8] + b.subrange(k + 1, n));
}

/// Two addresses with the same dotted form are the same.
pub proof fn law_ipv4_text_is_unique(a: Seq<u8>, b: Seq<u8>)
    requires
        a.len() == 4,
        b.len() == 4,
        ipv4_text(a) == ipv4_text(b),
    ensures
        a == b,
        ipv4_of(ipv4_text(a)) == Some(a),
{
    lemma_ipv4_unique(a, b);
    let text = ipv4_text(a);
    let o = choose|o: Seq<u8>| o.len() == 4 && #[trigger] ipv4_text(o) == text;
    lemma_ipv4_unique(a, o);
}

proof fn lemma_ipv4_unique(a: Seq<u8>, b: Seq<u8>)
    requires
        a.len() == 4,
        b.len() == 4,
        ipv4_text(a) == ipv4_text(b),
    ensures
        a == b,
{
    lemma_dotted_ascii(a);
    lemma_dotted_ascii(b);
    lemma_ascii_utf8(dotted(a));
    lemma_ascii_utf8(dotted(b));
    lemma_dotted_unique(a, b);
}

/// Two addresses with the same dotted form are the same.
pub proof fn lemma_dotted_unique(a: Seq<u8>, b: Seq<u8>)
    requires
        a.len() == 4,
        b.len() == 4,
        dotted(a) == dotted(b),
    ensures
        a == b,
{
    let s = dotted(a);
    lemma_dots(a);
    lemma_dots(b);
    let i = decimal(a[0]).len() as int;
    let j = i + 1 + decimal(a[1]).len();
    let k = j + 1 + decimal(a[2]).len();
    let x = decimal(b[0]).len() as int;
    let y = x + 1 + decimal(b[1]).len();
    let z = y + 1 + decimal(b[2]).len();
    lemma_octet_unique(s, 0, a[0], i, b[0], x);
    lemma_octet_unique(s, i + 1, a[1], j, b[1], y);
    lemma_octet_unique(s, j + 1, a[2], k, b[2], z);
    lemma_octet_unique(s, k + 1, a[3], s.len() as int, b[3], s.len() as int);
    assert(a =~= b);
}

/// Reads an address in dotted decimal form from bytes.
pub fn read_dotted(b: &[u8]) -> (r: Option<[u8; 4]>)
    ensures
        match r {
            Some(o) => b@ == dotted(o@),
            None => forall|o: Seq<u8>| o.len() == 4 ==> b@ != #[trigger] dotted(o),
        },
{
    proof {
        assert forall|o: Seq<u8>| o.len() == 4 && b@ == #[trigger] dotted(o) implies exists|
            i: int,
            j: int,
            k: int,
        | dots_at(b@, o, i, j, k) by {
            lemma_dots(o);
        }
    }
    let (o0, i): (u8, usize) = match read_octet(b, 0) {
        Some(x) => x,
        None => {
            return None;
        },
    };
    proof {
        assert forall|n: u8, to: int| octet_at(b@, 0, n, to) implies n == o0 && to == i by {
            lemma_octet_unique(b@, 0, n, to, o0, i as int);
        }
    }
    if i >= b.len() || b[i] != 46 {
        return None;
    }
    let (o1, j): (u8, usize) = match read_octet(b, i + 1) {
        Some(x) => x,
        None => {
            return None;
        },
    };
    proof {
        let at: int = i + 1;
        assert forall|n: u8, to: int| octet_at(b@, at, n, to) implies n == o1 && to == j by {
            lemma_octet_unique(b@, at, n, to, o1, j as int);
        }
    }
    if j >= b.len() || b[j] != 46 {
        return None;
    }
    let (o2, k): (u8, usize) = match read_octet(b, j + 1) {
        Some(x) => x,
        None => {
            return None;
        },
    };
    proof {
        let at: int = j + 1;
        assert forall|n: u8, to: int| octet_at(b@, at, n, to) implies n == o2 && to == k by {
            lemma_octet_unique(b@, at, n, to, o2, k as int);
        }
    }
    if k >= b.len() || b[k] != 46 {
        return None;
    }
    let (o3, end): (u8, usize) = match read_octet(b, k + 1) {
        Some(x) => x,
        None => {
            return None;
        },
    };
    proof {
        let at: int = k + 1;
        assert forall|n: u8, to: int| octet_at(b@, at, n, to) implies n == o3 && to == end by {
            lemma_octet_unique(b@, at, n, to, o3, end as int);
        }
    }
    if end != b.len() {
        return None;
    }
    let o: [u8; 4] = [o0, o1, o2, o3];
    proof {
        assert(dots_at(b@, o@, i as int, j as int, k as int));
        lemma_dots_conv(b@, o@, i as int, j as int, k as int);
    }
    Some(o)
}

/// Reads an address in dotted decimal form.
pub fn parse_ipv4(text: &str) -> (r: Option<[u8; 4]>)
    ensures
        match r {
            Some(o) => ipv4_of(text@) == Some(o@),
            None => ipv4_of(text@) is None,
        },
{
    let r = read_dotted(text.as_bytes());
    proof {
        assert forall|o: Seq<u8>| o.len() == 4 implies (encode_utf8(text@) == #[trigger] dotted(o)
            <==> text@ == ipv4_text(o)) by {
            lemma_dotted_ascii(o);
            lemma_text_of_ascii(text@, dotted(o));
        }
        if let Some(o) = r {
            assert(o@.len() == 4);
            assert(ipv4_text(o@) == text@);
            law_ipv4_text_is_unique(o@, o@);
        } else {
            assert forall|o: Seq<u8>| o.len() == 4 implies #[trigger] ipv4_text(o) != text@ by {
                assert(encode_utf8(text@) != dotted(o));
            }
        }
    }
    r
}

fn push_decimal(out: &mut Vec<u8>, n: u8)
    ensures
        final(out)@ == old(out)@ + decimal(n),
{
    if n >= 100 {
        out.push(48 + n / 100);
    }
    if n >= 10 {
        out.push(48 + n / 10 % 10);
    }
    out.push(48 + n % 10);
    assert(out@ =~= old(out)@ + decimal(n));
}

/// Appends an address in dotted decimal form.
pub fn push_dotted(out: &mut Vec<u8>, o: &[u8; 4])
    ensures
        final(out)@ == old(out)@ + dotted(o@),
{
    push_decimal(out, o[0]);
    out.push(46);
    push_decimal(out, o[1]);
    out.push(46);
    push_decimal(out, o[2]);
    out.push(46);
    push_decimal(out, o[3]);
    assert(out@ =~= old(out)@ + dotted(o@));
}

/// Writes an address in dotted decimal form.
pub fn format_ipv4(o: &[u8; 4]) -> (r: String)
    ensures
        r@ == ipv4_text(o@),
{
    let mut out: Vec<u8> = Vec::new();
    push_dotted(&mut out, o);
    proof {
        assert(out@ =~= dotted(o@));
        lemma_dotted_ascii(o@);
    }
    ascii_string(out)
}

/// An address is written as its four bytes in decimal, without leading zeros, with dots between.
pub proof fn law_dotted_is_four_decimals(o: Seq<u8>)
    ensures
        dotted(o) == digits(o[0] as nat) + seq![0x2eu8] + digits(o[1] as nat) + seq![0x2eu8]
            + digits(o[2] as nat) + seq![0x2eu8] + digits(o[3] as nat),
{
    lemma_decimal_digits(o[0]);
    lemma_decimal_digits(o[1]);
    lemma_decimal_digits(o[2]);
    lemma_decimal_digits(o[3]);
}

proof fn lemma_decimal_digits(n: u8)
    ensures
        decimal(n) == digits(n as nat),
{
    reveal_with_fuel(digits, 4);
    assert(decimal(n) =~= digits(n as nat));
}

/// A text stands for an address exactly where it is the address written out.
pub proof fn law_text_of_an_address(text: Seq<char>, o: Seq<u8>)
    requires
        o.len() == 4,
    ensures
        ipv4_of(text) == Some(o) <==> text == ascii_chars(
            digits(o[0] as nat) + seq![0x2eu8] + digits(o[1] as nat) + seq![0x2eu8] + digits(
                o[2] as nat,
            ) + seq![0x2eu8] + digits(o[3] as nat),
        ),
        ipv4_of(text) matches Some(x) ==> x.len() == 4 && ipv4_text(x) == text,
{
    law_dotted_is_four_decimals(o);
    if text == ipv4_text(o) {
        let x = ipv4_of(text)->0;
        law_ipv4_text_is_unique(o, x);
    }
}

} // verus!
