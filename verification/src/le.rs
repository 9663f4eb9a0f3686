//! Little-endian integers as byte sequences.

use vstd::arithmetic::power::{lemma_pow0, lemma_pow_positive, pow};
use vstd::prelude::*;

verus! {

/// The `n` low bytes of `v`, least significant first.
pub open spec fn le_bytes(v: nat, n: nat) -> Seq<u8>
    decreases n,
{
    if n == 0 {
        Seq::empty()
    } else {
        seq![(v % 256) as u8] + le_bytes(v / 256, (n - 1) as nat)
    }
}

/// The number whose bytes are `b`, least significant first.
pub open spec fn le_value(b: Seq<u8>) -> nat
    decreases b.len(),
{
    if b.len() == 0 {
        0
    } else {
        b[0] as nat + 256 * le_value(b.skip(1))
    }
}

/// The number of bytes written is the number asked for.
pub proof fn lemma_le_bytes_len(v: nat, n: nat)
    ensures
        le_bytes(v, n).len() == n,
    decreases n,
{
    if n > 0 {
        lemma_le_bytes_len(v / 256, (n - 1) as nat);
    }
}

/// `n` bytes hold a number below `256^n`.
pub proof fn lemma_le_value_bound(b: Seq<u8>)
    ensures
        le_value(b) < pow(256, b.len()),
    decreases b.len(),
{
    lemma_pow0(256);
    if b.len() > 0 {
        lemma_le_value_bound(b.skip(1));
        reveal(pow);
        let p = pow(256, (b.len() - 1) as nat);
        assert(pow(256, b.len()) == 256 * p);
        assert(le_value(b.skip(1)) + 1 <= p);
    }
}

/// Reading back `n` written bytes gives the number, as long as it fits in `n` bytes.
pub proof fn lemma_le_roundtrip(v: nat, n: nat)
    requires
        v < pow(256, n),
    ensures
        le_value(le_bytes(v, n)) == v,
    decreases n,
{
    lemma_pow0(256);
    if n > 0 {
        reveal(pow);
        let p = pow(256, (n - 1) as nat);
        assert(pow(256, n) == 256 * p);
        assert(v / 256 < p);
        lemma_le_roundtrip(v / 256, (n - 1) as nat);
        assert(le_bytes(v, n).skip(1) =~= le_bytes(v / 256, (n - 1) as nat));
    }
}

/// Bounds of the widths in use.
pub proof fn lemma_widths()
    ensures
        pow(256, 1) == 0x100,
        pow(256, 2) == 0x1_0000,
        pow(256, 3) == 0x100_0000,
        pow(256, 4) == 0x1_0000_0000,
        pow(256, 8) == 0x1_0000_0000_0000_0000,
{
    reveal(pow);
    lemma_pow0(256);
    assert(pow(256, 1) == 256 * pow(256, 0));
    assert(pow(256, 2) == 256 * pow(256, 1));
    assert(pow(256, 3) == 256 * pow(256, 2));
    assert(pow(256, 4) == 256 * pow(256, 3));
    assert(pow(256, 5) == 256 * pow(256, 4));
    assert(pow(256, 6) == 256 * pow(256, 5));
    assert(pow(256, 7) == 256 * pow(256, 6));
    assert(pow(256, 8) == 256 * pow(256, 7));
}

/// Writes the `n` low bytes of `v` into `buf` at `at`.
pub fn put_le(buf: &mut Vec<u8>, at: usize, v: u64, n: usize)
    requires
        at + n <= old(buf)@.len(),
    ensures
        final(buf)@ == splice(old(buf)@, at as int, le_bytes(v as nat, n as nat)),
{
    let ghost before = buf@;
    assert(at + n <= buf.len());
    let mut i: usize = 0;
    let mut rest: u64 = v;
    proof {
        lemma_le_bytes_len(v as nat, n as nat);
        assert(splice(before, at as int, Seq::<u8>::empty()) =~= before);
        assert(le_bytes(v as nat, n as nat).take(0) =~= Seq::<u8>::empty());
        assert(le_bytes(v as nat, n as nat).skip(0) =~= le_bytes(v as nat, n as nat));
    }
    while i < n
        invariant
            i <= n,
            at + n <= before.len(),
            at + n <= usize::MAX,
            buf@.len() == before.len(),
            le_bytes(v as nat, n as nat).len() == n,
            buf@ == splice(before, at as int, le_bytes(v as nat, n as nat).take(i as int)),
            le_bytes(rest as nat, (n - i) as nat) == le_bytes(v as nat, n as nat).skip(i as int),
        decreases n - i,
    {
        let ghost all = le_bytes(v as nat, n as nat);
        let b: u8 = (rest % 256) as u8;
        proof {
            let tail = le_bytes(rest as nat, (n - i) as nat);
            assert(tail =~= seq![b] + le_bytes((rest / 256) as nat, (n - i - 1) as nat));
            assert(all.skip(i as int)[0] == all[i as int]);
            assert(all[i as int] == b);
            assert(all.skip(i + 1) =~= all.skip(i as int).skip(1));
            assert(tail.skip(1) =~= le_bytes((rest / 256) as nat, (n - i - 1) as nat));
        }
        buf.set(at + i, b);
        proof {
            assert(splice(before, at as int, all.take(i as int)).update(at + i, b) =~= splice(
                before,
                at as int,
                all.take(i + 1),
            ));
        }
        rest = rest / 256;
        i += 1;
    }
    proof {
        assert(le_bytes(v as nat, n as nat).take(n as int) =~= le_bytes(v as nat, n as nat));
    }
}

/// Reads the `n` bytes of `buf` at `at` as one number.
pub fn get_le(buf: &[u8], at: usize, n: usize) -> (v: u64)
    requires
        at + n <= buf@.len(),
        n <= 8,
    ensures
        v == le_value(buf@.subrange(at as int, at + n)),
        v < pow(256, n as nat),
{
    assert(at + n <= buf.len());
    let mut i: usize = n;
    let mut v: u64 = 0;
    let ghost b = buf@.subrange(at as int, at + n);
    proof {
        lemma_le_value_bound(b);
        assert(b.skip(n as int) =~= Seq::<u8>::empty());
    }
    while i > 0
        invariant
            i <= n,
            n <= 8,
            at + n <= buf@.len(),
            at + n <= usize::MAX,
            b == buf@.subrange(at as int, at + n),
            v == le_value(b.skip(i as int)),
        decreases i,
    {
        i -= 1;
        proof {
            let tail = b.skip(i as int);
            assert(tail.skip(1) =~= b.skip(i + 1));
            assert(tail[0] == buf@[at + i]);
            lemma_le_value_bound(tail);
            lemma_widths();
            lemma_pow_monotone(tail.len(), 8);
        }
        v = buf[at + i] as u64 + 256 * v;
    }
    assert(b.skip(0) =~= b);
    v
}

proof fn lemma_pow_monotone(a: nat, b: nat)
    requires
        a <= b,
    ensures
        pow(256, a) <= pow(256, b),
    decreases b,
{
    if a < b {
        reveal(pow);
        lemma_pow_positive(256, (b - 1) as nat);
        assert(pow(256, b) == 256 * pow(256, (b - 1) as nat));
        lemma_pow_monotone(a, (b - 1) as nat);
    }
}

/// `s` with the bytes from `at` on replaced by `b`.
pub open spec fn splice(s: Seq<u8>, at: int, b: Seq<u8>) -> Seq<u8> {
    s.take(at) + b + s.skip(at + b.len())
}

} // verus!
