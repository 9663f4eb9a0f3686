//! IPv6 addresses, and addresses of either family behind a byte that names it.

use vstd::prelude::*;
use vstd::utf8::encode_utf8;

use super::net::{decode_ipv4, encode_ipv4, lemma_ipv4_of_len};
use super::{
    consumed, encode_uint8, lemma_wrote_twice, put_bytes, reserved, stalled, wrote, EncodingError,
    Result, State,
};
use crate::ascii::lemma_ascii_utf8;
use crate::ip::{ipv4_of, ipv4_text, law_ipv4_text_is_unique};
use crate::ip6::{
    format_ipv6, ipv6_bytes, ipv6_groups, ipv6_text, joined, law_ipv6_roundtrip, parse_ipv6,
};

verus! {

/// The groups of the address that a text stands for.
pub open spec fn ipv6_of(text: Seq<char>) -> Option<Seq<u16>> {
    ipv6_groups(encode_utf8(text))
}

/// Wire form of an address: each group as two bytes, the high one first.
pub open spec fn group_bytes(g: Seq<u16>) -> Seq<u8> {
    Seq::new(
        16,
        |i: int|
            if i % 2 == 0 {
                (g[i / 2] / 256) as u8
            } else {
                (g[i / 2] % 256) as u8
            },
    )
}

/// The groups that sixteen bytes hold.
pub open spec fn bytes_groups(b: Seq<u8>) -> Seq<u16> {
    Seq::new(8, |i: int| joined(b[2 * i], b[2 * i + 1]))
}

proof fn lemma_group_bytes(g: Seq<u16>)
    requires
        g.len() == 8,
    ensures
        bytes_groups(group_bytes(g)) == g,
{
    let b = group_bytes(g);
    assert forall|i: int| 0 <= i < 8 implies bytes_groups(b)[i] == g[i] by {
        assert(2 * i / 2 == i && (2 * i + 1) / 2 == i);
        assert(b[2 * i] == (g[i] / 256) as u8);
        assert(b[2 * i + 1] == (g[i] % 256) as u8);
    }
    assert(bytes_groups(b) =~= g);
}

/// An IPv6 address that was written is read back in its canonical form, whatever follows it. The
/// canonical form stands for the same address.
pub proof fn law_ipv6_wire_roundtrip(g: Seq<u16>, tail: Seq<u8>)
    requires
        g.len() == 8,
    ensures
        bytes_groups((group_bytes(g) + tail).take(16)) == g,
        ipv6_of(ipv6_text(g)) == Some(g),
{
    lemma_group_bytes(g);
    assert((group_bytes(g) + tail).take(16) =~= group_bytes(g));
    law_ipv6_roundtrip(g);
    lemma_ascii_utf8(ipv6_bytes(g));
}

/// Accounts for an IPv6 address.
pub fn preencode_ipv6(state: &mut State, addr: &str)
    requires
        old(state).end + 16 <= usize::MAX,
    ensures
        reserved(*old(state), *final(state), 16),
{
    state.end += 16;
}

/// Writes the sixteen bytes of an IPv6 address.
pub fn encode_ipv6(state: &mut State, addr: &str) -> (r: Result<()>)
    requires
        old(state).start + 16 <= old(state).buffer@.len(),
    ensures
        match ipv6_of(addr@) {
            Some(g) => r == Ok::<(), EncodingError>(()) && wrote(
                *old(state),
                *final(state),
                group_bytes(g),
            ),
            None => r == Err::<(), EncodingError>(EncodingError::InvalidAddress) && *final(state)
                == *old(state),
        },
{
    match parse_ipv6(addr) {
        None => Err(EncodingError::InvalidAddress),
        Some(g) => {
            let mut b: Vec<u8> = Vec::new();
            let mut i: usize = 0;
            while i < 8
                invariant
                    i <= 8,
                    b@ =~= group_bytes(g@).take(2 * i),
                decreases 8 - i,
            {
                b.push((g[i] / 256) as u8);
                b.push((g[i] % 256) as u8);
                i += 1;
            }
            assert(group_bytes(g@).take(16) =~= group_bytes(g@));
            put_bytes(state, b.as_slice());
            Ok(())
        },
    }
}

/// Reads sixteen bytes as an IPv6 address in its canonical form.
pub fn decode_ipv6(state: &mut State) -> (r: Result<String>)
    ensures
        if old(state).rest().len() >= 16 {
            r matches Ok(v) && v@ == ipv6_text(bytes_groups(old(state).rest().take(16)))
                && consumed(*old(state), *final(state), 16)
        } else {
            r == Err::<String, EncodingError>(EncodingError::OutOfBounds) && *final(state) == *old(
                state,
            )
        },
{
    if !state.has(16) {
        return Err(EncodingError::OutOfBounds);
    }
    let at: usize = state.start;
    let ghost rest = state.rest();
    let mut g: [u16; 8] = [0u16; 8];
    let mut i: usize = 0;
    while i < 8
        invariant
            i <= 8,
            at == state.start,
            state.start + 16 <= state.end <= state.buffer@.len(),
            rest == state.rest(),
            *state == *old(state),
            forall|k: int| 0 <= k < i ==> (#[trigger] g@[k]) == bytes_groups(rest.take(16))[k],
        decreases 8 - i,
    {
        let hi: u8 = state.buffer[at + 2 * i];
        let lo: u8 = state.buffer[at + 2 * i + 1];
        proof {
            assert(rest.take(16)[2 * i] == hi);
            assert(rest.take(16)[2 * i + 1] == lo);
        }
        g[i] = 256 * (hi as u16) + lo as u16;
        i += 1;
    }
    state.start = at + 16;
    proof {
        assert(g@ =~= bytes_groups(rest.take(16)));
        assert(state.rest() =~= rest.skip(16));
    }
    Ok(format_ipv6(&g))
}

// ── Either family ────────────────────────────────────────────────────────────

/// Whether a text is taken for an IPv6 address: it holds a colon.
pub open spec fn has_colon(text: Seq<char>) -> bool {
    encode_utf8(text).contains(58u8)
}

/// The byte that names the family of an address.
pub open spec fn family(text: Seq<char>) -> u8 {
    if has_colon(text) {
        6
    } else {
        4
    }
}

/// Length of the wire form of an address of either family.
pub open spec fn ip_len(text: Seq<char>) -> int {
    if has_colon(text) {
        17
    } else {
        5
    }
}

/// Wire form of an address of either family: the family, then the address.
pub open spec fn ip_bytes(text: Seq<char>) -> Option<Seq<u8>> {
    if has_colon(text) {
        match ipv6_of(text) {
            Some(g) => Some(seq![6u8] + group_bytes(g)),
            None => None,
        }
    } else {
        match ipv4_of(text) {
            Some(o) => Some(seq![4u8] + o),
            None => None,
        }
    }
}

/// The address at the front of `r` and its length, or why there is none.
pub open spec fn parse_ip(r: Seq<u8>) -> Result<(Seq<char>, int)> {
    if r.len() == 0 {
        Err(EncodingError::OutOfBounds)
    } else if r[0] == 4 {
        if r.len() >= 5 {
            Ok((ipv4_text(r.subrange(1, 5)), 5))
        } else {
            Err(EncodingError::OutOfBounds)
        }
    } else if r[0] == 6 {
        if r.len() >= 17 {
            Ok((ipv6_text(bytes_groups(r.subrange(1, 17))), 17))
        } else {
            Err(EncodingError::OutOfBounds)
        }
    } else {
        Err(EncodingError::UnknownFamily)
    }
}

/// An address of either family that was written is read back, whatever follows it: an IPv4 address
/// as it was written, an IPv6 address in its canonical form.
pub proof fn law_ip_roundtrip(text: Seq<char>, tail: Seq<u8>)
    requires
        ip_bytes(text) is Some,
    ensures
        ip_bytes(text)->0.len() == ip_len(text),
        parse_ip(ip_bytes(text)->0 + tail) == (if has_colon(text) {
            Ok::<(Seq<char>, int), EncodingError>((ipv6_text(ipv6_of(text)->0), 17int))
        } else {
            Ok::<(Seq<char>, int), EncodingError>((text, 5int))
        }),
{
    let r = ip_bytes(text)->0 + tail;
    if has_colon(text) {
        let g = ipv6_of(text)->0;
        lemma_ipv6_of_len(text);
        lemma_group_bytes(g);
        assert(r.subrange(1, 17) =~= group_bytes(g));
    } else {
        let o = ipv4_of(text)->0;
        lemma_ipv4_of_len(text);
        law_ipv4_text_is_unique(o, o);
        assert(r.subrange(1, 5) =~= o);
    }
}

/// An IPv6 address has eight groups.
proof fn lemma_ipv6_of_len(text: Seq<char>)
    ensures
        ipv6_of(text) matches Some(g) ==> g.len() == 8,
{
}

fn find_family(addr: &str) -> (r: bool)
    ensures
        r == has_colon(addr@),
{
    let b = addr.as_bytes();
    let mut i: usize = 0;
    while i < b.len()
        invariant
            i <= b@.len(),
            b@ == encode_utf8(addr@),
            forall|k: int| 0 <= k < i ==> (#[trigger] b@[k]) != 58,
        decreases b@.len() - i,
    {
        if b[i] == 58 {
            assert(b@[i as int] == 58);
            return true;
        }
        i += 1;
    }
    false
}

/// Accounts for an address of either family.
pub fn preencode_ip(state: &mut State, addr: &str)
    requires
        old(state).end + ip_len(addr@) <= usize::MAX,
    ensures
        reserved(*old(state), *final(state), ip_len(addr@)),
{
    if find_family(addr) {
        state.end += 17;
    } else {
        state.end += 5;
    }
}

/// Writes the family of an address and the address. Of a text that is no address only the family
/// is written.
pub fn encode_ip(state: &mut State, addr: &str) -> (r: Result<()>)
    requires
        old(state).start + ip_len(addr@) <= old(state).buffer@.len(),
    ensures
        match ip_bytes(addr@) {
            Some(b) => r == Ok::<(), EncodingError>(()) && wrote(*old(state), *final(state), b),
            None => r == Err::<(), EncodingError>(EncodingError::InvalidAddress) && wrote(
                *old(state),
                *final(state),
                seq![family(addr@)],
            ),
        },
{
    let ghost s0 = *state;
    if find_family(addr) {
        encode_uint8(state, 6);
        let ghost s1 = *state;
        match encode_ipv6(state, addr) {
            Ok(_) => {
                proof {
                    lemma_wrote_twice(s0, s1, *state, seq![6u8], group_bytes(ipv6_of(addr@)->0));
                }
                Ok(())
            },
            Err(e) => Err(e),
        }
    } else {
        encode_uint8(state, 4);
        let ghost s1 = *state;
        match encode_ipv4(state, addr) {
            Ok(_) => {
                proof {
                    lemma_ipv4_of_len(addr@);
                    lemma_wrote_twice(s0, s1, *state, seq![4u8], ipv4_of(addr@)->0);
                }
                Ok(())
            },
            Err(e) => Err(e),
        }
    }
}

/// Reads an address of either family.
pub fn decode_ip(state: &mut State) -> (r: Result<String>)
    ensures
        match parse_ip(old(state).rest()) {
            Ok((text, n)) => r matches Ok(v) && v@ == text && consumed(
                *old(state),
                *final(state),
                n,
            ),
            Err(e) => r == Err::<String, EncodingError>(e) && stalled(*old(state), *final(state)),
        },
{
    let ghost r0 = state.rest();
    if !state.has(1) {
        return Err(EncodingError::OutOfBounds);
    }
    let family: u8 = state.buffer[state.start];
    state.start += 1;
    proof {
        assert(state.rest() =~= r0.skip(1));
        assert(r0[0] == family);
    }
    if family == 4 {
        let r = decode_ipv4(state);
        proof {
            if r0.len() >= 5 {
                assert(r0.skip(1).take(4) =~= r0.subrange(1, 5));
                assert(r0.skip(1).skip(4) =~= r0.skip(5));
            }
        }
        r
    } else if family == 6 {
        let r = decode_ipv6(state);
        proof {
            if r0.len() >= 17 {
                assert(r0.skip(1).take(16) =~= r0.subrange(1, 17));
                assert(r0.skip(1).skip(16) =~= r0.skip(17));
            }
        }
        r
    } else {
        Err(EncodingError::UnknownFamily)
    }
}

} // verus!
