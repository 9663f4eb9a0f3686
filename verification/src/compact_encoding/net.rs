//! IPv4 addresses: four bytes, and a port behind them where there is one.

use vstd::prelude::*;

use super::{
    consumed, decode_uint, decode_uint16, encode_uint, encode_uint16, encode_uint8,
    lemma_uint_len, lemma_uint_roundtrip, lemma_wrote_twice, parse_uint,     preencode_uint, reserved, stalled, uint_bytes, uint_len, wrote, EncodingError, Result, State,
};
use crate::ip::{format_ipv4, ipv4_of, ipv4_text, law_ipv4_text_is_unique, parse_ipv4};
use crate::le::{le_bytes, le_value, lemma_le_bytes_len, lemma_le_roundtrip, lemma_widths, splice};
use crate::messages::{peers_view, Ipv4Peer};

verus! {

/// Accounts for an IPv4 address.
pub fn preencode_ipv4(state: &mut State, addr: &str)
    requires
        old(state).end + 4 <= usize::MAX,
    ensures
        reserved(*old(state), *final(state), 4),
{
    state.end += 4;
}

/// Writes the four bytes of an address in dotted decimal form.
pub fn encode_ipv4(state: &mut State, addr: &str) -> (r: Result<()>)
    requires
        old(state).start + 4 <= old(state).buffer@.len(),
    ensures
        match ipv4_of(addr@) {
            Some(o) => r == Ok::<(), EncodingError>(()) && wrote(*old(state), *final(state), o),
            None => r == Err::<(), EncodingError>(EncodingError::InvalidAddress) && *final(state)
                == *old(state),
        },
{
    match parse_ipv4(addr) {
        None => Err(EncodingError::InvalidAddress),
        Some(o) => {
            let ghost s0 = *state;
            encode_uint8(state, o[0]);
            let ghost s1 = *state;
            encode_uint8(state, o[1]);
            let ghost s2 = *state;
            encode_uint8(state, o[2]);
            let ghost s3 = *state;
            encode_uint8(state, o[3]);
            proof {
                lemma_wrote_twice(s0, s1, s2, seq![o[0]], seq![o[1]]);
                lemma_wrote_twice(s0, s2, s3, seq![o[0]] + seq![o[1]], seq![o[2]]);
                lemma_wrote_twice(
                    s0,
                    s3,
                    *state,
                    seq![o[0]] + seq![o[1]] + seq![o[2]],
                    seq![o[3]],
                );
                assert(seq![o[0]] + seq![o[1]] + seq![o[2]] + seq![o[3]] =~= o@);
            }
            Ok(())
        },
    }
}

/// Reads four bytes as an address in dotted decimal form.
pub fn decode_ipv4(state: &mut State) -> (r: Result<String>)
    ensures
        if old(state).rest().len() >= 4 {
            r matches Ok(v) && v@ == ipv4_text(old(state).rest().take(4)) && consumed(
                *old(state),
                *final(state),
                4,
            )
        } else {
            r == Err::<String, EncodingError>(EncodingError::OutOfBounds) && *final(state) == *old(
                state,
            )
        },
{
    if !state.has(4) {
        return Err(EncodingError::OutOfBounds);
    }
    let at: usize = state.start;
    let o: [u8; 4] = [
        state.buffer[at],
        state.buffer[at + 1],
        state.buffer[at + 2],
        state.buffer[at + 3],
    ];
    state.start = at + 4;
    proof {
        assert(o@ =~= old(state).rest().take(4));
        assert(state.rest() =~= old(state).rest().skip(4));
    }
    Ok(format_ipv4(&o))
}

/// Wire form of an address with its port.
pub open spec fn ipv4_address_bytes(o: Seq<u8>, port: u16) -> Seq<u8> {
    o + le_bytes(port as nat, 2)
}

/// Accounts for an IPv4 address with its port.
pub fn preencode_ipv4_address(state: &mut State, host: &str, port: u16)
    requires
        old(state).end + 6 <= usize::MAX,
    ensures
        reserved(*old(state), *final(state), 6),
{
    state.end += 6;
}

/// Writes an IPv4 address and its port.
pub fn encode_ipv4_address(state: &mut State, host: &str, port: u16) -> (r: Result<()>)
    requires
        old(state).start + 6 <= old(state).buffer@.len(),
    ensures
        match ipv4_of(host@) {
            Some(o) => r == Ok::<(), EncodingError>(()) && wrote(
                *old(state),
                *final(state),
                ipv4_address_bytes(o, port),
            ),
            None => r == Err::<(), EncodingError>(EncodingError::InvalidAddress) && *final(state)
                == *old(state),
        },
{
    let ghost s0 = *state;
    match encode_ipv4(state, host) {
        Err(e) => Err(e),
        Ok(_) => {
            let ghost s1 = *state;
            proof {
                lemma_ipv4_of_len(host@);
            }
            encode_uint16(state, port);
            proof {
                lemma_le_bytes_len(port as nat, 2);
                lemma_wrote_twice(
                    s0,
                    s1,
                    *state,
                    ipv4_of(host@)->0,
                    le_bytes(port as nat, 2),
                );
            }
            Ok(())
        },
    }
}

/// An address has four bytes.
pub proof fn lemma_ipv4_of_len(text: Seq<char>)
    ensures
        ipv4_of(text) matches Some(o) ==> o.len() == 4 && ipv4_text(o) == text,
{
}

/// The address with port at the front of `r`, and its length.
pub open spec fn parse_ipv4_address(r: Seq<u8>) -> Option<((Seq<char>, u16), int)> {
    if r.len() >= 6 {
        Some(((ipv4_text(r.take(4)), le_value(r.subrange(4, 6)) as u16), 6))
    } else {
        None
    }
}

/// An address that was written is read back, whatever follows it.
pub proof fn law_ipv4_address_roundtrip(o: Seq<u8>, port: u16, tail: Seq<u8>)
    requires
        o.len() == 4,
    ensures
        parse_ipv4_address(ipv4_address_bytes(o, port) + tail) == Some(((ipv4_text(o), port), 6int)),
        ipv4_of(ipv4_text(o)) == Some(o),
        ipv4_address_bytes(o, port).len() == 6,
{
    lemma_le_bytes_len(port as nat, 2);
    lemma_widths();
    lemma_le_roundtrip(port as nat, 2);
    law_ipv4_text_is_unique(o, o);
    let r = ipv4_address_bytes(o, port) + tail;
    assert(r.take(4) =~= o);
    assert(r.subrange(4, 6) =~= le_bytes(port as nat, 2));
}

/// Reads an IPv4 address and its port.
pub fn decode_ipv4_address(state: &mut State) -> (r: Result<(String, u16)>)
    ensures
        match parse_ipv4_address(old(state).rest()) {
            Some((a, n)) => r matches Ok((host, port)) && (host@, port) == a && consumed(
                *old(state),
                *final(state),
                n,
            ),
            None => r == Err::<(String, u16), EncodingError>(EncodingError::OutOfBounds) && stalled(
                *old(state),
                *final(state),
            ),
        },
{
    let ghost r0 = state.rest();
    let host = match decode_ipv4(state) {
        Ok(h) => h,
        Err(e) => {
            return Err(e);
        },
    };
    match decode_uint16(state) {
        Ok(port) => {
            proof {
                assert(r0.skip(4).take(2) =~= r0.subrange(4, 6));
                assert(r0.skip(4).skip(2) =~= r0.skip(6));
            }
            Ok((host, port))
        },
        Err(e) => Err(e),
    }
}

// ── Lists of peers ───────────────────────────────────────────────────────────

/// Whether every host of the list is an IPv4 address.
pub open spec fn all_ipv4(s: Seq<(Seq<char>, u16)>) -> bool {
    forall|i: int| 0 <= i < s.len() ==> ipv4_of((#[trigger] s[i]).0) is Some
}

/// The wire forms of peers one after the other.
pub open spec fn peers_bytes(s: Seq<(Seq<char>, u16)>) -> Seq<u8>
    decreases s.len(),
{
    if s.len() == 0 {
        Seq::empty()
    } else {
        peers_bytes(s.drop_last()) + ipv4_address_bytes(ipv4_of(s.last().0)->0, s.last().1)
    }
}

/// Wire form of a list of peers: their number, then the peers.
pub open spec fn peer_array_bytes(s: Seq<(Seq<char>, u16)>) -> Seq<u8> {
    uint_bytes(s.len() as u64) + peers_bytes(s)
}

/// The first `n` peers of `r`, six bytes each.
pub open spec fn parse_peers(r: Seq<u8>, n: nat) -> Option<Seq<(Seq<char>, u16)>>
    decreases n,
{
    if n == 0 {
        Some(Seq::empty())
    } else {
        match parse_peers(r, (n - 1) as nat) {
            Some(s) => match parse_ipv4_address(r.skip(6 * (n - 1))) {
                Some((a, _)) => Some(s.push(a)),
                None => None,
            },
            None => None,
        }
    }
}

/// The list of peers at the front of `r`, and its length.
pub open spec fn parse_peer_array(r: Seq<u8>) -> Option<(Seq<(Seq<char>, u16)>, int)> {
    match parse_uint(r) {
        Some((n, k)) => match parse_peers(r.skip(k), n as nat) {
            Some(s) => Some((s, k + 6 * n)),
            None => None,
        },
        None => None,
    }
}

proof fn lemma_parse_peers_none(r: Seq<u8>, m: nat, n: nat)
    requires
        m <= n,
        parse_peers(r, m) is None,
    ensures
        parse_peers(r, n) is None,
    decreases n,
{
    if m < n {
        lemma_parse_peers_none(r, m, (n - 1) as nat);
    }
}

/// Each peer takes six bytes.
pub proof fn lemma_peers_len(s: Seq<(Seq<char>, u16)>)
    requires
        all_ipv4(s),
    ensures
        peers_bytes(s).len() == 6 * s.len(),
    decreases s.len(),
{
    if s.len() > 0 {
        let t = s.drop_last();
        assert(forall|i: int| 0 <= i < t.len() ==> t[i] == s[i]);
        lemma_peers_len(t);
        assert(ipv4_of(s[s.len() - 1].0) is Some);
        lemma_ipv4_of_len(s.last().0);
        lemma_le_bytes_len(s.last().1 as nat, 2);
    }
}

proof fn lemma_peers_roundtrip(s: Seq<(Seq<char>, u16)>, tail: Seq<u8>)
    requires
        all_ipv4(s),
    ensures
        parse_peers(peers_bytes(s) + tail, s.len()) == Some(s),
    decreases s.len(),
{
    if s.len() > 0 {
        let t = s.drop_last();
        assert(forall|i: int| 0 <= i < t.len() ==> t[i] == s[i]);
        assert(ipv4_of(s[s.len() - 1].0) is Some);
        lemma_ipv4_of_len(s.last().0);
        let o = ipv4_of(s.last().0)->0;
        let rest = ipv4_address_bytes(o, s.last().1) + tail;
        lemma_peers_roundtrip(t, rest);
        lemma_peers_len(t);
        law_ipv4_address_roundtrip(o, s.last().1, tail);
        let r = peers_bytes(s) + tail;
        assert(r =~= peers_bytes(t) + rest);
        assert(r.skip(6 * (s.len() - 1)) =~= rest);
        assert(t.push(s.last()) =~= s);
    } else {
        assert(s =~= Seq::empty());
    }
}

/// A list of peers that was written is read back, whatever follows it.
pub proof fn law_peer_array_roundtrip(s: Seq<(Seq<char>, u16)>, tail: Seq<u8>)
    requires
        all_ipv4(s),
        s.len() <= u64::MAX,
    ensures
        parse_peer_array(peer_array_bytes(s) + tail) == Some((s, peer_array_bytes(s).len() as int)),
{
    let n = s.len() as u64;
    lemma_uint_roundtrip(n, peers_bytes(s) + tail);
    lemma_uint_len(n);
    lemma_peers_len(s);
    lemma_peers_roundtrip(s, tail);
    let r = peer_array_bytes(s) + tail;
    assert(r =~= uint_bytes(n) + (peers_bytes(s) + tail));
}

/// Accounts for a list of peers.
pub fn preencode_peer_array(state: &mut State, peers: &Vec<Ipv4Peer>)
    requires
        old(state).end + uint_len(peers@.len() as u64) + 6 * peers@.len() <= usize::MAX,
    ensures
        reserved(*old(state), *final(state), uint_len(peers@.len() as u64) + 6 * peers@.len()),
{
    preencode_uint(state, peers.len() as u64);
    state.end += 6 * peers.len();
}

/// The number of peers and the first `k` of them were written; the next one's host is not an IPv4
/// address.
pub open spec fn wrote_until(
    before: State,
    after: State,
    s: Seq<(Seq<char>, u16)>,
    k: int,
) -> bool {
    &&& 0 <= k < s.len()
    &&& all_ipv4(s.take(k))
    &&& ipv4_of(s[k].0) is None
    &&& wrote(before, after, uint_bytes(s.len() as u64) + peers_bytes(s.take(k)))
}

/// Writes a list of peers. A host that is not an IPv4 address is an error, found when the peers
/// before it are written.
pub fn encode_peer_array(state: &mut State, peers: &Vec<Ipv4Peer>) -> (r: Result<()>)
    requires
        old(state).start + uint_len(peers@.len() as u64) + 6 * peers@.len() <= old(
            state,
        ).buffer@.len(),
    ensures
        if all_ipv4(peers_view(peers@)) {
            r == Ok::<(), EncodingError>(()) && wrote(
                *old(state),
                *final(state),
                peer_array_bytes(peers_view(peers@)),
            )
        } else {
            r == Err::<(), EncodingError>(EncodingError::InvalidAddress) && exists|k: int|
                #[trigger] wrote_until(*old(state), *final(state), peers_view(peers@), k)
        },
{
    let ghost ps = peers_view(peers@);
    proof {
        lemma_uint_len(peers@.len() as u64);
    }
    let ghost s0 = *state;
    encode_uint(state, peers.len() as u64);
    let ghost s1 = *state;
    let mut i: usize = 0;
    assert(peers_bytes(ps.take(0)) =~= Seq::empty());
    assert(splice(s1.buffer@, s1.start as int, Seq::<u8>::empty()) =~= s1.buffer@);
    while i < peers.len()
        invariant
            i <= peers@.len(),
            ps == peers_view(peers@),
            all_ipv4(ps.take(i as int)),
            s1.start + 6 * peers@.len() <= s1.buffer@.len(),
            s0 == *old(state),
            wrote(s0, s1, uint_bytes(peers@.len() as u64)),
            s0.start + uint_len(peers@.len() as u64) + 6 * peers@.len() <= s0.buffer@.len(),
            wrote(s1, *state, peers_bytes(ps.take(i as int))),
        decreases peers@.len() - i,
    {
        let ghost s2 = *state;
        proof {
            lemma_peers_len(ps.take(i as int));
            assert(ps[i as int] == peers@[i as int]@);
            lemma_ipv4_of_len(peers@[i as int].host@);
            lemma_le_bytes_len(peers@[i as int].port as nat, 2);
        }
        match encode_ipv4_address(state, peers[i].host.as_str(), peers[i].port) {
            Err(e) => {
                proof {
                    assert(ipv4_of(ps[i as int].0) is None);
                    lemma_uint_len(peers@.len() as u64);
                    lemma_wrote_twice(
                        s0,
                        s1,
                        *state,
                        uint_bytes(peers@.len() as u64),
                        peers_bytes(ps.take(i as int)),
                    );
                    assert(wrote_until(s0, *state, ps, i as int));
                }
                return Err(e);
            },
            Ok(_) => {},
        }
        proof {
            let t = ps.take(i + 1);
            assert(t.drop_last() =~= ps.take(i as int));
            assert forall|j: int| 0 <= j < t.len() implies ipv4_of((#[trigger] t[j]).0) is Some by {
                if j < i {
                    assert(t[j] == ps.take(i as int)[j]);
                }
            }
            lemma_wrote_twice(
                s1,
                s2,
                *state,
                peers_bytes(ps.take(i as int)),
                ipv4_address_bytes(ipv4_of(ps[i as int].0)->0, ps[i as int].1),
            );
        }
        i += 1;
    }
    proof {
        assert(ps.take(ps.len() as int) =~= ps);
        lemma_peers_len(ps);
        lemma_wrote_twice(s0, s1, *state, uint_bytes(peers@.len() as u64), peers_bytes(ps));
    }
    Ok(())
}

/// Reads a list of peers.
pub fn decode_peer_array(state: &mut State) -> (r: Result<Vec<Ipv4Peer>>)
    ensures
        match parse_peer_array(old(state).rest()) {
            Some((s, n)) => r matches Ok(v) && peers_view(v@) == s && consumed(
                *old(state),
                *final(state),
                n,
            ),
            None => r == Err::<Vec<Ipv4Peer>, EncodingError>(EncodingError::OutOfBounds) && stalled(
                *old(state),
                *final(state),
            ),
        },
{
    let ghost s0 = *state;
    let n: u64 = match decode_uint(state) {
        Ok(n) => n,
        Err(e) => {
            return Err(e);
        },
    };
    let ghost s1 = *state;
    let mut v: Vec<Ipv4Peer> = Vec::new();
    let mut i: u64 = 0;
    assert(s1.rest().skip(0) =~= s1.rest());
    assert(peers_view(v@) =~= Seq::empty());
    while i < n
        invariant
            i <= n,
            s1.start >= s0.start,
            s1.end == s0.end,
            s1.buffer@ == s0.buffer@,
            consumed(s1, *state, 6 * i),
            parse_peers(s1.rest(), i as nat) == Some(peers_view(v@)),
            parse_uint(s0.rest()) matches Some((c, l)) && c == n && consumed(s0, s1, l),
            s0 == *old(state),
        decreases n - i,
    {
        let ghost before = v@;
        match decode_ipv4_address(state) {
            Ok((host, port)) => {
                proof {
                    assert(s1.rest().skip(6 * i).skip(6) =~= s1.rest().skip(6 * (i + 1)));
                }
                let p = Ipv4Peer { host, port };
                let ghost a = p@;
                v.push(p);
                assert(peers_view(v@) =~= peers_view(before).push(a));
            },
            Err(e) => {
                proof {
                    assert(parse_peers(s1.rest(), (i + 1) as nat) is None);
                    lemma_parse_peers_none(s1.rest(), (i + 1) as nat, n as nat);
                }
                return Err(e);
            },
        }
        i += 1;
    }
    proof {
        let (_, l) = parse_uint(s0.rest())->0;
        assert(s0.rest().skip(l).skip(6 * n) =~= s0.rest().skip(l + 6 * n));
    }
    Ok(v)
}

} // verus!
