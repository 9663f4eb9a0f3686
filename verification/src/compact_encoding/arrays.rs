//! Lists of integers and texts: their number, then the items.

use vstd::prelude::*;
use vstd::utf8::{decode_utf8, encode_utf8, encode_utf8_decode_utf8, encode_utf8_valid_utf8, valid_utf8};

use super::{
    consumed, counted, decode_string, decode_uint, encode_string, encode_uint, lemma_counted_roundtrip,
    lemma_uint_len, lemma_uint_roundtrip, lemma_wrote_twice, parse_counted, parse_uint,
    preencode_string, preencode_uint, reserved, stalled, uint_bytes, wrote,
    EncodingError, Result, State,
};

verus! {

/// The wire forms of integers one after the other.
pub open spec fn uints_bytes(s: Seq<u64>) -> Seq<u8>
    decreases s.len(),
{
    if s.len() == 0 {
        Seq::empty()
    } else {
        uints_bytes(s.drop_last()) + uint_bytes(s.last())
    }
}

/// Wire form of a list of integers.
pub open spec fn uint_array_bytes(s: Seq<u64>) -> Seq<u8> {
    uint_bytes(s.len() as u64) + uints_bytes(s)
}

/// The first `n` integers of `r`, and their length.
pub open spec fn parse_uints(r: Seq<u8>, n: nat) -> Option<(Seq<u64>, int)>
    decreases n,
{
    if n == 0 {
        Some((Seq::empty(), 0))
    } else {
        match parse_uints(r, (n - 1) as nat) {
            Some((s, k)) => match parse_uint(r.skip(k)) {
                Some((v, l)) => Some((s.push(v), k + l)),
                None => None,
            },
            None => None,
        }
    }
}

/// The list of integers at the front of `r`, and its length.
pub open spec fn parse_uint_array(r: Seq<u8>) -> Option<(Seq<u64>, int)> {
    match parse_uint(r) {
        Some((n, k)) => match parse_uints(r.skip(k), n as nat) {
            Some((s, l)) => Some((s, k + l)),
            None => None,
        },
        None => None,
    }
}

proof fn lemma_uints_prefix(s: Seq<u64>, i: int)
    requires
        0 <= i <= s.len(),
    ensures
        uints_bytes(s.take(i)).len() <= uints_bytes(s).len(),
    decreases s.len(),
{
    if i == s.len() {
        assert(s.take(i) =~= s);
    } else {
        assert(s.drop_last().take(i) =~= s.take(i));
        lemma_uints_prefix(s.drop_last(), i);
    }
}

/// Where fewer integers can be read than asked for, more cannot be read either.
proof fn lemma_parse_uints_none(r: Seq<u8>, m: nat, n: nat)
    requires
        m <= n,
        parse_uints(r, m) is None,
    ensures
        parse_uints(r, n) is None,
    decreases n,
{
    if m < n {
        lemma_parse_uints_none(r, m, (n - 1) as nat);
    }
}

proof fn lemma_uints_roundtrip(s: Seq<u64>, tail: Seq<u8>)
    ensures
        parse_uints(uints_bytes(s) + tail, s.len()) == Some((s, uints_bytes(s).len() as int)),
    decreases s.len(),
{
    if s.len() > 0 {
        let t = s.drop_last();
        let rest = uint_bytes(s.last()) + tail;
        lemma_uints_roundtrip(t, rest);
        lemma_uint_roundtrip(s.last(), tail);
        lemma_uint_len(s.last());
        let r = uints_bytes(s) + tail;
        assert(r =~= uints_bytes(t) + rest);
        assert(r.skip(uints_bytes(t).len() as int) =~= rest);
        assert(t.push(s.last()) =~= s);
    } else {
        assert(s =~= Seq::empty());
    }
}

/// A list of integers that was written is read back, whatever follows it.
pub proof fn law_uint_array_roundtrip(s: Seq<u64>, tail: Seq<u8>)
    requires
        s.len() <= u64::MAX,
    ensures
        parse_uint_array(uint_array_bytes(s) + tail) == Some(
            (s, uint_array_bytes(s).len() as int),
        ),
{
    let n = s.len() as u64;
    lemma_uint_roundtrip(n, uints_bytes(s) + tail);
    lemma_uint_len(n);
    lemma_uints_roundtrip(s, tail);
    let r = uint_array_bytes(s) + tail;
    assert(r =~= uint_bytes(n) + (uints_bytes(s) + tail));
}

/// Accounts for a list of integers.
pub fn preencode_uint_array(state: &mut State, v: &[u64])
    requires
        old(state).end + uint_array_bytes(v@).len() <= usize::MAX,
    ensures
        reserved(*old(state), *final(state), uint_array_bytes(v@).len() as int),
{
    proof {
        lemma_uint_len(v@.len() as u64);
    }
    let ghost s0 = *state;
    preencode_uint(state, v.len() as u64);
    let ghost s1 = *state;
    let mut i: usize = 0;
    assert(uints_bytes(v@.take(0)) =~= Seq::empty());
    while i < v.len()
        invariant
            i <= v@.len(),
            s1.end + uints_bytes(v@).len() <= usize::MAX,
            reserved(s1, *state, uints_bytes(v@.take(i as int)).len() as int),
        decreases v@.len() - i,
    {
        proof {
            assert(v@.take(i + 1).drop_last() =~= v@.take(i as int));
            lemma_uints_prefix(v@, i + 1);
            lemma_uint_len(v@[i as int]);
        }
        preencode_uint(state, v[i]);
        i += 1;
    }
    assert(v@.take(v@.len() as int) =~= v@);
}

/// Writes a list of integers.
pub fn encode_uint_array(state: &mut State, v: &[u64])
    requires
        old(state).start + uint_array_bytes(v@).len() <= old(state).buffer@.len(),
    ensures
        wrote(*old(state), *final(state), uint_array_bytes(v@)),
{
    proof {
        lemma_uint_len(v@.len() as u64);
    }
    let ghost s0 = *state;
    encode_uint(state, v.len() as u64);
    let ghost s1 = *state;
    let mut i: usize = 0;
    assert(uints_bytes(v@.take(0)) =~= Seq::empty());
    assert(crate::le::splice(s1.buffer@, s1.start as int, Seq::<u8>::empty()) =~= s1.buffer@);
    while i < v.len()
        invariant
            i <= v@.len(),
            s1.start + uints_bytes(v@).len() <= s1.buffer@.len(),
            wrote(s1, *state, uints_bytes(v@.take(i as int))),
        decreases v@.len() - i,
    {
        let ghost s2 = *state;
        proof {
            assert(v@.take(i + 1).drop_last() =~= v@.take(i as int));
            lemma_uints_prefix(v@, i + 1);
            lemma_uint_len(v@[i as int]);
        }
        encode_uint(state, v[i]);
        proof {
            lemma_wrote_twice(
                s1,
                s2,
                *state,
                uints_bytes(v@.take(i as int)),
                uint_bytes(v@[i as int]),
            );
        }
        i += 1;
    }
    proof {
        assert(v@.take(v@.len() as int) =~= v@);
        lemma_wrote_twice(s0, s1, *state, uint_bytes(v@.len() as u64), uints_bytes(v@));
    }
}

/// Reads a list of integers.
pub fn decode_uint_array(state: &mut State) -> (r: Result<Vec<u64>>)
    ensures
        match parse_uint_array(old(state).rest()) {
            Some((s, n)) => r matches Ok(v) && v@ == s && consumed(*old(state), *final(state), n),
            None => r == Err::<Vec<u64>, EncodingError>(EncodingError::OutOfBounds) && stalled(
                *old(state),
                *final(state),
            ),
        },
{
    let ghost s0 = *state;
    let n: u64 = match decode_uint(state) {
        Ok(n) => n,
        Err(e) => {
            return Err(e);
        },
    };
    let ghost s1 = *state;
    let mut v: Vec<u64> = Vec::new();
    let mut i: u64 = 0;
    let ghost mut k: int = 0;
    assert(s1.rest().skip(0) =~= s1.rest());
    while i < n
        invariant
            i <= n,
            s1.start >= s0.start,
            s1.end == s0.end,
            s1.buffer@ == s0.buffer@,
            consumed(s1, *state, k),
            parse_uints(s1.rest(), i as nat) == Some((v@, k)),
            parse_uint(s0.rest()) matches Some((c, l)) && c == n && consumed(s0, s1, l),
            s0 == *old(state),
        decreases n - i,
    {
        let ghost s2 = *state;
        match decode_uint(state) {
            Ok(x) => {
                proof {
                    let (_, l) = parse_uint(s1.rest().skip(k))->0;
                    assert(s1.rest().skip(k).skip(l) =~= s1.rest().skip(k + l));
                    k = k + l;
                }
                v.push(x);
            },
            Err(e) => {
                proof {
                    assert(parse_uints(s1.rest(), (i + 1) as nat) is None);
                    lemma_parse_uints_none(s1.rest(), (i + 1) as nat, n as nat);
                }
                return Err(e);
            },
        }
        i += 1;
    }
    proof {
        let (_, l) = parse_uint(s0.rest())->0;
        assert(s0.rest().skip(l).skip(k) =~= s0.rest().skip(l + k));
    }
    Ok(v)
}

/// Views of a list of texts.
pub open spec fn texts(v: Seq<&str>) -> Seq<Seq<char>> {
    v.map_values(|s: &str| s@)
}

/// Views of a list of owned texts.
pub open spec fn strings(v: Seq<String>) -> Seq<Seq<char>> {
    v.map_values(|s: String| s@)
}

/// The wire forms of texts one after the other.
pub open spec fn strings_bytes(s: Seq<Seq<char>>) -> Seq<u8>
    decreases s.len(),
{
    if s.len() == 0 {
        Seq::empty()
    } else {
        strings_bytes(s.drop_last()) + counted(encode_utf8(s.last()))
    }
}

/// Wire form of a list of texts.
pub open spec fn string_array_bytes(s: Seq<Seq<char>>) -> Seq<u8> {
    uint_bytes(s.len() as u64) + strings_bytes(s)
}

/// The text at the front of `r`, and its length.
pub open spec fn parse_string(r: Seq<u8>) -> Option<(Seq<char>, int)> {
    match parse_counted(r) {
        Some((b, n)) => if valid_utf8(b) {
            Some((decode_utf8(b), n))
        } else {
            None
        },
        None => None,
    }
}

/// The first `n` texts of `r`, and their length.
pub open spec fn parse_strings(r: Seq<u8>, n: nat) -> Option<(Seq<Seq<char>>, int)>
    decreases n,
{
    if n == 0 {
        Some((Seq::empty(), 0))
    } else {
        match parse_strings(r, (n - 1) as nat) {
            Some((s, k)) => match parse_string(r.skip(k)) {
                Some((v, l)) => Some((s.push(v), k + l)),
                None => None,
            },
            None => None,
        }
    }
}

/// The list of texts at the front of `r`, and its length.
pub open spec fn parse_string_array(r: Seq<u8>) -> Option<(Seq<Seq<char>>, int)> {
    match parse_uint(r) {
        Some((n, k)) => match parse_strings(r.skip(k), n as nat) {
            Some((s, l)) => Some((s, k + l)),
            None => None,
        },
        None => None,
    }
}

/// Why fewer than `n` texts can be read from `r`: the first text that cannot be read is cut off or
/// is not UTF-8.
pub open spec fn strings_error(r: Seq<u8>, n: nat) -> EncodingError
    decreases n,
{
    if n == 0 {
        EncodingError::OutOfBounds
    } else {
        match parse_strings(r, (n - 1) as nat) {
            None => strings_error(r, (n - 1) as nat),
            Some((s, k)) => if parse_counted(r.skip(k)) is None {
                EncodingError::OutOfBounds
            } else {
                EncodingError::InvalidUtf8
            },
        }
    }
}

/// Why no list of texts can be read from `r`.
pub open spec fn string_array_error(r: Seq<u8>) -> EncodingError {
    match parse_uint(r) {
        Some((n, k)) => strings_error(r.skip(k), n as nat),
        None => EncodingError::OutOfBounds,
    }
}

proof fn lemma_strings_prefix(s: Seq<Seq<char>>, i: int)
    requires
        0 <= i <= s.len(),
    ensures
        strings_bytes(s.take(i)).len() <= strings_bytes(s).len(),
    decreases s.len(),
{
    if i == s.len() {
        assert(s.take(i) =~= s);
    } else {
        assert(s.drop_last().take(i) =~= s.take(i));
        lemma_strings_prefix(s.drop_last(), i);
    }
}

proof fn lemma_parse_strings_none(r: Seq<u8>, m: nat, n: nat)
    requires
        m <= n,
        parse_strings(r, m) is None,
    ensures
        parse_strings(r, n) is None,
        strings_error(r, n) == strings_error(r, m),
    decreases n,
{
    if m < n {
        lemma_parse_strings_none(r, m, (n - 1) as nat);
    }
}

proof fn lemma_strings_roundtrip(s: Seq<Seq<char>>, tail: Seq<u8>)
    requires
        forall|i: int| 0 <= i < s.len() ==> encode_utf8(#[trigger] s[i]).len() <= u64::MAX,
    ensures
        parse_strings(strings_bytes(s) + tail, s.len()) == Some((s, strings_bytes(s).len() as int)),
    decreases s.len(),
{
    if s.len() > 0 {
        let t = s.drop_last();
        assert(forall|i: int| 0 <= i < t.len() ==> t[i] == s[i]);
        let b = encode_utf8(s.last());
        assert(encode_utf8(s[s.len() - 1]).len() <= u64::MAX);
        let rest = counted(b) + tail;
        lemma_strings_roundtrip(t, rest);
        lemma_counted_roundtrip(b, tail);
        encode_utf8_valid_utf8(s.last());
        encode_utf8_decode_utf8(s.last());
        let r = strings_bytes(s) + tail;
        assert(r =~= strings_bytes(t) + rest);
        assert(r.skip(strings_bytes(t).len() as int) =~= rest);
        assert(t.push(s.last()) =~= s);
    } else {
        assert(s =~= Seq::empty());
    }
}

/// A list of texts that was written is read back, whatever follows it.
pub proof fn law_string_array_roundtrip(s: Seq<Seq<char>>, tail: Seq<u8>)
    requires
        s.len() <= u64::MAX,
        forall|i: int| 0 <= i < s.len() ==> encode_utf8(#[trigger] s[i]).len() <= u64::MAX,
    ensures
        parse_string_array(string_array_bytes(s) + tail) == Some(
            (s, string_array_bytes(s).len() as int),
        ),
{
    let n = s.len() as u64;
    lemma_uint_roundtrip(n, strings_bytes(s) + tail);
    lemma_uint_len(n);
    lemma_strings_roundtrip(s, tail);
    let r = string_array_bytes(s) + tail;
    assert(r =~= uint_bytes(n) + (strings_bytes(s) + tail));
}

/// Accounts for a list of texts.
pub fn preencode_string_array(state: &mut State, v: &[&str])
    requires
        old(state).end + string_array_bytes(texts(v@)).len() <= usize::MAX,
    ensures
        reserved(*old(state), *final(state), string_array_bytes(texts(v@)).len() as int),
{
    let ghost t = texts(v@);
    proof {
        lemma_uint_len(v@.len() as u64);
    }
    let ghost s0 = *state;
    preencode_uint(state, v.len() as u64);
    let ghost s1 = *state;
    let mut i: usize = 0;
    assert(strings_bytes(t.take(0)) =~= Seq::empty());
    while i < v.len()
        invariant
            i <= v@.len(),
            t == texts(v@),
            s1.end + strings_bytes(t).len() <= usize::MAX,
            reserved(s1, *state, strings_bytes(t.take(i as int)).len() as int),
        decreases v@.len() - i,
    {
        proof {
            assert(t.take(i + 1).drop_last() =~= t.take(i as int));
            assert(t.take(i + 1).last() == v@[i as int]@);
            lemma_strings_prefix(t, i + 1);
        }
        preencode_string(state, v[i]);
        i += 1;
    }
    assert(t.take(t.len() as int) =~= t);
}

/// Writes a list of texts.
pub fn encode_string_array(state: &mut State, v: &[&str])
    requires
        old(state).start + string_array_bytes(texts(v@)).len() <= old(state).buffer@.len(),
    ensures
        wrote(*old(state), *final(state), string_array_bytes(texts(v@))),
{
    let ghost t = texts(v@);
    proof {
        lemma_uint_len(v@.len() as u64);
    }
    let ghost s0 = *state;
    encode_uint(state, v.len() as u64);
    let ghost s1 = *state;
    let mut i: usize = 0;
    assert(strings_bytes(t.take(0)) =~= Seq::empty());
    assert(crate::le::splice(s1.buffer@, s1.start as int, Seq::<u8>::empty()) =~= s1.buffer@);
    while i < v.len()
        invariant
            i <= v@.len(),
            t == texts(v@),
            s1.start + strings_bytes(t).len() <= s1.buffer@.len(),
            wrote(s1, *state, strings_bytes(t.take(i as int))),
        decreases v@.len() - i,
    {
        let ghost s2 = *state;
        proof {
            assert(t.take(i + 1).drop_last() =~= t.take(i as int));
            assert(t.take(i + 1).last() == v@[i as int]@);
            lemma_strings_prefix(t, i + 1);
        }
        encode_string(state, v[i]);
        proof {
            lemma_wrote_twice(
                s1,
                s2,
                *state,
                strings_bytes(t.take(i as int)),
                counted(encode_utf8(v@[i as int]@)),
            );
        }
        i += 1;
    }
    proof {
        assert(t.take(t.len() as int) =~= t);
        lemma_wrote_twice(s0, s1, *state, uint_bytes(v@.len() as u64), strings_bytes(t));
    }
}

/// Reads a list of texts.
pub fn decode_string_array(state: &mut State) -> (r: Result<Vec<String>>)
    ensures
        match parse_string_array(old(state).rest()) {
            Some((s, n)) => r matches Ok(v) && strings(v@) == s && consumed(
                *old(state),
                *final(state),
                n,
            ),
            None => r == Err::<Vec<String>, EncodingError>(string_array_error(old(state).rest()))
                && stalled(*old(state), *final(state)),
        },
{
    let ghost s0 = *state;
    let n: u64 = match decode_uint(state) {
        Ok(n) => n,
        Err(e) => {
            return Err(e);
        },
    };
    let ghost s1 = *state;
    let mut v: Vec<String> = Vec::new();
    let mut i: u64 = 0;
    let ghost mut k: int = 0;
    assert(s1.rest().skip(0) =~= s1.rest());
    assert(strings(v@) =~= Seq::empty());
    while i < n
        invariant
            i <= n,
            s1.start >= s0.start,
            s1.end == s0.end,
            s1.buffer@ == s0.buffer@,
            consumed(s1, *state, k),
            parse_strings(s1.rest(), i as nat) == Some((strings(v@), k)),
            parse_uint(s0.rest()) matches Some((c, l)) && c == n && consumed(s0, s1, l),
            s0 == *old(state),
        decreases n - i,
    {
        let ghost before = v@;
        match decode_string(state) {
            Ok(x) => {
                proof {
                    let (_, l) = parse_string(s1.rest().skip(k))->0;
                    assert(s1.rest().skip(k).skip(l) =~= s1.rest().skip(k + l));
                    k = k + l;
                }
                let ghost t = x@;
                v.push(x);
                assert(strings(v@) =~= strings(before).push(t));
            },
            Err(e) => {
                proof {
                    assert(parse_strings(s1.rest(), (i + 1) as nat) is None);
                    lemma_parse_strings_none(s1.rest(), (i + 1) as nat, n as nat);
                }
                return Err(e);
            },
        }
        i += 1;
    }
    proof {
        let (_, l) = parse_uint(s0.rest())->0;
        assert(s0.rest().skip(l).skip(k) =~= s0.rest().skip(l + k));
    }
    Ok(v)
}

} // verus!
