//! How values look on the wire, byte by byte.

use vstd::arithmetic::div_mod::lemma_div_denominator;
use vstd::arithmetic::power::{lemma_pow0, lemma_pow_positive, pow};
use vstd::prelude::*;
use vstd::utf8::{decode_utf8, encode_utf8, valid_utf8};

use super::arrays::{
    parse_string, parse_string_array, parse_strings, parse_uint_array, parse_uints,
    string_array_bytes, string_array_error, strings, strings_bytes, strings_error, texts,
    uint_array_bytes, uints_bytes,
};
use super::ipv6::{bytes_groups, family, group_bytes, has_colon, ip_bytes, ip_len, ipv6_of, parse_ip};
use super::net::{
    ipv4_address_bytes, parse_ipv4_address, parse_peer_array, parse_peers, peer_array_bytes,
    peers_bytes,
};
use super::{
    bool_bytes, buffer_bytes, consumed, counted, lemma_uint_len, parse_bool, parse_buffer,
    parse_counted, parse_int, parse_uint, parse_uint16, parse_uint24, parse_uint32, parse_uint64,
    parse_uint8, read_as, reserved, uint_bytes, uint_len, unzigzag, wrote, zigzag, EncodingError,
    Result, State,
};
use crate::ip::{ipv4_of, ipv4_text};
use crate::ip6::ipv6_text;
use crate::le::{le_bytes, le_value, lemma_le_bytes_len, lemma_le_roundtrip, lemma_widths};

verus! {

// ── Little-endian numbers ────────────────────────────────────────────────────

/// Byte `i` of a number is its digit of weight `256^i`.
pub proof fn law_bytes_are_digits(v: nat, n: nat, i: int)
    requires
        0 <= i < n,
    ensures
        le_bytes(v, n).len() == n,
        le_bytes(v, n)[i] == v as int / pow(256, i as nat) % 256,
    decreases n,
{
    lemma_le_bytes_len(v, n);
    lemma_pow0(256);
    if i > 0 {
        law_bytes_are_digits(v / 256, (n - 1) as nat, i - 1);
        lemma_pow_positive(256, (i - 1) as nat);
        lemma_div_denominator(v as int, 256, pow(256, (i - 1) as nat));
        reveal(pow);
        assert(pow(256, i as nat) == 256 * pow(256, (i - 1) as nat));
        assert(le_bytes(v, n)[i] == le_bytes(v / 256, (n - 1) as nat)[i - 1]);
    }
}

/// The number that one, two, three, four or eight bytes hold.
pub proof fn law_bytes_hold_a_number(b: Seq<u8>)
    ensures
        b.len() == 0 ==> le_value(b) == 0,
        b.len() == 1 ==> le_value(b) == b[0],
        b.len() == 2 ==> le_value(b) == b[0] + 0x100 * b[1],
        b.len() == 3 ==> le_value(b) == b[0] + 0x100 * b[1] + 0x1_0000 * b[2],
        b.len() == 4 ==> le_value(b) == b[0] + 0x100 * b[1] + 0x1_0000 * b[2] + 0x100_0000 * b[3],
        b.len() == 8 ==> le_value(b) == b[0] + 0x100 * b[1] + 0x1_0000 * b[2] + 0x100_0000 * b[3]
            + 0x1_0000_0000 * b[4] + 0x100_0000_0000 * b[5] + 0x1_0000_0000_0000 * b[6]
            + 0x100_0000_0000_0000 * b[7],
{
    reveal_with_fuel(le_value, 9);
}

// ── Integers ─────────────────────────────────────────────────────────────────

/// Fixed-width integers take the bytes of their width, the lowest first, and are read wherever
/// there are that many.
pub proof fn law_fixed_widths_are_read(r: Seq<u8>)
    ensures
        parse_uint8(r) is Some <==> r.len() >= 1,
        parse_uint8(r) matches Some((v, n)) ==> n == 1 && v == r[0],
        parse_uint16(r) is Some <==> r.len() >= 2,
        parse_uint16(r) matches Some((v, n)) ==> n == 2 && v == r[0] + 0x100 * r[1],
        parse_uint24(r) is Some <==> r.len() >= 3,
        parse_uint24(r) matches Some((v, n)) ==> n == 3 && v == r[0] + 0x100 * r[1] + 0x1_0000
            * r[2],
        parse_uint32(r) is Some <==> r.len() >= 4,
        parse_uint32(r) matches Some((v, n)) ==> n == 4 && v == r[0] + 0x100 * r[1] + 0x1_0000
            * r[2] + 0x100_0000 * r[3],
        parse_uint64(r) is Some <==> r.len() >= 8,
        parse_uint64(r) matches Some((v, n)) ==> n == 8 && v == r[0] + 0x100 * r[1] + 0x1_0000
            * r[2] + 0x100_0000 * r[3] + 0x1_0000_0000 * r[4] + 0x100_0000_0000 * r[5]
            + 0x1_0000_0000_0000 * r[6] + 0x100_0000_0000_0000 * r[7],
{
    law_bytes_hold_a_number(r.take(2));
    law_bytes_hold_a_number(r.take(3));
    law_bytes_hold_a_number(r.take(4));
    law_bytes_hold_a_number(r.take(8));
}

/// How an unsigned integer is written: up to 252 as itself. From there on a byte says that two,
/// four or eight bytes follow, as few as hold the number, the lowest first.
pub proof fn law_uint_layout(v: u64)
    ensures
        ({
            let b = uint_bytes(v);
            &&& b.len() == uint_len(v)
            &&& v < 253 ==> b.len() == 1 && b[0] == v
            &&& 253 <= v < 0x1_0000 ==> b.len() == 3 && b[0] == 253 && v == b[1] + 0x100 * b[2]
            &&& 0x1_0000 <= v < 0x1_0000_0000 ==> b.len() == 5 && b[0] == 254 && v == b[1] + 0x100
                * b[2] + 0x1_0000 * b[3] + 0x100_0000 * b[4]
            &&& 0x1_0000_0000 <= v ==> b.len() == 9 && b[0] == 255 && v == b[1] + 0x100 * b[2]
                + 0x1_0000 * b[3] + 0x100_0000 * b[4] + 0x1_0000_0000 * b[5] + 0x100_0000_0000
                * b[6] + 0x1_0000_0000_0000 * b[7] + 0x100_0000_0000_0000 * b[8]
        }),
{
    lemma_uint_len(v);
    lemma_widths();
    let n: nat = if v <= 0xffff {
        2
    } else if v <= 0xffff_ffff {
        4
    } else {
        8
    };
    lemma_le_bytes_len(v as nat, n);
    lemma_le_roundtrip(v as nat, n);
    law_bytes_hold_a_number(le_bytes(v as nat, n));
}

/// How an unsigned integer is read: by its first byte, whether or not fewer bytes would have done.
pub proof fn law_uint_is_read(r: Seq<u8>)
    ensures
        parse_uint(r) is Some <==> r.len() >= 1 && (r[0] == 253 ==> r.len() >= 3) && (r[0] == 254
            ==> r.len() >= 5) && (r[0] == 255 ==> r.len() >= 9),
        parse_uint(r) matches Some((v, n)) ==> {
            &&& r[0] < 253 ==> n == 1 && v == r[0]
            &&& r[0] == 253 ==> n == 3 && v == r[1] + 0x100 * r[2]
            &&& r[0] == 254 ==> n == 5 && v == r[1] + 0x100 * r[2] + 0x1_0000 * r[3] + 0x100_0000
                * r[4]
            &&& r[0] == 255 ==> n == 9 && v == r[1] + 0x100 * r[2] + 0x1_0000 * r[3] + 0x100_0000
                * r[4] + 0x1_0000_0000 * r[5] + 0x100_0000_0000 * r[6] + 0x1_0000_0000_0000 * r[7]
                + 0x100_0000_0000_0000 * r[8]
        },
{
    let t = r.skip(1);
    law_bytes_hold_a_number(t.take(2));
    law_bytes_hold_a_number(t.take(4));
    law_bytes_hold_a_number(t.take(8));
}

/// Signed integers alternate: even codes stand for the numbers from zero up, odd ones for those
/// from minus one down. An integer is read as its code is.
pub proof fn law_signed_integers_alternate(n: int, v: u64, r: Seq<u8>)
    requires
        n >= 0,
    ensures
        zigzag(n) == n + n,
        zigzag(-1 - n) == n + n + 1,
        v % 2 == 0 ==> unzigzag(v) == v as int / 2,
        v % 2 == 1 ==> unzigzag(v) == -1 - v as int / 2,
        parse_int(r) is Some <==> parse_uint(r) is Some,
        parse_int(r) matches Some((x, k)) ==> parse_uint(r) == Some((zigzag(x as int) as u64, k)),
{
}

// ── Booleans, byte strings, text ─────────────────────────────────────────────

/// A boolean is a byte: one for true and zero for false. Only a one is read as true.
pub proof fn law_booleans_are_bytes(v: bool, r: Seq<u8>)
    ensures
        bool_bytes(v).len() == 1,
        bool_bytes(v)[0] == if v {
            1u8
        } else {
            0
        },
        parse_bool(r) is Some <==> r.len() >= 1,
        parse_bool(r) matches Some((x, n)) ==> n == 1 && (x <==> r[0] == 1),
{
}

/// A byte string is its length and its bytes. It is read where all of them are there.
pub proof fn law_byte_strings_are_counted(b: Seq<u8>, r: Seq<u8>)
    requires
        b.len() <= u64::MAX,
    ensures
        counted(b).len() == uint_len(b.len() as u64) + b.len(),
        counted(b).take(uint_len(b.len() as u64)) == uint_bytes(b.len() as u64),
        counted(b).skip(uint_len(b.len() as u64)) == b,
        parse_counted(r) is Some <==> (parse_uint(r) matches Some((len, k)) && r.len() >= k + len),
        parse_counted(r) matches Some((x, n)) ==> {
            let (len, k) = parse_uint(r)->0;
            &&& n == k + len && x.len() == len
            &&& forall|i: int| 0 <= i < len ==> #[trigger] x[i] == r[k + i]
        },
{
    lemma_uint_len(b.len() as u64);
    assert(counted(b).take(uint_len(b.len() as u64)) =~= uint_bytes(b.len() as u64));
    assert(counted(b).skip(uint_len(b.len() as u64)) =~= b);
    law_uint_is_read(r);
}

/// An optional byte string is written as the string, or as an empty one where there is none. An
/// empty one is read as none.
pub proof fn law_missing_strings_are_empty(v: Option<Seq<u8>>, r: Seq<u8>)
    ensures
        v is None ==> buffer_bytes(v) == counted(Seq::empty()),
        v matches Some(b) ==> buffer_bytes(v) == counted(b),
        parse_buffer(r) is Some <==> parse_counted(r) is Some,
        parse_buffer(r) matches Some((x, n)) ==> {
            let (b, k) = parse_counted(r)->0;
            &&& n == k
            &&& x is None <==> b.len() == 0
            &&& x matches Some(y) ==> y == b
        },
{
    assert(counted(Seq::empty()) =~= seq![0u8]);
}

/// A text is read where a byte string is and its bytes are UTF-8, as the text that they encode.
pub proof fn law_texts_are_byte_strings(r: Seq<u8>)
    ensures
        parse_string(r) is Some <==> (parse_counted(r) matches Some((b, _)) && valid_utf8(b)),
        parse_string(r) matches Some((t, n)) ==> {
            let (b, k) = parse_counted(r)->0;
            n == k && t == decode_utf8(b)
        },
{
}

// ── Lists ────────────────────────────────────────────────────────────────────

/// A list is written as its length and its items one after the other.
pub proof fn law_integers_follow_each_other(s: Seq<u64>, v: u64)
    ensures
        uints_bytes(Seq::empty()).len() == 0,
        uints_bytes(s.push(v)) == uints_bytes(s) + uint_bytes(v),
        uint_array_bytes(s) == uint_bytes(s.len() as u64) + uints_bytes(s),
{
    assert(s.push(v).drop_last() =~= s);
}

/// As many integers are read as asked for, each where the one before it ended. Where one of them
/// cannot be read, nothing is.
pub proof fn law_integers_are_read_in_turn(r: Seq<u8>, n: nat, i: nat)
    requires
        i < n,
    ensures
        parse_uints(r, n) matches Some((s, k)) ==> {
            &&& s.len() == n
            &&& parse_uints(r, i) matches Some((t, at)) && t == s.take(i as int) && (parse_uint(
                r.skip(at),
            ) matches Some((v, _)) && v == s[i as int])
        },
        parse_uints(r, 0) == Some((Seq::<u64>::empty(), 0int)),
        parse_uints(r, n) is None <==> exists|j: nat|
            j < n && (#[trigger] parse_uints(r, j) matches Some((_, at)) && parse_uint(r.skip(at))
                is None),
    decreases n,
{
    if i + 1 < n {
        law_integers_are_read_in_turn(r, (n - 1) as nat, i);
    } else if n > 1 {
        law_integers_are_read_in_turn(r, (n - 1) as nat, 0);
    }
    if let Some((s, k)) = parse_uints(r, n) {
        let (p, q) = parse_uints(r, (n - 1) as nat)->0;
        if n > 1 {
            assert(p.len() == n - 1);
        }
        assert(s.take(n - 1) =~= p);
        if i + 1 < n {
            assert(s.take(i as int) =~= p.take(i as int));
        }
    } else {
        if parse_uints(r, (n - 1) as nat) is Some {
            let j = (n - 1) as nat;
            assert(parse_uints(r, j) is Some);
        }
    }
}

/// A list of integers is read as its length and then that many, whatever the length is.
pub proof fn law_lists_of_integers_are_read(r: Seq<u8>)
    ensures
        parse_uint_array(r) is Some <==> (parse_uint(r) matches Some((n, k)) && parse_uints(
            r.skip(k),
            n as nat,
        ) is Some),
        parse_uint_array(r) matches Some((s, l)) ==> {
            let (n, k) = parse_uint(r)->0;
            parse_uints(r.skip(k), n as nat) == Some((s, l - k))
        },
{
}

/// A list of texts is written as its length and its texts one after the other, each counted.
pub proof fn law_texts_follow_each_other(s: Seq<Seq<char>>, t: Seq<char>)
    ensures
        strings_bytes(Seq::empty()).len() == 0,
        strings_bytes(s.push(t)) == strings_bytes(s) + counted(encode_utf8(t)),
        string_array_bytes(s) == uint_bytes(s.len() as u64) + strings_bytes(s),
{
    assert(s.push(t).drop_last() =~= s);
}

/// As many texts are read as asked for, each where the one before it ended. Where one of them
/// cannot be read, nothing is.
pub proof fn law_texts_are_read_in_turn(r: Seq<u8>, n: nat, i: nat)
    requires
        i < n,
    ensures
        parse_strings(r, n) matches Some((s, k)) ==> {
            &&& s.len() == n
            &&& parse_strings(r, i) matches Some((t, at)) && t == s.take(i as int) && (parse_string(
                r.skip(at),
            ) matches Some((v, _)) && v == s[i as int])
        },
        parse_strings(r, 0) == Some((Seq::<Seq<char>>::empty(), 0int)),
        parse_strings(r, n) is None <==> exists|j: nat|
            j < n && (#[trigger] parse_strings(r, j) matches Some((_, at)) && parse_string(
                r.skip(at),
            ) is None),
    decreases n,
{
    if i + 1 < n {
        law_texts_are_read_in_turn(r, (n - 1) as nat, i);
    } else if n > 1 {
        law_texts_are_read_in_turn(r, (n - 1) as nat, 0);
    }
    if let Some((s, k)) = parse_strings(r, n) {
        let (p, q) = parse_strings(r, (n - 1) as nat)->0;
        if n > 1 {
            assert(p.len() == n - 1);
        }
        assert(s.take(n - 1) =~= p);
        if i + 1 < n {
            assert(s.take(i as int) =~= p.take(i as int));
        }
    } else {
        if parse_strings(r, (n - 1) as nat) is Some {
            let j = (n - 1) as nat;
            assert(parse_strings(r, j) is Some);
        }
    }
}

/// A list of texts is read as its length and then that many. Where it is not, the first text that
/// cannot be read tells why: it is cut off, or it is not UTF-8.
pub proof fn law_lists_of_texts_are_read(r: Seq<u8>, n: nat, j: nat)
    ensures
        parse_string_array(r) is Some <==> (parse_uint(r) matches Some((n, k)) && parse_strings(
            r.skip(k),
            n as nat,
        ) is Some),
        parse_string_array(r) matches Some((s, l)) ==> {
            let (n, k) = parse_uint(r)->0;
            parse_strings(r.skip(k), n as nat) == Some((s, l - k))
        },
        j < n && (parse_strings(r, j) matches Some((_, at)) && parse_string(r.skip(at)) is None)
            ==> {
            let (_, at) = parse_strings(r, j)->0;
            &&& parse_counted(r.skip(at)) is None <==> strings_error(r, n)
                == EncodingError::OutOfBounds
            &&& parse_counted(r.skip(at)) is Some <==> strings_error(r, n)
                == EncodingError::InvalidUtf8
        },
        parse_uint(r) is None ==> string_array_error(r) == EncodingError::OutOfBounds,
        parse_uint(r) matches Some((n, k)) ==> string_array_error(r) == strings_error(
            r.skip(k),
            n as nat,
        ),
    decreases n,
{
    if j < n && (parse_strings(r, j) matches Some((_, at)) && parse_string(r.skip(at)) is None) {
        if j + 1 < n {
            law_lists_of_texts_are_read(r, (n - 1) as nat, j);
            lemma_stuck(r, j, (n - 1) as nat);
        }
    }
}

proof fn lemma_stuck(r: Seq<u8>, j: nat, n: nat)
    requires
        j < n,
        parse_strings(r, j) matches Some((_, at)) && parse_string(r.skip(at)) is None,
    ensures
        parse_strings(r, n) is None,
    decreases n,
{
    if j + 1 < n {
        lemma_stuck(r, j, (n - 1) as nat);
    }
}

// ── Addresses ────────────────────────────────────────────────────────────────

/// An address with its port is four bytes and two, the low one first, and is read from any six.
pub proof fn law_address_layout(o: Seq<u8>, port: u16, r: Seq<u8>)
    requires
        o.len() == 4,
    ensures
        ({
            let b = ipv4_address_bytes(o, port);
            &&& b.len() == 6
            &&& b.take(4) == o
            &&& b[4] + 0x100 * b[5] == port
        }),
        parse_ipv4_address(r) is Some <==> r.len() >= 6,
        parse_ipv4_address(r) matches Some(((host, p), n)) ==> n == 6 && host == ipv4_text(
            r.take(4),
        ) && p == r[4] + 0x100 * r[5],
{
    lemma_le_bytes_len(port as nat, 2);
    lemma_widths();
    lemma_le_roundtrip(port as nat, 2);
    law_bytes_hold_a_number(le_bytes(port as nat, 2));
    assert(ipv4_address_bytes(o, port).take(4) =~= o);
    if r.len() >= 6 {
        law_bytes_hold_a_number(r.subrange(4, 6));
    }
}

/// A list of peers is written as its length and its peers one after the other.
pub proof fn law_peers_follow_each_other(s: Seq<(Seq<char>, u16)>, p: (Seq<char>, u16))
    ensures
        peers_bytes(Seq::empty()).len() == 0,
        peers_bytes(s.push(p)) == peers_bytes(s) + ipv4_address_bytes(ipv4_of(p.0)->0, p.1),
        peer_array_bytes(s) == uint_bytes(s.len() as u64) + peers_bytes(s),
{
    assert(s.push(p).drop_last() =~= s);
}

/// As many peers are read as asked for, from six bytes each, wherever there are that many bytes.
pub proof fn law_peers_are_read_in_turn(r: Seq<u8>, n: nat)
    ensures
        parse_peers(r, n) is Some <==> r.len() >= 6 * n,
        parse_peers(r, n) matches Some(s) ==> {
            &&& s.len() == n
            &&& forall|i: int|
                0 <= i < n ==> (#[trigger] s[i]).0 == ipv4_text(r.subrange(6 * i, 6 * i + 4))
                    && s[i].1 == r[6 * i + 4] + 0x100 * r[6 * i + 5]
        },
    decreases n,
{
    if n > 0 {
        let m = (n - 1) as nat;
        law_peers_are_read_in_turn(r, m);
        if r.len() >= 6 * m {
            let t = r.skip(6 * m as int);
            law_address_layout(seq![0u8, 0, 0, 0], 0, t);
            if r.len() >= 6 * n {
                assert(t.take(4) =~= r.subrange(6 * m as int, 6 * m as int + 4));
            }
        }
    }
}

/// A list of peers is read as its length and then that many, whatever the length is.
pub proof fn law_lists_of_peers_are_read(r: Seq<u8>)
    ensures
        parse_peer_array(r) is Some <==> (parse_uint(r) matches Some((n, k)) && r.len() >= k + 6
            * n),
        parse_peer_array(r) matches Some((s, l)) ==> {
            let (n, k) = parse_uint(r)->0;
            l == k + 6 * n && parse_peers(r.skip(k), n as nat) == Some(s)
        },
{
    law_uint_is_read(r);
    if let Some((n, k)) = parse_uint(r) {
        law_peers_are_read_in_turn(r.skip(k), n as nat);
    }
}

/// An IPv6 address is its eight groups in order, the high byte of each first.
pub proof fn law_groups_layout(g: Seq<u16>, b: Seq<u8>, i: int)
    requires
        g.len() == 8,
        b.len() == 16,
        0 <= i < 8,
    ensures
        group_bytes(g).len() == 16,
        0x100 * group_bytes(g)[2 * i] + group_bytes(g)[2 * i + 1] == g[i],
        bytes_groups(b).len() == 8,
        bytes_groups(b)[i] == 0x100 * b[2 * i] + b[2 * i + 1],
{
    assert(2 * i / 2 == i && (2 * i + 1) / 2 == i);
    assert(2 * i % 2 == 0 && (2 * i + 1) % 2 == 1);
}

/// An address of either family is a byte that names the family, and the address: a text with a
/// colon is an IPv6 address, any other an IPv4 address.
pub proof fn law_families(text: Seq<char>, r: Seq<u8>)
    ensures
        has_colon(text) <==> exists|i: int|
            0 <= i < encode_utf8(text).len() && #[trigger] encode_utf8(text)[i] == 0x3a,
        has_colon(text) ==> family(text) == 6 && ip_len(text) == 17,
        !has_colon(text) ==> family(text) == 4 && ip_len(text) == 5,
        ip_bytes(text) is Some <==> if has_colon(text) {
            ipv6_of(text) is Some
        } else {
            ipv4_of(text) is Some
        },
        ip_bytes(text) matches Some(b) ==> b[0] == family(text) && b.skip(1) == if has_colon(
            text,
        ) {
            group_bytes(ipv6_of(text)->0)
        } else {
            ipv4_of(text)->0
        },
        parse_ip(r) is Ok <==> (r.len() >= 5 && r[0] == 4) || (r.len() >= 17 && r[0] == 6),
        parse_ip(r) matches Ok((t, n)) ==> {
            &&& r[0] == 4 ==> n == 5 && t == ipv4_text(r.subrange(1, 5))
            &&& r[0] == 6 ==> n == 17 && t == ipv6_text(bytes_groups(r.subrange(1, 17)))
        },
        parse_ip(r) == Err::<(Seq<char>, int), EncodingError>(EncodingError::UnknownFamily)
            <==> r.len() >= 1 && r[0] != 4 && r[0] != 6,
        parse_ip(r) == Err::<(Seq<char>, int), EncodingError>(EncodingError::OutOfBounds)
            <==> r.len() == 0 || (r[0] == 4 && r.len() < 5) || (r[0] == 6 && r.len() < 17),
{
    if let Some(b) = ip_bytes(text) {
        assert(b.skip(1) =~= if has_colon(text) {
            group_bytes(ipv6_of(text)->0)
        } else {
            ipv4_of(text)->0
        });
    }
}

// ── Cursor ───────────────────────────────────────────────────────────────────

/// What was written stands where the cursor was, in as many bytes as it has; the cursor stands
/// behind it, and no other byte changed.
pub proof fn law_writing_touches_its_bytes_only(a: State, z: State, b: Seq<u8>)
    requires
        wrote(a, z, b),
        a.start + b.len() <= a.buffer@.len(),
    ensures
        z.start == a.start + b.len(),
        z.end == a.end,
        z.buffer@.len() == a.buffer@.len(),
        forall|i: int|
            0 <= i < a.buffer@.len() ==> #[trigger] z.buffer@[i] == if a.start <= i < a.start
                + b.len() {
                b[i - a.start]
            } else {
                a.buffer@[i]
            },
{
}

/// Accounting moves the end alone. A reader that succeeds moves the start past what it read and
/// leaves the bytes as they are; one that fails leaves them too.
pub proof fn law_reading_changes_no_byte<T>(
    a: State,
    z: State,
    n: int,
    r: Result<T>,
    p: Option<(T, int)>,
)
    ensures
        reserved(a, z, n) ==> z.end == a.end + n && z.start == a.start && z.buffer@ == a.buffer@,
        consumed(a, z, n) ==> z.start == a.start + n && z.end == a.end && z.buffer@ == a.buffer@,
        read_as(a, z, r, p) ==> {
            &&& r is Ok <==> p is Some
            &&& p matches Some((v, k)) ==> r == Ok::<T, EncodingError>(v) && z.start == a.start + k
            &&& z.end == a.end && z.buffer@ == a.buffer@ && z.start >= a.start
        },
{
}

/// The words for each error.
pub proof fn law_words_for_encoding_errors()
    ensures
        EncodingError::OutOfBounds.text() == "out of bounds"@,
        EncodingError::InvalidUtf8.text() == "invalid utf-8"@,
        EncodingError::InvalidLength.text() == "invalid length"@,
        EncodingError::InvalidAddress.text() == "invalid address"@,
        EncodingError::UnknownFamily.text() == "unknown address family"@,
        EncodingError::UnknownType.text() == "unknown message type"@,
{
}

/// Lists of texts hold the texts in order.
pub proof fn law_lists_hold_the_texts(v: Seq<&str>, w: Seq<String>)
    ensures
        texts(v).len() == v.len(),
        forall|i: int| 0 <= i < v.len() ==> #[trigger] texts(v)[i] == v[i]@,
        strings(w).len() == w.len(),
        forall|i: int| 0 <= i < w.len() ==> #[trigger] strings(w)[i] == w[i]@,
{
}

} // verus!
