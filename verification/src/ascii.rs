//! ASCII texts.

use vstd::prelude::*;
use vstd::utf8::{
    decode_utf8, decode_utf8_encode_utf8, encode_utf8, encode_utf8_decode_utf8, pop_first_scalar,
    valid_first_scalar, valid_utf8,
};

use crate::outside::string_from_utf8;

verus! {

/// Whether all bytes are ASCII.
pub open spec fn is_ascii(b: Seq<u8>) -> bool {
    forall|i: int| 0 <= i < b.len() ==> (#[trigger] b[i]) < 128
}

/// The characters that ASCII bytes stand for.
pub open spec fn ascii_chars(b: Seq<u8>) -> Seq<char> {
    b.map_values(|x: u8| x as char)
}

/// ASCII bytes are the UTF-8 form of their characters.
pub proof fn lemma_ascii_utf8(b: Seq<u8>)
    requires
        is_ascii(b),
    ensures
        valid_utf8(b),
        decode_utf8(b) == ascii_chars(b),
        encode_utf8(ascii_chars(b)) == b,
    decreases b.len(),
{
    if b.len() > 0 {
        let c = b[0];
        assert(c & 0x80 == 0 && c & 0x7f == c) by (bit_vector)
            requires
                c < 128,
        ;
        assert(valid_first_scalar(b));
        let rest = pop_first_scalar(b);
        assert(rest =~= b.skip(1));
        lemma_ascii_utf8(rest);
        assert(decode_utf8(b) =~= ascii_chars(b));
    } else {
        assert(decode_utf8(b) =~= ascii_chars(b));
    }
    decode_utf8_encode_utf8(b);
}

/// A text whose UTF-8 form is ASCII consists of those characters.
pub proof fn lemma_text_of_ascii(t: Seq<char>, b: Seq<u8>)
    requires
        is_ascii(b),
    ensures
        encode_utf8(t) == b <==> t == ascii_chars(b),
{
    lemma_ascii_utf8(b);
    encode_utf8_decode_utf8(t);
}

/// Turns ASCII bytes into a text.
pub fn ascii_string(b: Vec<u8>) -> (r: String)
    requires
        is_ascii(b@),
    ensures
        r@ == ascii_chars(b@),
{
    proof {
        lemma_ascii_utf8(b@);
    }
    match string_from_utf8(b) {
        Some(s) => s,
        None => String::new(),
    }
}

/// The decimal digits of a number, without leading zeros.
pub open spec fn digits(n: nat) -> Seq<u8>
    decreases n,
{
    if n < 10 {
        seq![(48 + n) as u8]
    } else {
        digits(n / 10).push((48 + n % 10) as u8)
    }
}

/// Digits are ASCII.
pub proof fn lemma_digits_ascii(n: nat)
    ensures
        is_ascii(digits(n)),
    decreases n,
{
    if n >= 10 {
        lemma_digits_ascii(n / 10);
    }
}

/// The decimal form of a number.
pub fn number_string(n: u64) -> (r: String)
    ensures
        r@ == ascii_chars(digits(n as nat)),
{
    let mut low: Vec<u8> = Vec::new();
    let mut rest: u64 = n;
    while rest >= 10
        invariant
            digits(n as nat) == digits(rest as nat) + low@.reverse(),
        decreases rest,
    {
        let ghost before = low@;
        let d: u8 = 48 + (rest % 10) as u8;
        low.push(d);
        proof {
            assert(low@.reverse() =~= seq![d] + before.reverse());
            assert(digits(rest as nat) + before.reverse() =~= digits((rest / 10) as nat)
                + low@.reverse());
        }
        rest = rest / 10;
    }
    let d: u8 = 48 + rest as u8;
    let ghost before = low@;
    low.push(d);
    let mut out: Vec<u8> = Vec::new();
    proof {
        assert(low@.reverse() =~= seq![d] + before.reverse());
        assert(digits(n as nat) =~= low@.reverse());
    }
    let ghost all = low@.reverse();
    let mut i: usize = low.len();
    while i > 0
        invariant
            i <= low@.len(),
            all == low@.reverse(),
            out@ == all.take(low@.len() - i),
        decreases i,
    {
        i -= 1;
        out.push(low[i]);
        assert(out@ =~= all.take(low@.len() - i));
    }
    proof {
        assert(out@ =~= all);
        lemma_digits_ascii(n as nat);
    }
    ascii_string(out)
}

/// The number that decimal digits stand for.
pub open spec fn decimal_value(b: Seq<u8>) -> int
    decreases b.len(),
{
    if b.len() == 0 {
        0
    } else {
        10 * decimal_value(b.drop_last()) + (b.last() - 0x30)
    }
}

/// The digits of a number are decimal digits that stand for it, and the first is no zero unless it
/// is the only one.
pub proof fn law_digits_spell_the_number(n: nat)
    ensures
        digits(n).len() >= 1,
        decimal_value(digits(n)) == n,
        forall|i: int| 0 <= i < digits(n).len() ==> 0x30 <= #[trigger] digits(n)[i] <= 0x39,
        digits(n).len() > 1 <==> n >= 10,
        digits(n).len() > 1 ==> digits(n)[0] != 0x30,
    decreases n,
{
    if n < 10 {
        assert(digits(n).drop_last() =~= Seq::empty());
        assert(decimal_value(Seq::empty()) == 0);
    } else {
        law_digits_spell_the_number(n / 10);
        let d = digits(n / 10);
        assert(digits(n).drop_last() =~= d);
        assert(d[0] != 0x30);
    }
}

} // verus!
