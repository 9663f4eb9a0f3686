//! Comparing keys, byte strings and texts.

use vstd::prelude::*;
use vstd::utf8::{encode_utf8, encode_utf8_decode_utf8};

verus! {

/// Whether two 32-byte keys hold the same bytes.
pub fn key_eq(a: &[u8; 32], b: &[u8; 32]) -> (r: bool)
    ensures
        r == (*a == *b),
{
    let mut i: usize = 0;
    while i < 32
        invariant
            i <= 32,
            forall|j: int| 0 <= j < i ==> a[j] == b[j],
        decreases 32 - i,
    {
        if a[i] != b[i] {
            return false;
        }
        i += 1;
    }
    assert(*a =~= *b);
    true
}

/// Whether two byte strings are equal.
pub fn bytes_eq(a: &[u8], b: &[u8]) -> (r: bool)
    ensures
        r == (a@ == b@),
{
    if a.len() != b.len() {
        return false;
    }
    let mut i: usize = 0;
    while i < a.len()
        invariant
            i <= a@.len(),
            a@.len() == b@.len(),
            forall|j: int| 0 <= j < i ==> a@[j] == b@[j],
        decreases a@.len() - i,
    {
        if a[i] != b[i] {
            return false;
        }
        i += 1;
    }
    assert(a@ =~= b@);
    true
}

/// Texts with the same UTF-8 form are equal.
pub proof fn lemma_utf8_injective(a: Seq<char>, b: Seq<char>)
    ensures
        encode_utf8(a) == encode_utf8(b) <==> a == b,
{
    encode_utf8_decode_utf8(a);
    encode_utf8_decode_utf8(b);
}

/// Whether two texts are equal.
pub fn text_eq(a: &str, b: &str) -> (r: bool)
    ensures
        r == (a@ == b@),
{
    proof {
        lemma_utf8_injective(a@, b@);
    }
    bytes_eq(a.as_bytes(), b.as_bytes())
}

/// The 32-byte key with the bytes `s`.
#[verifier::opaque]
pub open spec fn key_of(s: Seq<u8>) -> [u8; 32] {
    [
        s[0], s[1], s[2], s[3], s[4], s[5], s[6], s[7],
        s[8], s[9], s[10], s[11], s[12], s[13], s[14], s[15],
        s[16], s[17], s[18], s[19], s[20], s[21], s[22], s[23],
        s[24], s[25], s[26], s[27], s[28], s[29], s[30], s[31],
    ]
}

/// The key with 32 given bytes holds these bytes.
pub proof fn lemma_key_bytes(s: Seq<u8>)
    requires
        s.len() == 32,
    ensures
        key_of(s)@ == s,
{
    reveal(key_of);
    assert(key_of(s)@ =~= s);
}

/// A key is determined by its bytes.
pub proof fn lemma_key_of(a: [u8; 32])
    ensures
        key_of(a@) == a,
{
    let b = key_of(a@);
    lemma_key_bytes(a@);
    assert(forall|i: int| 0 <= i < 32 ==> a@[i] == b@[i]);
    assert(a =~= b);
}

} // verus!
