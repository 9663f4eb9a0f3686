//! Pairings that matched and whose streams are not bridged yet, oldest first.

use vstd::prelude::*;

use crate::bytes::key_eq;

verus! {

/// A pairing that matched and is not bridged yet.
#[derive(Debug, Clone, Copy)]
pub struct Bridging {
    /// Its token.
    pub token: [u8; 32],
    /// The session that waited.
    pub first: u64,
    /// The session that completed the match.
    pub second: u64,
}

impl Bridging {
    /// Whether a session is one of the two.
    pub open spec fn joins(self, session_id: u64) -> bool {
        self.first == session_id || self.second == session_id
    }

    /// Whether it is the pairing of a token between two sessions.
    pub open spec fn is_for(self, token: [u8; 32], a: u64, b: u64) -> bool {
        self.token == token && (self.first == a && self.second == b || self.first == b
            && self.second == a)
    }
}

/// Position of the oldest pairing of a token between two sessions, or the length where there is
/// none.
pub open spec fn bridging_at(s: Seq<Bridging>, token: [u8; 32], a: u64, b: u64) -> int
    decreases s.len(),
{
    if s.len() == 0 {
        0
    } else {
        let i = bridging_at(s.drop_last(), token, a, b);
        if i < s.len() - 1 || s.last().is_for(token, a, b) {
            i
        } else {
            s.len() as int
        }
    }
}

/// The pairings that a session has no part in.
pub open spec fn others(s: Seq<Bridging>, session_id: u64) -> Seq<Bridging>
    decreases s.len(),
{
    if s.len() == 0 {
        Seq::empty()
    } else if s.last().joins(session_id) {
        others(s.drop_last(), session_id)
    } else {
        others(s.drop_last(), session_id).push(s.last())
    }
}

/// Number of pairings that a session has part in.
pub open spec fn shares(s: Seq<Bridging>, session_id: u64) -> nat
    decreases s.len(),
{
    if s.len() == 0 {
        0
    } else {
        shares(s.drop_last(), session_id) + (if s.last().joins(session_id) {
            1nat
        } else {
            0
        })
    }
}

/// Where the oldest pairing of a token between two sessions stands.
pub proof fn lemma_bridging_at(s: Seq<Bridging>, token: [u8; 32], a: u64, b: u64)
    ensures
        0 <= bridging_at(s, token, a, b) <= s.len(),
        bridging_at(s, token, a, b) < s.len() ==> s[bridging_at(s, token, a, b)].is_for(
            token,
            a,
            b,
        ),
        forall|i: int|
            0 <= i < bridging_at(s, token, a, b) ==> !(#[trigger] s[i]).is_for(token, a, b),
    decreases s.len(),
{
    if s.len() > 0 {
        let t = s.drop_last();
        lemma_bridging_at(t, token, a, b);
        assert(forall|i: int| 0 <= i < t.len() ==> (#[trigger] s[i]) == t[i]);
    }
}

/// A session has part in those that are not left over.
pub proof fn lemma_others(s: Seq<Bridging>, session_id: u64)
    ensures
        others(s, session_id).len() + shares(s, session_id) == s.len(),
        shares(others(s, session_id), session_id) == 0,
    decreases s.len(),
{
    if s.len() > 0 {
        let t = s.drop_last();
        lemma_others(t, session_id);
        if !s.last().joins(session_id) {
            let o = others(t, session_id);
            assert(o.push(s.last()).drop_last() =~= o);
        }
    }
}

/// Leaving the pairings of one session out raises what no session has part in.
pub proof fn lemma_others_shares(s: Seq<Bridging>, gone: u64, session_id: u64)
    ensures
        shares(others(s, gone), session_id) <= shares(s, session_id),
    decreases s.len(),
{
    if s.len() > 0 {
        let t = s.drop_last();
        lemma_others_shares(t, gone, session_id);
        if !s.last().joins(gone) {
            let o = others(t, gone);
            assert(o.push(s.last()).drop_last() =~= o);
        }
    }
}

/// Taking one pairing out lowers what its two sessions have part in by one.
pub proof fn lemma_remove_shares(s: Seq<Bridging>, i: int, session_id: u64)
    requires
        0 <= i < s.len(),
    ensures
        shares(s.remove(i), session_id) == shares(s, session_id) - (if s[i].joins(session_id) {
            1int
        } else {
            0
        }),
    decreases s.len(),
{
    let t = s.drop_last();
    if i == s.len() - 1 {
        assert(s.remove(i) =~= t);
    } else {
        lemma_remove_shares(t, i, session_id);
        assert(s.remove(i).drop_last() =~= t.remove(i));
        assert(s.remove(i).last() == s.last());
    }
}

/// Finds the oldest pairing of a token between two sessions.
pub fn find_bridging(s: &Vec<Bridging>, token: &[u8; 32], a: u64, b: u64) -> (r: usize)
    ensures
        r == bridging_at(s@, *token, a, b),
        r <= s@.len(),
{
    let mut i: usize = 0;
    while i < s.len()
        invariant
            i <= s@.len(),
            forall|j: int| 0 <= j < i ==> !(#[trigger] s@[j]).is_for(*token, a, b),
        decreases s@.len() - i,
    {
        let e: Bridging = s[i];
        if key_eq(&e.token, token) && (e.first == a && e.second == b || e.first == b && e.second
            == a) {
            proof {
                lemma_bridging_at(s@, *token, a, b);
                assert(s@[i as int].is_for(*token, a, b));
            }
            return i;
        }
        i += 1;
    }
    proof {
        lemma_bridging_at(s@, *token, a, b);
    }
    i
}

/// Counts the pairings that a session has part in.
pub fn count_shares(s: &Vec<Bridging>, session_id: u64) -> (r: usize)
    ensures
        r == shares(s@, session_id),
{
    let mut n: usize = 0;
    let mut i: usize = 0;
    assert(s@.take(0) =~= Seq::empty());
    while i < s.len()
        invariant
            i <= s@.len(),
            n <= i,
            n == shares(s@.take(i as int), session_id),
        decreases s@.len() - i,
    {
        assert(s@.take(i + 1).drop_last() =~= s@.take(i as int));
        if s[i].first == session_id || s[i].second == session_id {
            n += 1;
        }
        i += 1;
    }
    assert(s@.take(s@.len() as int) =~= s@);
    n
}

/// Drops the pairings that a session has part in, and gives their number.
pub fn drop_shares(s: &mut Vec<Bridging>, session_id: u64) -> (r: usize)
    ensures
        final(s)@ == others(old(s)@, session_id),
        r == shares(old(s)@, session_id),
{
    let n: usize = count_shares(s, session_id);
    let mut left: Vec<Bridging> = Vec::new();
    let mut i: usize = 0;
    assert(s@.take(0) =~= Seq::empty());
    while i < s.len()
        invariant
            i <= s@.len(),
            s@ == old(s)@,
            left@ == others(s@.take(i as int), session_id),
        decreases s@.len() - i,
    {
        assert(s@.take(i + 1).drop_last() =~= s@.take(i as int));
        if s[i].first != session_id && s[i].second != session_id {
            left.push(s[i]);
        }
        i += 1;
    }
    assert(s@.take(s@.len() as int) =~= s@);
    *s = left;
    n
}

} // verus!
