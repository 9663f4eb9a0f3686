//! A small association table with unique keys, viewed as a mathematical map. It serves keys whose
//! hashing has no specification; where the key is a number, the standard hash map is used.

use vstd::prelude::*;

use crate::bytes::key_eq;

verus! {

/// Keys a [`Table`] can hold: plain values with decidable equality.
pub trait TableKey: Copy {
    /// Whether two keys are equal.
    fn same(&self, other: &Self) -> (r: bool)
        ensures
            r == (*self == *other),
    ;
}

impl TableKey for [u8; 32] {
    fn same(&self, other: &Self) -> (r: bool) {
        key_eq(self, other)
    }
}

/// A test on the values of a [`Table`].
pub trait ValueTest<V> {
    /// Whether the value passes.
    spec fn passes(&self, v: V) -> bool;

    /// Decides whether the value passes.
    fn check(&self, v: &V) -> (r: bool)
        ensures
            r == self.passes(*v),
    ;
}

/// Associates each key with at most one value.
pub struct Table<K, V> {
    entries: Vec<(K, V)>,
}

/// Whether some entry carries the key `k`.
pub open spec fn has_key<K, V>(s: Seq<(K, V)>, k: K) -> bool {
    exists|i: int| 0 <= i < s.len() && (#[trigger] s[i]).0 == k
}

/// Position of an entry that carries the key `k`.
pub open spec fn key_pos<K, V>(s: Seq<(K, V)>, k: K) -> int {
    choose|i: int| 0 <= i < s.len() && (#[trigger] s[i]).0 == k
}

/// No two entries carry the same key.
pub open spec fn unique_keys<K, V>(s: Seq<(K, V)>) -> bool {
    forall|i: int, j: int|
        0 <= i < s.len() && 0 <= j < s.len() && i != j ==> (#[trigger] s[i]).0 != (#[trigger] s[j]).0
}

/// The map that a list of entries stands for.
pub open spec fn entries_map<K, V>(s: Seq<(K, V)>) -> Map<K, V> {
    Map::new(|k: K| has_key(s, k), |k: K| s[key_pos(s, k)].1)
}

/// With unique keys, every entry is a pair of the map and every key of the map is an entry.
pub proof fn lemma_entries<K, V>(s: Seq<(K, V)>)
    requires
        unique_keys(s),
    ensures
        forall|i: int| 0 <= i < s.len() ==> entries_map(s).contains_key((#[trigger] s[i]).0),
        forall|i: int| 0 <= i < s.len() ==> entries_map(s)[(#[trigger] s[i]).0] == s[i].1,
        forall|k: K| #[trigger]
            entries_map(s).contains_key(k) ==> {
                let p = key_pos(s, k);
                0 <= p < s.len() && s[p] == (k, entries_map(s)[k])
            },
        entries_map(s).dom().finite(),
        entries_map(s).dom().len() == s.len(),
{
    assert forall|i: int| 0 <= i < s.len() implies entries_map(s).contains_key((#[trigger] s[i]).0)
        && entries_map(s)[s[i].0] == s[i].1 by {
        assert(has_key(s, s[i].0));
        assert(key_pos(s, s[i].0) == i);
    }
    lemma_entries_len(s);
}

proof fn lemma_entries_len<K, V>(s: Seq<(K, V)>)
    requires
        unique_keys(s),
    ensures
        entries_map(s).dom().finite(),
        entries_map(s).dom().len() == s.len(),
    decreases s.len(),
{
    if s.len() == 0 {
        assert(entries_map(s).dom() =~= Set::empty());
    } else {
        let t = s.drop_last();
        assert(unique_keys(t)) by {
            assert forall|i: int, j: int| 0 <= i < t.len() && 0 <= j < t.len() && i != j implies (
            #[trigger] t[i]).0 != (#[trigger] t[j]).0 by {
                assert(s[i].0 != s[j].0);
            }
        }
        lemma_entries_len(t);
        let k = s.last().0;
        assert(!has_key(t, k)) by {
            if has_key(t, k) {
                let i = key_pos(t, k);
                assert(s[i].0 != s[s.len() - 1].0);
            }
        }
        assert(entries_map(s).dom() =~= entries_map(t).dom().insert(k)) by {
            assert forall|x: K| has_key(s, x) <==> has_key(t, x) || x == k by {
                if has_key(s, x) && x != k {
                    let i = key_pos(s, x);
                    assert(t[i].0 == x);
                }
                if has_key(t, x) {
                    let i = key_pos(t, x);
                    assert(s[i].0 == x);
                }
                if x == k {
                    assert(s[s.len() - 1].0 == x);
                }
            }
        }
    }
}

impl<K: TableKey, V> View for Table<K, V> {
    type V = Map<K, V>;

    closed spec fn view(&self) -> Map<K, V> {
        entries_map(self.entries@)
    }
}

impl<K: TableKey, V> Table<K, V> {
    /// The entries in storage order.
    pub closed spec fn items(&self) -> Seq<(K, V)> {
        self.entries@
    }

    /// Keys are unique.
    pub closed spec fn wf(&self) -> bool {
        unique_keys(self.entries@)
    }

    /// The storage order and the map describe the same pairs.
    pub proof fn lemma_items(&self)
        requires
            self.wf(),
        ensures
            unique_keys(self.items()),
            self@ == entries_map(self.items()),
            self@.dom().finite(),
            self@.dom().len() == self.items().len(),
            forall|i: int| 0 <= i < self.items().len() ==> self@.contains_key((#[trigger] self.items()[i]).0),
            forall|i: int| 0 <= i < self.items().len() ==> self@[(#[trigger] self.items()[i]).0] == self.items()[i].1,
            forall|k: K| #[trigger] self@.contains_key(k) ==> {
                let p = key_pos(self.items(), k);
                0 <= p < self.items().len() && self.items()[p] == (k, self@[k])
            },
    {
        lemma_entries(self.entries@);
    }

    /// An empty table.
    pub fn new() -> (t: Self)
        ensures
            t.wf(),
            t@ == Map::<K, V>::empty(),
            t.items().len() == 0,
    {
        let t = Table { entries: Vec::new() };
        assert(t@ =~= Map::<K, V>::empty());
        t
    }

    /// Number of entries.
    pub fn len(&self) -> (n: usize)
        requires
            self.wf(),
        ensures
            n == self.items().len(),
            n == self@.dom().len(),
    {
        proof {
            self.lemma_items();
        }
        self.entries.len()
    }

    /// Storage position of a key.
    pub fn position(&self, k: &K) -> (r: Option<usize>)
        requires
            self.wf(),
        ensures
            match r {
                Some(i) => i < self.items().len() && self.items()[i as int].0 == *k
                    && self@.contains_key(*k) && self@[*k] == self.items()[i as int].1,
                None => !self@.contains_key(*k),
            },
    {
        let mut i: usize = 0;
        while i < self.entries.len()
            invariant
                self.wf(),
                i <= self.entries.len(),
                forall|j: int| 0 <= j < i ==> (#[trigger] self.entries@[j]).0 != *k,
            decreases self.entries.len() - i,
        {
            if self.entries[i].0.same(k) {
                proof {
                    self.lemma_items();
                    assert(self.items()[i as int].0 == *k);
                }
                return Some(i);
            }
            i += 1;
        }
        None
    }

    /// Whether the key is present.
    pub fn contains_key(&self, k: &K) -> (r: bool)
        requires
            self.wf(),
        ensures
            r == self@.contains_key(*k),
    {
        self.position(k).is_some()
    }

    /// The value of a key.
    pub fn get(&self, k: &K) -> (r: Option<&V>)
        requires
            self.wf(),
        ensures
            match r {
                Some(v) => self@.contains_key(*k) && *v == self@[*k],
                None => !self@.contains_key(*k),
            },
    {
        match self.position(k) {
            Some(i) => Some(&self.entries[i].1),
            None => None,
        }
    }

    /// Sets the value of a key, dropping a value that was there before.
    pub fn insert(&mut self, k: K, v: V)
        requires
            old(self).wf(),
        ensures
            final(self).wf(),
            final(self)@ == old(self)@.insert(k, v),
    {
        let ghost before = self.entries@;
        match self.position(&k) {
            Some(i) => {
                self.entries.set(i, (k, v));
                proof {
                    lemma_replaced(before, i as int, v);
                    assert(self.entries@ == before.update(i as int, (k, v)));
                }
            },
            None => {
                self.entries.push((k, v));
                proof {
                    lemma_pushed(before, k, v);
                }
            },
        }
    }

    /// Drops a key together with its value and hands the value out.
    pub fn remove(&mut self, k: &K) -> (r: Option<V>)
        requires
            old(self).wf(),
        ensures
            final(self).wf(),
            final(self)@ == old(self)@.remove(*k),
            match r {
                Some(v) => old(self)@.contains_key(*k) && v == old(self)@[*k],
                None => !old(self)@.contains_key(*k),
            },
    {
        let ghost before = self.entries@;
        match self.position(k) {
            Some(i) => {
                let e = self.entries.remove(i);
                proof {
                    lemma_removed(before, i as int);
                    assert(self.entries@ == before.remove(i as int));
                }
                Some(e.1)
            },
            None => {
                assert(self@ =~= old(self)@.remove(*k));
                None
            },
        }
    }

    /// Mutable access to the value at a storage position.
    pub fn value_at_mut(&mut self, i: usize) -> (r: &mut V)
        requires
            old(self).wf(),
            i < old(self).items().len(),
        ensures
            *r == old(self).items()[i as int].1,
            final(self).wf(),
            final(self).items() == old(self).items().update(
                i as int,
                (old(self).items()[i as int].0, *final(r)),
            ),
            final(self)@ == old(self)@.insert(old(self).items()[i as int].0, *final(r)),
    {
        proof {
            let s = self.entries@;
            let k = s[i as int].0;
            assert forall|v: V|
                unique_keys(#[trigger] s.update(i as int, (k, v))) && entries_map(
                    s.update(i as int, (k, v)),
                ) == entries_map(s).insert(k, v) by {
                lemma_replaced(s, i as int, v);
            }
        }
        &mut self.entries[i].1
    }

    /// The keys whose value passes the test, each once.
    pub fn keys_where<T: ValueTest<V>>(&self, test: &T) -> (ks: Vec<K>)
        requires
            self.wf(),
        ensures
            ks@.no_duplicates(),
            ks@.to_set() == keys_of(self@, |v: V| test.passes(v)),
            ks@.to_set().finite(),
            ks@.len() == ks@.to_set().len(),
    {
        let ghost p = |v: V| test.passes(v);
        let mut ks: Vec<K> = Vec::new();
        let mut i: usize = 0;
        while i < self.entries.len()
            invariant
                self.wf(),
                i <= self.entries.len(),
                p == (|v: V| test.passes(v)),
                ks@.no_duplicates(),
                forall|k: K| #[trigger]
                    ks@.contains(k) <==> exists|j: int|
                        0 <= j < i && (#[trigger] self.entries@[j]).0 == k && p(self.entries@[j].1),
            decreases self.entries.len() - i,
        {
            let ghost before = ks@;
            let k = self.entries[i].0;
            if test.check(&self.entries[i].1) {
                ks.push(k);
                proof {
                    assert(!before.contains(k)) by {
                        if before.contains(k) {
                            let j = choose|j: int|
                                0 <= j < i && (#[trigger] self.entries@[j]).0 == k && p(self.entries@[j].1);
                            assert(self.entries@[j].0 != self.entries@[i as int].0);
                        }
                    }
                    assert forall|x: K| #[trigger] ks@.contains(x) <==> before.contains(x) || x
                        == k by {
                        if before.contains(x) {
                            let j = choose|j: int| 0 <= j < before.len() && before[j] == x;
                            assert(ks@[j] == x);
                        }
                        if x == k {
                            assert(ks@[before.len() as int] == k);
                        }
                    }
                }
            }
            assert forall|x: K| #[trigger]
                ks@.contains(x) <==> exists|j: int|
                    0 <= j < i + 1 && (#[trigger] self.entries@[j]).0 == x && p(self.entries@[j].1) by {
                if ks@.contains(x) && !before.contains(x) {
                    assert(self.entries@[i as int].0 == x);
                }
            }
            i += 1;
        }
        proof {
            self.lemma_items();
            assert forall|k: K| ks@.contains(k) <==> keys_of(self@, p).contains(k) by {
                if keys_of(self@, p).contains(k) {
                    let j = key_pos(self.items(), k);
                    assert(self.entries@[j].0 == k);
                }
            }
            assert(ks@.to_set() =~= keys_of(self@, p));
            ks@.unique_seq_to_set();
        }
        ks
    }

    /// Whether the value of some key passes the test.
    pub fn any<T: ValueTest<V>>(&self, test: &T) -> (r: bool)
        requires
            self.wf(),
        ensures
            r == exists|k: K| self@.contains_key(k) && test.passes(#[trigger] self@[k]),
    {
        proof {
            self.lemma_items();
        }
        let mut i: usize = 0;
        while i < self.entries.len()
            invariant
                self.wf(),
                i <= self.entries.len(),
                forall|j: int| 0 <= j < i ==> !test.passes((#[trigger] self.entries@[j]).1),
            decreases self.entries.len() - i,
        {
            if test.check(&self.entries[i].1) {
                proof {
                    self.lemma_items();
                    let k = self.items()[i as int].0;
                    assert(self@.contains_key(k) && test.passes(self@[k]));
                }
                return true;
            }
            i += 1;
        }
        proof {
            assert forall|k: K| #[trigger] self@.contains_key(k) implies !test.passes(self@[k]) by {
                let p = key_pos(self.items(), k);
                assert(self.entries@[p].1 == self@[k]);
            }
        }
        false
    }

    /// Drops every listed key.
    pub fn remove_all(&mut self, ks: &Vec<K>)
        requires
            old(self).wf(),
        ensures
            final(self).wf(),
            final(self)@ == old(self)@.remove_keys(ks@.to_set()),
    {
        let mut i: usize = 0;
        assert(old(self)@.remove_keys(ks@.take(0).to_set()) =~= old(self)@);
        while i < ks.len()
            invariant
                i <= ks.len(),
                self.wf(),
                self@ == old(self)@.remove_keys(ks@.take(i as int).to_set()),
            decreases ks.len() - i,
        {
            let k = ks[i];
            let ghost before = self@;
            self.remove(&k);
            proof {
                let a = ks@.take(i as int);
                let b = ks@.take(i + 1);
                assert(b =~= a.push(k));
                assert forall|x: K| b.to_set().contains(x) <==> a.to_set().contains(x) || x == k by {
                    if a.to_set().contains(x) {
                        let j = choose|j: int| 0 <= j < a.len() && a[j] == x;
                        assert(b[j] == x);
                    }
                    if x == k {
                        assert(b[i as int] == k);
                    }
                }
                assert(self@ =~= old(self)@.remove_keys(b.to_set()));
            }
            i += 1;
        }
        assert(ks@.take(ks@.len() as int) =~= ks@);
    }
}

/// Keys of the map whose value satisfies the predicate.
pub open spec fn keys_of<K, V>(m: Map<K, V>, p: spec_fn(V) -> bool) -> Set<K> {
    m.dom().filter(|k: K| p(m[k]))
}

/// Replacing the value of an entry updates the map.
pub proof fn lemma_replaced<K, V>(s: Seq<(K, V)>, i: int, v: V)
    requires
        unique_keys(s),
        0 <= i < s.len(),
    ensures
        unique_keys(s.update(i, (s[i].0, v))),
        entries_map(s.update(i, (s[i].0, v))) == entries_map(s).insert(s[i].0, v),
{
    let k = s[i].0;
    let t = s.update(i, (k, v));
    assert(forall|j: int| 0 <= j < s.len() ==> (#[trigger] t[j]).0 == s[j].0);
    lemma_entries(s);
    lemma_entries(t);
    assert forall|x: K| has_key(t, x) <==> has_key(s, x) by {
        if has_key(t, x) {
            assert(s[key_pos(t, x)].0 == x);
        }
        if has_key(s, x) {
            assert(t[key_pos(s, x)].0 == x);
        }
    }
    assert forall|x: K| #[trigger] entries_map(t).contains_key(x) && x != k implies entries_map(t)[x]
        == entries_map(s)[x] by {
        let p = key_pos(t, x);
        assert(t[p].0 == x);
        assert(s[p] == t[p]);
    }
    assert(t[i].0 == k);
    assert(entries_map(t) =~= entries_map(s).insert(k, v));
}

/// Adding an entry with a new key extends the map.
pub proof fn lemma_pushed<K, V>(s: Seq<(K, V)>, k: K, v: V)
    requires
        unique_keys(s),
        !entries_map(s).contains_key(k),
    ensures
        unique_keys(s.push((k, v))),
        entries_map(s.push((k, v))) == entries_map(s).insert(k, v),
{
    let t = s.push((k, v));
    assert forall|i: int| 0 <= i < s.len() implies (#[trigger] s[i]).0 != k by {
        assert(has_key(s, s[i].0));
    }
    assert forall|i: int, j: int| 0 <= i < t.len() && 0 <= j < t.len() && i != j implies (
    #[trigger] t[i]).0 != (#[trigger] t[j]).0 by {
        if i < s.len() && j < s.len() {
            assert(s[i].0 != s[j].0);
        } else if i < s.len() {
            assert(s[i].0 != k);
        } else {
            assert(s[j].0 != k);
        }
    }
    lemma_entries(s);
    lemma_entries(t);
    assert forall|x: K| has_key(t, x) <==> has_key(s, x) || x == k by {
        if has_key(t, x) && x != k {
            assert(s[key_pos(t, x)].0 == x);
        }
        if has_key(s, x) {
            assert(t[key_pos(s, x)].0 == x);
        }
        if x == k {
            assert(t[s.len() as int].0 == x);
        }
    }
    assert forall|x: K| #[trigger] entries_map(t).contains_key(x) && x != k implies entries_map(t)[x]
        == entries_map(s)[x] by {
        let p = key_pos(t, x);
        assert(t[p].0 == x);
        assert(s[p] == t[p]);
    }
    assert(t[s.len() as int].0 == k);
    assert(entries_map(t) =~= entries_map(s).insert(k, v));
}

proof fn lemma_removed<K, V>(s: Seq<(K, V)>, i: int)
    requires
        unique_keys(s),
        0 <= i < s.len(),
    ensures
        unique_keys(s.remove(i)),
        entries_map(s.remove(i)) == entries_map(s).remove(s[i].0),
{
    let t = s.remove(i);
    let k = s[i].0;
    assert forall|a: int, b: int| 0 <= a < t.len() && 0 <= b < t.len() && a != b implies (
    #[trigger] t[a]).0 != (#[trigger] t[b]).0 by {
        let a2 = if a < i { a } else { a + 1 };
        let b2 = if b < i { b } else { b + 1 };
        assert(s[a2].0 != s[b2].0);
    }
    lemma_entries(s);
    lemma_entries(t);
    assert forall|x: K| has_key(t, x) <==> has_key(s, x) && x != k by {
        if has_key(t, x) {
            let p = key_pos(t, x);
            let p2 = if p < i { p } else { p + 1 };
            assert(s[p2].0 == x);
            assert(s[p2].0 != s[i].0);
        }
        if has_key(s, x) && x != k {
            let p = key_pos(s, x);
            let p2 = if p < i { p } else { p - 1 };
            assert(t[p2].0 == x);
        }
    }
    assert forall|x: K| #[trigger] entries_map(t).contains_key(x) implies entries_map(t)[x]
        == entries_map(s)[x] by {
        let p = key_pos(t, x);
        let p2 = if p < i { p } else { p + 1 };
        assert(t[p].0 == x);
        assert(s[p2] == t[p]);
    }
    assert(entries_map(t) =~= entries_map(s).remove(k));
}

} // verus!
