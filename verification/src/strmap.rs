//! A map keyed by strings that keeps its entries in insertion order.
//!
//! It stands where a `HashMap<String, V>` would: `get`, `contains_key` and
//! `insert` behave as a hash map's do, and the entries are walked in the
//! order in which their keys were first inserted.
use vstd::prelude::*;
use crate::text::chars_eq;
use crate::text::chars_of;

verus! {

/// The index of the first entry of `s` whose key is `k`.
pub open spec fn key_index<X>(s: Seq<(Seq<char>, X)>, k: Seq<char>) -> Option<int>
    decreases s.len(),
{
    if s.len() == 0 {
        None
    } else if s[0].0 == k {
        Some(0)
    } else {
        match key_index(s.drop_first(), k) {
            Some(i) => Some(i + 1),
            None => None,
        }
    }
}

/// Whether some entry of `s` has the key `k`.
pub open spec fn has_key<X>(s: Seq<(Seq<char>, X)>, k: Seq<char>) -> bool {
    key_index(s, k) is Some
}

/// The value stored under `k` in `s`.
pub open spec fn lookup<X>(s: Seq<(Seq<char>, X)>, k: Seq<char>) -> Option<X> {
    match key_index(s, k) {
        Some(i) => Some(s[i].1),
        None => None,
    }
}

/// `s` after storing `v` under `k`: the entry of `k` is overwritten in place,
/// or a new entry is appended.
pub open spec fn insert_kv<X>(s: Seq<(Seq<char>, X)>, k: Seq<char>, v: X) -> Seq<(Seq<char>, X)> {
    match key_index(s, k) {
        Some(i) => s.update(i, (k, v)),
        None => s.push((k, v)),
    }
}

/// `s` without the entry of `k`.
pub open spec fn remove_kv<X>(s: Seq<(Seq<char>, X)>, k: Seq<char>) -> Seq<(Seq<char>, X)> {
    match key_index(s, k) {
        Some(i) => s.remove(i),
        None => s,
    }
}

/// `s` with the entries of `t` whose keys it lacks appended, in the order of
/// `t` (a `HashMap::entry(..).or_insert(..)` for each entry of `t`).
pub open spec fn insert_absent<X>(s: Seq<(Seq<char>, X)>, t: Seq<(Seq<char>, X)>) -> Seq<(Seq<char>, X)>
    decreases t.len(),
{
    if t.len() == 0 {
        s
    } else {
        let s2 = if has_key(s, t[0].0) {
            s
        } else {
            s.push(t[0])
        };
        insert_absent(s2, t.drop_first())
    }
}

/// `s` after storing each pair of `kvs`, in order.
pub open spec fn insert_seq<X>(s: Seq<(Seq<char>, X)>, kvs: Seq<(Seq<char>, X)>) -> Seq<(Seq<char>, X)>
    decreases kvs.len(),
{
    if kvs.len() == 0 {
        s
    } else {
        insert_seq(insert_kv(s, kvs[0].0, kvs[0].1), kvs.drop_first())
    }
}

/// The keys of `s`, in order.
pub open spec fn keys_of<X>(s: Seq<(Seq<char>, X)>) -> Seq<Seq<char>> {
    s.map_values(|e: (Seq<char>, X)| e.0)
}

/// `key_index` finds the first entry with the key.
pub proof fn lemma_key_index<X>(s: Seq<(Seq<char>, X)>, k: Seq<char>, i: int)
    requires
        0 <= i <= s.len(),
        forall|j: int| 0 <= j < i ==> (#[trigger] s[j]).0 != k,
    ensures
        i < s.len() && s[i].0 == k ==> key_index(s, k) == Some(i),
        i == s.len() ==> key_index(s, k) is None,
    decreases i,
{
    if i > 0 {
        assert forall|j: int| 0 <= j < i - 1 implies (#[trigger] s.drop_first()[j]).0 != k by {
            assert(s.drop_first()[j] == s[j + 1]);
        }
        lemma_key_index(s.drop_first(), k, i - 1);
    }
}

/// What `key_index` finds lies in range and has the key.
pub proof fn lemma_key_index_bound<X>(s: Seq<(Seq<char>, X)>, k: Seq<char>)
    ensures
        match key_index(s, k) {
            Some(i) => 0 <= i < s.len() && s[i].0 == k,
            None => forall|j: int| 0 <= j < s.len() ==> (#[trigger] s[j]).0 != k,
        },
    decreases s.len(),
{
    if s.len() > 0 && s[0].0 != k {
        lemma_key_index_bound(s.drop_first(), k);
        if key_index(s.drop_first(), k) is None {
            assert forall|j: int| 0 <= j < s.len() implies (#[trigger] s[j]).0 != k by {
                if j > 0 {
                    assert(s[j] == s.drop_first()[j - 1]);
                }
            }
        }
    }
}

/// `key_index` finds the first entry with the key: no earlier entry has it.
pub proof fn lemma_key_index_first<X>(s: Seq<(Seq<char>, X)>, k: Seq<char>)
    ensures
        key_index(s, k) matches Some(i) ==> forall|j: int| 0 <= j < i ==> (#[trigger] s[j]).0 != k,
    decreases s.len(),
{
    if s.len() > 0 && s[0].0 != k {
        lemma_key_index_first(s.drop_first(), k);
        lemma_key_index_bound(s, k);
        if key_index(s, k) is Some {
            let i = key_index(s, k)->0;
            assert forall|j: int| 0 <= j < i implies (#[trigger] s[j]).0 != k by {
                if j > 0 {
                    assert(s[j] == s.drop_first()[j - 1]);
                }
            }
        }
    }
}

proof fn lemma_key_index_exact<X>(s: Seq<(Seq<char>, X)>, k: Seq<char>)
    ensures
        match key_index(s, k) {
            Some(i) => 0 <= i < s.len() && s[i].0 == k && forall|j: int| 0 <= j < i ==> (#[trigger] s[j]).0 != k,
            None => forall|j: int| 0 <= j < s.len() ==> (#[trigger] s[j]).0 != k,
        },
{
    lemma_key_index_bound(s, k);
    lemma_key_index_first(s, k);
}

/// Whether no key occurs twice in `s`.
pub open spec fn distinct_keys<X>(s: Seq<(Seq<char>, X)>) -> bool {
    forall|i: int, j: int| 0 <= i < j < s.len() ==> (#[trigger] s[i]).0 != (#[trigger] s[j]).0
}

/// Storing `v` under `k` and reading back: `k` gives `v`, every other key
/// gives what it gave before, and no key comes to occur twice.
pub proof fn law_insert_lookup<X>(s: Seq<(Seq<char>, X)>, k: Seq<char>, v: X, other: Seq<char>)
    ensures
        lookup(insert_kv(s, k, v), k) == Some(v),
        other != k ==> lookup(insert_kv(s, k, v), other) == lookup(s, other),
        distinct_keys(s) ==> distinct_keys(insert_kv(s, k, v)),
{
    lemma_key_index_exact(s, k);
    lemma_key_index_exact(s, other);
    let t = insert_kv(s, k, v);
    match key_index(s, k) {
        Some(i) => {
            assert forall|j: int| 0 <= j < t.len() implies (#[trigger] t[j]).0 == s[j].0 by {}
            lemma_key_index(t, k, i);
            if other != k {
                match key_index(s, other) {
                    Some(m) => {
                        assert(m != i);
                        lemma_key_index(t, other, m);
                    },
                    None => {
                        lemma_key_index(t, other, t.len() as int);
                    },
                }
            }
        },
        None => {
            lemma_key_index(t, k, s.len() as int);
            if other != k {
                match key_index(s, other) {
                    Some(m) => {
                        lemma_key_index(t, other, m);
                    },
                    None => {
                        lemma_key_index(t, other, t.len() as int);
                    },
                }
            }
        },
    }
}

/// Removing the entry of `k` from a map whose keys are distinct: `k` gives
/// nothing afterwards, every other key gives what it gave before, and the
/// keys stay distinct.
pub proof fn law_remove_lookup<X>(s: Seq<(Seq<char>, X)>, k: Seq<char>, other: Seq<char>)
    requires
        distinct_keys(s),
    ensures
        lookup(remove_kv(s, k), k) is None,
        other != k ==> lookup(remove_kv(s, k), other) == lookup(s, other),
        distinct_keys(remove_kv(s, k)),
{
    lemma_key_index_exact(s, k);
    lemma_key_index_exact(s, other);
    let t = remove_kv(s, k);
    match key_index(s, k) {
        Some(i) => {
            assert forall|j: int| 0 <= j < t.len() implies (#[trigger] t[j]).0 != k by {
                if j < i {
                    assert(t[j] == s[j]);
                } else {
                    assert(t[j] == s[j + 1]);
                }
            }
            lemma_key_index(t, k, t.len() as int);
            assert forall|a: int, b: int| 0 <= a < b < t.len() implies (#[trigger] t[a]).0 != (#[trigger] t[b]).0 by {
                let a2 = if a < i { a } else { a + 1 };
                let b2 = if b < i { b } else { b + 1 };
                assert(t[a] == s[a2] && t[b] == s[b2]);
            }
            if other != k {
                match key_index(s, other) {
                    Some(m) => {
                        assert(m != i);
                        let m2 = if m < i { m } else { m - 1 };
                        assert forall|j: int| 0 <= j < m2 implies (#[trigger] t[j]).0 != other by {
                            if j < i {
                                assert(t[j] == s[j]);
                            } else {
                                assert(t[j] == s[j + 1]);
                            }
                        }
                        assert(t[m2] == s[m]);
                        lemma_key_index(t, other, m2);
                    },
                    None => {
                        assert forall|j: int| 0 <= j < t.len() implies (#[trigger] t[j]).0 != other by {
                            if j < i {
                                assert(t[j] == s[j]);
                            } else {
                                assert(t[j] == s[j + 1]);
                            }
                        }
                        lemma_key_index(t, other, t.len() as int);
                    },
                }
            }
        },
        None => {
            lemma_key_index(t, k, t.len() as int);
        },
    }
}

/// Whether two strings are equal.
pub fn str_eq(a: &str, b: &str) -> (r: bool)
    ensures
        r == (a@ == b@),
{
    let ac = chars_of(a);
    let bc = chars_of(b);
    chars_eq(&ac, &bc)
}

/// A value that can be copied with its view kept.
pub trait Duplicate: View + Sized {
    /// A copy with the same view.
    fn duplicate(&self) -> (r: Self)
        ensures
            r@ == self@,
    ;
}

impl Duplicate for String {
    fn duplicate(&self) -> (r: Self) {
        self.clone()
    }
}

impl Duplicate for usize {
    fn duplicate(&self) -> (r: Self) {
        *self
    }
}

/// A string-keyed map that keeps insertion order.
#[derive(Clone, Debug)]
pub struct StrMap<V> {
    entries: Vec<(String, V)>,
}

impl<V: View> View for StrMap<V> {
    type V = Seq<(Seq<char>, V::V)>;

    closed spec fn view(&self) -> Self::V {
        self.entries@.map_values(|e: (String, V)| (e.0@, e.1@))
    }
}

impl<V: View> StrMap<V> {
    /// An empty map.
    pub fn new() -> (m: Self)
        ensures
            m@ == Seq::<(Seq<char>, V::V)>::empty(),
    {
        let m = StrMap { entries: Vec::new() };
        assert(m@ =~= Seq::<(Seq<char>, V::V)>::empty());
        m
    }

    /// The number of entries.
    pub fn len(&self) -> (n: usize)
        ensures
            n == self@.len(),
    {
        self.entries.len()
    }

    /// Whether the map has no entry.
    pub fn is_empty(&self) -> (b: bool)
        ensures
            b == (self@.len() == 0),
    {
        self.entries.len() == 0
    }

    /// The key of the `i`-th entry.
    pub fn key_at(&self, i: usize) -> (k: &String)
        requires
            i < self@.len(),
        ensures
            k@ == self@[i as int].0,
    {
        &self.entries[i].0
    }

    /// The value of the `i`-th entry.
    pub fn value_at(&self, i: usize) -> (v: &V)
        requires
            i < self@.len(),
        ensures
            v@ == self@[i as int].1,
    {
        &self.entries[i].1
    }

    /// The position of the entry of `key`.
    pub fn find(&self, key: &str) -> (r: Option<usize>)
        ensures
            match r {
                Some(i) => key_index(self@, key@) == Some(i as int),
                None => key_index(self@, key@) is None,
            },
    {
        let mut i: usize = 0;
        while i < self.entries.len()
            invariant
                i <= self@.len(),
                self@.len() == self.entries@.len(),
                forall|j: int| 0 <= j < i ==> (#[trigger] self@[j]).0 != key@,
            decreases self.entries.len() - i,
        {
            assert(self@[i as int].0 == self.entries@[i as int].0@);
            if str_eq(self.entries[i].0.as_str(), key) {
                proof {
                    lemma_key_index(self@, key@, i as int);
                }
                return Some(i);
            }
            i = i + 1;
        }
        proof {
            lemma_key_index(self@, key@, i as int);
        }
        None
    }

    /// The value stored under `key`.
    pub fn get(&self, key: &str) -> (r: Option<&V>)
        ensures
            match lookup(self@, key@) {
                Some(v) => r is Some && r->0@ == v,
                None => r is None,
            },
    {
        proof {
            lemma_key_index_bound(self@, key@);
        }
        match self.find(key) {
            Some(i) => Some(&self.entries[i].1),
            None => None,
        }
    }

    /// Whether some entry has the key `key`.
    pub fn contains_key(&self, key: &str) -> (b: bool)
        ensures
            b == has_key(self@, key@),
    {
        self.find(key).is_some()
    }

    /// Stores `value` under `key`, overwriting the entry of `key` if it has one.
    pub fn insert(&mut self, key: String, value: V)
        ensures
            final(self)@ == insert_kv(old(self)@, key@, value@),
    {
        proof {
            lemma_key_index_bound(self@, key@);
        }
        match self.find(key.as_str()) {
            Some(i) => {
                let ghost kv = (key@, value@);
                self.entries.set(i, (key, value));
                proof {
                    assert(self@ =~= old(self)@.update(i as int, kv));
                }
            },
            None => {
                let ghost kv = (key@, value@);
                self.entries.push((key, value));
                proof {
                    assert(self@ =~= old(self)@.push(kv));
                }
            },
        }
    }

    /// Removes the entry of `key`, returning its value.
    pub fn remove(&mut self, key: &str) -> (r: Option<V>)
        ensures
            final(self)@ == remove_kv(old(self)@, key@),
            match lookup(old(self)@, key@) {
                Some(v) => r is Some && r->0@ == v,
                None => r is None,
            },
    {
        proof {
            lemma_key_index_bound(self@, key@);
        }
        match self.find(key) {
            Some(i) => {
                let (_, v) = self.entries.remove(i);
                proof {
                    assert(self@ =~= old(self)@.remove(i as int));
                }
                Some(v)
            },
            None => None,
        }
    }

    /// Takes out the `i`-th entry.
    pub fn remove_at(&mut self, i: usize) -> (r: (String, V))
        requires
            i < old(self)@.len(),
        ensures
            final(self)@ == old(self)@.remove(i as int),
            (r.0@, r.1@) == old(self)@[i as int],
    {
        let ghost s0 = self@;
        let r = self.entries.remove(i);
        proof {
            assert(self@ =~= s0.remove(i as int));
        }
        r
    }

    /// Puts an entry back at position `i`.
    pub fn insert_at(&mut self, i: usize, key: String, value: V)
        requires
            i <= old(self)@.len(),
        ensures
            final(self)@ == old(self)@.insert(i as int, (key@, value@)),
    {
        let ghost s0 = self@;
        let ghost kv = (key@, value@);
        self.entries.insert(i, (key, value));
        proof {
            assert(self@ =~= s0.insert(i as int, kv));
        }
    }

    /// Adds the entries of `other` whose keys this map lacks, in the order of
    /// `other`; entries already here are kept as they are.
    pub fn insert_absent(&mut self, other: StrMap<V>)
        ensures
            final(self)@ == insert_absent(old(self)@, other@),
    {
        let mut rest = other;
        proof {
            assert(insert_absent(old(self)@, other@) == insert_absent(self@, rest@));
        }
        while rest.entries.len() > 0
            invariant
                insert_absent(old(self)@, other@) == insert_absent(self@, rest@),
            decreases rest.entries.len(),
        {
            let ghost r0 = rest@;
            let ghost s0 = self@;
            let (k, v) = rest.entries.remove(0);
            proof {
                assert(rest@ =~= r0.drop_first());
                assert(r0[0] == (k@, v@));
            }
            if !self.contains_key(k.as_str()) {
                let ghost kv = (k@, v@);
                self.entries.push((k, v));
                proof {
                    assert(self@ =~= s0.push(kv));
                }
            }
        }
        proof {
            assert(rest@.len() == 0);
        }
    }
}

impl<V: Duplicate> StrMap<V> {
    /// A copy with the same entries.
    pub fn duplicate(&self) -> (r: Self)
        ensures
            r@ == self@,
    {
        let mut entries: Vec<(String, V)> = Vec::new();
        let mut i: usize = 0;
        while i < self.entries.len()
            invariant
                i <= self.entries@.len(),
                entries@.len() == i,
                forall|j: int| 0 <= j < i ==> (#[trigger] entries@[j]).0@ == self.entries@[j].0@
                    && entries@[j].1@ == self.entries@[j].1@,
            decreases self.entries.len() - i,
        {
            let k = self.entries[i].0.clone();
            let v = self.entries[i].1.duplicate();
            entries.push((k, v));
            i = i + 1;
        }
        let r = StrMap { entries };
        assert(r@ =~= self@);
        r
    }

    /// Stores every entry of `other` in turn, overwriting entries with the
    /// same keys (`HashMap::extend`).
    pub fn extend(&mut self, other: &StrMap<V>)
        ensures
            final(self)@ == insert_seq(old(self)@, other@),
    {
        let mut i: usize = 0;
        proof {
            assert(other@.skip(0) =~= other@);
        }
        while i < other.entries.len()
            invariant
                i <= other@.len(),
                insert_seq(old(self)@, other@) == insert_seq(self@, other@.skip(i as int)),
            decreases other@.len() - i,
        {
            let k = other.entries[i].0.clone();
            let v = other.entries[i].1.duplicate();
            proof {
                assert(other@.skip(i as int).drop_first() =~= other@.skip(i + 1));
                assert(other@.skip(i as int)[0] == other@[i as int]);
            }
            self.insert(k, v);
            i = i + 1;
        }
        proof {
            assert(other@.skip(i as int).len() == 0);
        }
    }
}

} // verus!
