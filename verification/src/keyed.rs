//! A map keyed by text, kept as a list of entries with distinct keys.

use vstd::prelude::*;
use crate::text::text_eq;

verus! {

/// A finite map from text keys to values. Each key occurs in at most one entry.
pub struct StrMap<V> {
    entries: Vec<(String, V)>,
}

impl<V> StrMap<V> {
    /// No two entries share a key.
    pub closed spec fn wf(self) -> bool {
        forall|i: int, j: int|
            0 <= i < self.entries@.len() && 0 <= j < self.entries@.len() && i != j
                ==> #[trigger] self.entries@[i].0@ != #[trigger] self.entries@[j].0@
    }

    closed spec fn has_key_at(self, k: Seq<char>, i: int) -> bool {
        0 <= i < self.entries@.len() && self.entries@[i].0@ == k
    }

    /// The map that the entries describe.
    pub closed spec fn view(self) -> Map<Seq<char>, V> {
        Map::new(
            |k: Seq<char>| exists|i: int| self.has_key_at(k, i),
            |k: Seq<char>| self.entries@[choose|i: int| self.has_key_at(k, i)].1,
        )
    }

    proof fn lemma_at(self, i: int)
        requires
            self.wf(),
            0 <= i < self.entries@.len(),
        ensures
            self@.contains_key(self.entries@[i].0@),
            self@[self.entries@[i].0@] == self.entries@[i].1,
    {
        let k = self.entries@[i].0@;
        assert(self.has_key_at(k, i));
        let j = choose|j: int| self.has_key_at(k, j);
        assert(self.has_key_at(k, j));
        assert(i == j);
    }

    /// Creates an empty map.
    pub fn new() -> (m: Self)
        ensures
            m.wf(),
            m@ == Map::<Seq<char>, V>::empty(),
    {
        let m = StrMap { entries: Vec::new() };
        assert(m@ =~= Map::<Seq<char>, V>::empty());
        m
    }

    /// Number of keys in the map.
    pub fn len(&self) -> (n: usize)
        requires
            self.wf(),
        ensures
            n == self@.len(),
    {
        proof { self.lemma_len(); }
        self.entries.len()
    }

    proof fn lemma_len(self)
        requires
            self.wf(),
        ensures
            self@.dom().finite(),
            self@.len() == self.entries@.len(),
    {
        let keys = self.entries@.map_values(|e: (String, V)| e.0@);
        assert(keys.no_duplicates()) by {
            assert forall|i: int, j: int|
                0 <= i < keys.len() && 0 <= j < keys.len() && i != j implies keys[i] != keys[j] by {
                assert(self.entries@[i].0@ != self.entries@[j].0@);
            }
        }
        assert(self@.dom() =~= keys.to_set()) by {
            assert forall|k: Seq<char>| self@.dom().contains(k) implies keys.to_set().contains(k) by {
                let i = choose|i: int| self.has_key_at(k, i);
                assert(keys[i] == k);
            }
            assert forall|k: Seq<char>| keys.to_set().contains(k) implies self@.dom().contains(k) by {
                let i = choose|i: int| 0 <= i < keys.len() && keys[i] == k;
                assert(self.has_key_at(k, i));
            }
        }
        keys.unique_seq_to_set();
    }

    /// Position of the entry holding `key`, if any.
    fn find(&self, key: &str) -> (r: Option<usize>)
        requires
            self.wf(),
        ensures
            match r {
                Some(i) => i < self.entries@.len() && self.entries@[i as int].0@ == key@,
                None => !self@.contains_key(key@),
            },
    {
        let mut i: usize = 0;
        while i < self.entries.len()
            invariant
                i <= self.entries@.len(),
                forall|j: int| 0 <= j < i ==> self.entries@[j].0@ != key@,
            decreases self.entries@.len() - i,
        {
            if text_eq(self.entries[i].0.as_str(), key) {
                return Some(i);
            }
            i = i + 1;
        }
        None
    }

    /// Looks a key up.
    pub fn get(&self, key: &str) -> (r: Option<&V>)
        requires
            self.wf(),
        ensures
            match r {
                Some(v) => self@.contains_key(key@) && *v == self@[key@],
                None => !self@.contains_key(key@),
            },
    {
        match self.find(key) {
            Some(i) => {
                proof { self.lemma_at(i as int); }
                Some(&self.entries[i].1)
            },
            None => None,
        }
    }

    /// Returns whether the key is present.
    pub fn contains_key(&self, key: &str) -> (r: bool)
        requires
            self.wf(),
        ensures
            r == self@.contains_key(key@),
    {
        match self.find(key) {
            Some(i) => {
                proof { self.lemma_at(i as int); }
                true
            },
            None => false,
        }
    }

    /// Removes the entry for `key` and hands its value back.
    pub fn take(&mut self, key: &str) -> (r: Option<V>)
        requires
            old(self).wf(),
        ensures
            final(self).wf(),
            final(self)@ == old(self)@.remove(key@),
            match r {
                Some(v) => old(self)@.contains_key(key@) && v == old(self)@[key@],
                None => !old(self)@.contains_key(key@),
            },
    {
        let ghost before = *self;
        match self.find(key) {
            Some(i) => {
                proof { before.lemma_at(i as int); }
                let (_, v) = self.entries.remove(i);
                proof {
                    assert forall|a: int, b: int|
                        0 <= a < self.entries@.len() && 0 <= b < self.entries@.len() && a != b
                        implies #[trigger] self.entries@[a].0@ != #[trigger] self.entries@[b].0@ by {
                        let a0 = if a < i { a } else { a + 1 };
                        let b0 = if b < i { b } else { b + 1 };
                        assert(self.entries@[a] == before.entries@[a0]);
                        assert(self.entries@[b] == before.entries@[b0]);
                        assert(before.entries@[a0].0@ != before.entries@[b0].0@);
                    }
                    assert forall|k: Seq<char>| k != key@ && #[trigger] before@.contains_key(k)
                        implies self@.contains_key(k) && self@[k] == before@[k] by {
                        let j = choose|j: int| before.has_key_at(k, j);
                        before.lemma_at(j);
                        let j2 = if j < i { j } else { j - 1 };
                        assert(j != i);
                        assert(self.entries@[j2] == before.entries@[j]);
                        self.lemma_at(j2);
                    }
                    assert forall|k: Seq<char>| #[trigger] self@.contains_key(k)
                        implies k != key@ && before@.contains_key(k) by {
                        let j = choose|j: int| self.has_key_at(k, j);
                        let j0 = if j < i { j } else { j + 1 };
                        assert(self.entries@[j] == before.entries@[j0]);
                        assert(before.has_key_at(k, j0));
                        assert(j0 != i);
                        assert(before.entries@[j0].0@ != before.entries@[i as int].0@);
                    }
                    assert(self@ =~= before@.remove(key@));
                }
                Some(v)
            },
            None => {
                assert(self@ =~= before@.remove(key@));
                None
            },
        }
    }

    /// Sets the value for `key`, replacing an earlier one.
    pub fn insert(&mut self, key: String, value: V)
        requires
            old(self).wf(),
        ensures
            final(self).wf(),
            final(self)@ == old(self)@.insert(key@, value),
    {
        let _ = self.take(key.as_str());
        let ghost mid = *self;
        let ghost k = key@;
        self.entries.push((key, value));
        proof {
            let n = mid.entries@.len();
            assert forall|a: int, b: int|
                0 <= a < self.entries@.len() && 0 <= b < self.entries@.len() && a != b
                implies #[trigger] self.entries@[a].0@ != #[trigger] self.entries@[b].0@ by {
                if a < n && b < n {
                    assert(self.entries@[a] == mid.entries@[a]);
                    assert(self.entries@[b] == mid.entries@[b]);
                } else if a == n {
                    assert(self.entries@[b] == mid.entries@[b]);
                    mid.lemma_at(b);
                } else {
                    assert(self.entries@[a] == mid.entries@[a]);
                    mid.lemma_at(a);
                }
            }
            self.lemma_at(n as int);
            assert forall|k2: Seq<char>| k2 != k && #[trigger] mid@.contains_key(k2)
                implies self@.contains_key(k2) && self@[k2] == mid@[k2] by {
                let j = choose|j: int| mid.has_key_at(k2, j);
                mid.lemma_at(j);
                assert(self.entries@[j] == mid.entries@[j]);
                self.lemma_at(j);
            }
            assert forall|k2: Seq<char>| #[trigger] self@.contains_key(k2)
                implies k2 == k || mid@.contains_key(k2) by {
                let j = choose|j: int| self.has_key_at(k2, j);
                if j < n {
                    assert(self.entries@[j] == mid.entries@[j]);
                    assert(mid.has_key_at(k2, j));
                }
            }
            assert(self@ =~= mid@.insert(k, value));
        }
    }
}

} // verus!
