//! A map keyed by strings, kept as a list of entries in which no key occurs
//! twice. A lookup walks the list, and every operation hands values over by
//! move.

use vstd::prelude::*;

verus! {

#[derive(Debug)]
struct Entry<V> {
    key: String,
    value: V,
}

/// A finite map from strings to values.
///
/// The entries are held in a vector. The map is well formed when no two
/// entries have the same key; every operation keeps it so.
#[derive(Debug)]
pub struct StringMap<V> {
    entries: Vec<Entry<V>>,
}

impl<V> View for StringMap<V> {
    type V = Map<Seq<char>, V>;

    closed spec fn view(&self) -> Map<Seq<char>, V> {
        Map::new(
            |k: Seq<char>| self.keys().contains(k),
            |k: Seq<char>| self.entries@[self.keys().index_of(k)].value,
        )
    }
}

impl<V> StringMap<V> {
    /// The keys in the order in which the entries are stored.
    pub closed spec fn keys(&self) -> Seq<Seq<char>> {
        self.entries@.map_values(|e: Entry<V>| e.key@)
    }

    /// The number of entries.
    pub closed spec fn spec_len(&self) -> nat {
        self.entries@.len()
    }

    /// No key occurs in two entries.
    pub closed spec fn wf(&self) -> bool {
        self.keys().no_duplicates()
    }

    /// Entry `i` is what the map holds under the key of entry `i`.
    proof fn lemma_entry(&self, i: int)
        requires
            self.wf(),
            0 <= i < self.entries@.len(),
        ensures
            self@.contains_key(self.keys()[i]),
            self@[self.keys()[i]] == self.entries@[i].value,
            self.keys().index_of(self.keys()[i]) == i,
    {
        let ks = self.keys();
        assert(ks.contains(ks[i]));
        let j = ks.index_of(ks[i]);
        assert(0 <= j < ks.len() && ks[j] == ks[i]);
    }

    /// The keys of the map are the keys of the entries, and the map is well
    /// formed exactly when no key is stored twice.
    pub proof fn lemma_dom(&self)
        ensures
            self@.dom() =~= self.keys().to_set(),
            self.wf() == self.keys().no_duplicates(),
            self.keys().len() == self.spec_len(),
    {
    }

    /// A well-formed map is finite and has as many keys as entries.
    pub proof fn lemma_finite(&self)
        requires
            self.wf(),
        ensures
            self@.dom().finite(),
            self@.len() == self.spec_len(),
    {
        self.lemma_dom();
        vstd::seq_lib::seq_to_set_is_finite(self.keys());
        self.keys().unique_seq_to_set();
    }

    /// The empty map.
    pub fn new() -> (m: StringMap<V>)
        ensures
            m.wf(),
            m@ == Map::<Seq<char>, V>::empty(),
    {
        let m = StringMap { entries: Vec::new() };
        assert(m@ =~= Map::<Seq<char>, V>::empty());
        m
    }

    /// The number of keys.
    pub fn len(&self) -> (n: usize)
        requires
            self.wf(),
        ensures
            self@.dom().finite(),
            n == self@.len(),
    {
        proof {
            self.lemma_finite();
        }
        self.entries.len()
    }

    /// Whether the map has no key.
    pub fn is_empty(&self) -> (empty: bool)
        requires
            self.wf(),
        ensures
            empty == (self@ == Map::<Seq<char>, V>::empty()),
    {
        proof {
            if self.entries@.len() == 0 {
                assert(self@ =~= Map::<Seq<char>, V>::empty());
            } else {
                self.lemma_entry(0);
            }
        }
        self.entries.len() == 0
    }

    /// The position of the entry with the given key, if there is one.
    fn find(&self, key: &String) -> (found: Option<usize>)
        ensures
            match found {
                Some(i) => i < self.entries@.len() && self.keys()[i as int] == key@,
                None => !self.keys().contains(key@),
            },
    {
        let mut i: usize = 0;
        while i < self.entries.len()
            invariant
                i <= self.entries@.len(),
                forall|j: int| 0 <= j < i ==> self.keys()[j] != key@,
            decreases self.entries@.len() - i,
        {
            if self.entries[i].key == *key {
                return Some(i);
            }
            i += 1;
        }
        None
    }

    /// Whether the map holds a value under `key`.
    pub fn contains_key(&self, key: &String) -> (held: bool)
        requires
            self.wf(),
        ensures
            held == self@.contains_key(key@),
    {
        match self.find(key) {
            Some(i) => {
                proof {
                    self.lemma_entry(i as int);
                }
                true
            },
            None => false,
        }
    }

    /// The value held under `key`, if there is one.
    pub fn get(&self, key: &String) -> (value: Option<&V>)
        requires
            self.wf(),
        ensures
            match value {
                Some(v) => self@.contains_key(key@) && *v == self@[key@],
                None => !self@.contains_key(key@),
            },
    {
        match self.find(key) {
            Some(i) => {
                proof {
                    self.lemma_entry(i as int);
                }
                Some(&self.entries[i].value)
            },
            None => None,
        }
    }

    /// Takes entry `i` out of the map.
    fn take_at(&mut self, i: usize) -> (entry: Entry<V>)
        requires
            old(self).wf(),
            i < old(self).entries@.len(),
        ensures
            final(self).wf(),
            entry == old(self).entries@[i as int],
            final(self)@ == old(self)@.remove(entry.key@),
    {
        let entry = self.entries.swap_remove(i);
        proof {
            let before = old(self).keys();
            let after = self.keys();
            let last = before.len() - 1;
            assert(after.len() == last);
            assert forall|j: int| 0 <= j < after.len() implies after[j] == (if j == i {
                before[last]
            } else {
                before[j]
            }) by {}
            assert(after.no_duplicates());
            assert forall|k: Seq<char>| #[trigger]
                self@.contains_key(k) == old(self)@.remove(entry.key@).contains_key(k) by {
                if after.contains(k) {
                    let j = after.index_of(k);
                    let src = if j == i {
                        last
                    } else {
                        j
                    };
                    assert(before[src] == k);
                    assert(before.contains(k));
                }
                if before.contains(k) && k != before[i as int] {
                    let j = before.index_of(k);
                    let dst = if j == last {
                        i as int
                    } else {
                        j
                    };
                    assert(after[dst] == k);
                    assert(after.contains(k));
                }
            }
            assert forall|k: Seq<char>| #[trigger] self@.contains_key(k) implies self@[k] == old(
                self,
            )@[k] by {
                let j = after.index_of(k);
                let src = if j == i {
                    last
                } else {
                    j
                };
                self.lemma_entry(j);
                old(self).lemma_entry(src);
            }
            assert(self@ =~= old(self)@.remove(entry.key@));
        }
        entry
    }

    /// Adds an entry under a key that the map does not hold yet.
    fn push_new(&mut self, key: String, value: V)
        requires
            old(self).wf(),
            !old(self)@.contains_key(key@),
        ensures
            final(self).wf(),
            final(self)@ == old(self)@.insert(key@, value),
    {
        let ghost k0 = key@;
        self.entries.push(Entry { key, value });
        proof {
            let before = old(self).keys();
            let after = self.keys();
            let last = before.len() as int;
            assert(after =~= before.push(k0));
            assert(after.no_duplicates()) by {
                assert forall|a: int, b: int|
                    0 <= a < after.len() && 0 <= b < after.len() && a != b implies after[a]
                    != after[b] by {
                    if a == last {
                        assert(before.contains(after[b]) ==> old(self)@.contains_key(after[b]));
                        assert(before[b] == after[b]);
                    } else if b == last {
                        assert(before.contains(after[a]) ==> old(self)@.contains_key(after[a]));
                        assert(before[a] == after[a]);
                    }
                }
            }
            assert forall|k: Seq<char>| #[trigger]
                self@.contains_key(k) == old(self)@.insert(k0, value).contains_key(k) by {
                if before.contains(k) {
                    let j = before.index_of(k);
                    assert(after[j] == k);
                }
                if k == k0 {
                    assert(after[last] == k);
                }
                if after.contains(k) && k != k0 {
                    let j = after.index_of(k);
                    assert(before[j] == k);
                }
            }
            assert forall|k: Seq<char>| #[trigger] self@.contains_key(k) implies self@[k] == old(
                self,
            )@.insert(k0, value)[k] by {
                let j = after.index_of(k);
                self.lemma_entry(j);
                if j != last {
                    old(self).lemma_entry(j);
                }
            }
            assert(self@ =~= old(self)@.insert(k0, value));
        }
    }

    /// Puts `value` under `key` and hands back the value that was held under
    /// that key before, if there was one.
    pub fn insert(&mut self, key: String, value: V) -> (previous: Option<V>)
        requires
            old(self).wf(),
        ensures
            final(self).wf(),
            final(self)@ == old(self)@.insert(key@, value),
            previous == (if old(self)@.contains_key(key@) {
                Some(old(self)@[key@])
            } else {
                None
            }),
    {
        let previous = self.remove(&key);
        assert(old(self)@.remove(key@).insert(key@, value) =~= old(self)@.insert(key@, value));
        self.push_new(key, value);
        previous
    }

    /// Removes `key` and hands back the value that was held under it, if there
    /// was one. A key that the map does not hold leaves the map as it is.
    pub fn remove(&mut self, key: &String) -> (removed: Option<V>)
        requires
            old(self).wf(),
        ensures
            final(self).wf(),
            final(self)@ == old(self)@.remove(key@),
            removed == (if old(self)@.contains_key(key@) {
                Some(old(self)@[key@])
            } else {
                None
            }),
    {
        match self.find(key) {
            Some(i) => {
                proof {
                    self.lemma_entry(i as int);
                }
                let entry = self.take_at(i);
                Some(entry.value)
            },
            None => {
                assert(self@.remove(key@) =~= self@);
                None
            },
        }
    }
}

} // verus!
