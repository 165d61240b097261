//! A map from text keys to values, kept as a vector of entries whose keys
//! are distinct; entries keep their positions until removed.

use vstd::prelude::*;
use crate::text::str_eq;

verus! {


/// Keys are distinct.
pub open spec fn keys_unique<T>(s: Seq<(String, T)>) -> bool {
    forall|i: int, j: int| 0 <= i < j < s.len() ==> s[i].0@ != s[j].0@
}

/// Some entry has key `k`.
pub open spec fn has_key<T>(s: Seq<(String, T)>, k: Seq<char>) -> bool {
    exists|i: int| 0 <= i < s.len() && #[trigger] s[i].0@ == k
}

/// The position of the entry with key `k`.
pub open spec fn index_of<T>(s: Seq<(String, T)>, k: Seq<char>) -> int {
    choose|i: int| 0 <= i < s.len() && #[trigger] s[i].0@ == k
}

/// The entries as a map from key to value.
pub open spec fn entries_map<T>(s: Seq<(String, T)>) -> Map<Seq<char>, T> {
    Map::new(|k: Seq<char>| has_key(s, k), |k: Seq<char>| s[index_of(s, k)].1)
}

/// The map built from `pairs` in order, a later pair replacing an earlier
/// one with the same key.
pub open spec fn pairs_map<T>(pairs: Seq<(String, T)>) -> Map<Seq<char>, T>
    decreases pairs.len(),
{
    if pairs.len() == 0 {
        Map::empty()
    } else {
        pairs_map(pairs.drop_last()).insert(pairs.last().0@, pairs.last().1)
    }
}

pub proof fn lemma_index_of<T>(s: Seq<(String, T)>, i: int)
    requires
        keys_unique(s),
        0 <= i < s.len(),
    ensures
        has_key(s, s[i].0@),
        index_of(s, s[i].0@) == i,
        entries_map(s).dom().contains(s[i].0@),
        entries_map(s)[s[i].0@] == s[i].1,
{
    let k = s[i].0@;
    assert(s[i].0@ == k);
    let j = index_of(s, k);
    assert(0 <= j < s.len() && s[j].0@ == k);
    if j < i {
        assert(s[j].0@ != s[i].0@);
    } else if j > i {
        assert(s[i].0@ != s[j].0@);
    }
}

/// Values keyed by text (a session or swarm id), each key at most once.
pub struct KeyedMap<T> {
    entries: Vec<(String, T)>,
}

impl<T> View for KeyedMap<T> {
    type V = Map<Seq<char>, T>;

    closed spec fn view(&self) -> Map<Seq<char>, T> {
        entries_map(self.entries@)
    }
}

impl<T> KeyedMap<T> {
    /// Keys are distinct.
    pub closed spec fn wf(&self) -> bool {
        keys_unique(self.entries@)
    }

    /// An empty registry.
    pub fn new() -> (r: Self)
        ensures
            r.wf(),
            r@ == Map::<Seq<char>, T>::empty(),
    {
        let r = KeyedMap { entries: Vec::new() };
        assert(r@ =~= Map::<Seq<char>, T>::empty());
        r
    }

    /// The map built from `pairs` in order, a later pair replacing an
    /// earlier one with the same key.
    pub fn from_pairs(pairs: Vec<(String, T)>) -> (r: Self)
        ensures
            r.wf(),
            r@ == pairs_map(pairs@),
    {
        let ghost all = pairs@;
        assert(all.len() == pairs.len());
        let mut rest = pairs;
        let mut r = KeyedMap::new();
        let mut i: usize = 0;
        assert(all.take(0) =~= Seq::<(String, T)>::empty());
        while rest.len() > 0
            invariant
                r.wf(),
                i <= all.len(),
                all.len() <= usize::MAX,
                rest@ == all.skip(i as int),
                r@ == pairs_map(all.take(i as int)),
            decreases rest@.len(),
        {
            let (k, v) = rest.remove(0);
            proof {
                assert(all.skip(i as int)[0] == all[i as int]);
                assert(all.take(i + 1).drop_last() =~= all.take(i as int));
                assert(all.take(i + 1).last() == all[i as int]);
                assert(rest@ =~= all.skip(i + 1));
            }
            r.insert(k.as_str(), v);
            i += 1;
        }
        assert(all.take(i as int) =~= all);
        r
    }

    /// The keys in storage order.
    pub closed spec fn keys(&self) -> Seq<Seq<char>> {
        self.entries@.map_values(|e: (String, T)| e.0@)
    }

    /// Each stored key occurs exactly once among `keys()`.
    pub proof fn lemma_keys(&self)
        requires
            self.wf(),
        ensures
            self.keys().no_duplicates(),
            forall|k: Seq<char>| self@.dom().contains(k) <==> self.keys().contains(k),
    {
        let s = self.entries@;
        assert forall|k: Seq<char>| self@.dom().contains(k) <==> self.keys().contains(k) by {
            if self@.dom().contains(k) {
                let j = index_of(s, k);
                assert(self.keys()[j] == k);
            }
            if self.keys().contains(k) {
                let j = choose|j: int| 0 <= j < self.keys().len() && self.keys()[j] == k;
                assert(s[j].0@ == k);
            }
        }
    }

    /// Number of entries.
    pub fn len(&self) -> (n: usize)
        ensures
            n == self.keys().len(),
    {
        self.entries.len()
    }

    /// The key at position `i`.
    pub fn key_at(&self, i: usize) -> (k: &String)
        requires
            self.wf(),
            i < self.keys().len(),
        ensures
            k@ == self.keys()[i as int],
            self@.dom().contains(k@),
    {
        proof {
            lemma_index_of(self.entries@, i as int);
        }
        &self.entries[i].0
    }

    /// The value at position `i`.
    pub fn value_at(&self, i: usize) -> (v: &T)
        requires
            self.wf(),
            i < self.keys().len(),
        ensures
            *v == self@[self.keys()[i as int]],
    {
        proof {
            lemma_index_of(self.entries@, i as int);
        }
        &self.entries[i].1
    }

    /// Replaces the value at position `i`; keys keep their positions.
    pub fn set_value_at(&mut self, i: usize, value: T)
        requires
            old(self).wf(),
            i < old(self).keys().len(),
        ensures
            final(self).wf(),
            final(self).keys() == old(self).keys(),
            final(self)@ == old(self)@.insert(old(self).keys()[i as int], value),
    {
        let ghost s0 = self.entries@;
        let key = self.entries[i].0.clone();
        self.entries.set(i, (key, value));
        proof {
            let s1 = self.entries@;
            let id = s0[i as int].0@;
            assert(keys_unique(s1)) by {
                assert forall|a: int, b: int| 0 <= a < b < s1.len() implies s1[a].0@ != s1[b].0@ by {
                    assert(s1[a].0@ == s0[a].0@);
                    assert(s1[b].0@ == s0[b].0@);
                }
            }
            assert(self.keys() =~= s0.map_values(|e: (String, T)| e.0@));
            assert forall|k: Seq<char>| has_key(s1, k) == has_key(s0, k) by {
                if has_key(s0, k) {
                    let j = index_of(s0, k);
                    assert(s1[j].0@ == k);
                }
                if has_key(s1, k) {
                    let j = index_of(s1, k);
                    assert(s0[j].0@ == k);
                }
            }
            lemma_index_of(s0, i as int);
            assert forall|k: Seq<char>| has_key(s1, k) implies entries_map(s1)[k] == (if k == id {
                value
            } else {
                entries_map(s0)[k]
            }) by {
                let j = index_of(s1, k);
                lemma_index_of(s1, j);
                lemma_index_of(s0, j);
            }
            assert(entries_map(s1) =~= entries_map(s0).insert(id, value));
        }
    }

    /// Whether some value is stored under `id`.
    pub fn contains_key(&self, id: &str) -> (b: bool)
        requires
            self.wf(),
        ensures
            b == self@.dom().contains(id@),
    {
        self.find(id).is_some()
    }

    fn find(&self, id: &str) -> (r: Option<usize>)
        requires
            self.wf(),
        ensures
            match r {
                Some(i) => i < self.entries@.len() && self.entries@[i as int].0@ == id@,
                None => !has_key(self.entries@, id@),
            },
    {
        let mut i: usize = 0;
        while i < self.entries.len()
            invariant
                i <= self.entries@.len(),
                forall|k: int| 0 <= k < i ==> self.entries@[k].0@ != id@,
            decreases self.entries@.len() - i,
        {
            if str_eq(self.entries[i].0.as_str(), id) {
                return Some(i);
            }
            i += 1;
        }
        None
    }

    /// Stores `value` under `id`, replacing any value stored there.
    pub fn insert(&mut self, id: &str, value: T)
        requires
            old(self).wf(),
        ensures
            final(self).wf(),
            final(self)@ == old(self)@.insert(id@, value),
    {
        let ghost s0 = self.entries@;
        match self.find(id) {
            Some(i) => {
                let key = self.entries[i].0.clone();
                self.entries.set(i, (key, value));
                proof {
                    let s1 = self.entries@;
                    assert(keys_unique(s1)) by {
                        assert forall|a: int, b: int| 0 <= a < b < s1.len() implies s1[a].0@
                            != s1[b].0@ by {
                            assert(s1[a].0@ == s0[a].0@);
                            assert(s1[b].0@ == s0[b].0@);
                        }
                    }
                    assert forall|k: Seq<char>| has_key(s1, k) == has_key(s0, k) by {
                        if has_key(s0, k) {
                            let j = index_of(s0, k);
                            assert(s1[j].0@ == k);
                        }
                        if has_key(s1, k) {
                            let j = index_of(s1, k);
                            assert(s0[j].0@ == k);
                        }
                    }
                    assert forall|k: Seq<char>| has_key(s1, k) implies entries_map(s1)[k] == (
                    if k == id@ {
                        value
                    } else {
                        entries_map(s0)[k]
                    }) by {
                        let j = index_of(s1, k);
                        lemma_index_of(s1, j);
                        lemma_index_of(s0, j);
                    }
                    assert(entries_map(s1) =~= entries_map(s0).insert(id@, value));
                }
            },
            None => {
                let key = String::from_str(id);
                self.entries.push((key, value));
                proof {
                    let s1 = self.entries@;
                    let n = s0.len() as int;
                    assert(keys_unique(s1)) by {
                        assert forall|a: int, b: int| 0 <= a < b < s1.len() implies s1[a].0@
                            != s1[b].0@ by {
                            if b == n {
                                assert(s1[a].0@ == s0[a].0@);
                                if s0[a].0@ == id@ {
                                    assert(has_key(s0, id@));
                                }
                            } else {
                                assert(s1[a] == s0[a] && s1[b] == s0[b]);
                            }
                        }
                    }
                    lemma_index_of(s1, n);
                    assert forall|k: Seq<char>| has_key(s1, k) == (has_key(s0, k) || k == id@) by {
                        if has_key(s0, k) {
                            let j = index_of(s0, k);
                            assert(s1[j] == s0[j]);
                        }
                        if has_key(s1, k) && k != id@ {
                            let j = index_of(s1, k);
                            assert(s0[j] == s1[j]);
                        }
                    }
                    assert forall|k: Seq<char>| has_key(s1, k) implies entries_map(s1)[k] == (
                    if k == id@ {
                        value
                    } else {
                        entries_map(s0)[k]
                    }) by {
                        let j = index_of(s1, k);
                        lemma_index_of(s1, j);
                        if j < n {
                            assert(s0[j] == s1[j]);
                            lemma_index_of(s0, j);
                        }
                    }
                    assert(entries_map(s1) =~= entries_map(s0).insert(id@, value));
                }
            },
        }
    }

    /// The value stored under `id`, if any.
    pub fn get(&self, id: &str) -> (r: Option<&T>)
        requires
            self.wf(),
        ensures
            match r {
                Some(v) => self@.dom().contains(id@) && *v == self@[id@],
                None => !self@.dom().contains(id@),
            },
    {
        match self.find(id) {
            Some(i) => {
                proof {
                    lemma_index_of(self.entries@, i as int);
                }
                Some(&self.entries[i].1)
            },
            None => None,
        }
    }

    /// Removes the value stored under `id` and returns it, if any.
    pub fn remove(&mut self, id: &str) -> (r: Option<T>)
        requires
            old(self).wf(),
        ensures
            final(self).wf(),
            final(self)@ == old(self)@.remove(id@),
            match r {
                Some(v) => old(self)@.dom().contains(id@) && v == old(self)@[id@],
                None => !old(self)@.dom().contains(id@),
            },
    {
        let ghost s0 = self.entries@;
        match self.find(id) {
            Some(i) => {
                proof {
                    lemma_index_of(s0, i as int);
                }
                let (_, v) = self.entries.remove(i);
                proof {
                    let s1 = self.entries@;
                    assert forall|a: int| 0 <= a < s1.len() implies #[trigger] s1[a] == s0[if a
                        < i {
                        a
                    } else {
                        a + 1
                    }] by {}
                    assert(keys_unique(s1)) by {
                        assert forall|a: int, b: int| 0 <= a < b < s1.len() implies s1[a].0@
                            != s1[b].0@ by {
                            let a0 = if a < i {
                                a
                            } else {
                                a + 1
                            };
                            let b0 = if b < i {
                                b
                            } else {
                                b + 1
                            };
                            assert(s1[a] == s0[a0] && s1[b] == s0[b0]);
                        }
                    }
                    assert forall|k: Seq<char>| has_key(s1, k) == (has_key(s0, k) && k != id@) by {
                        if has_key(s0, k) && k != id@ {
                            let j = index_of(s0, k);
                            assert(j != i);
                            let j1 = if j < i {
                                j
                            } else {
                                j - 1
                            };
                            assert(s1[j1] == s0[j]);
                        }
                        if has_key(s1, k) {
                            let j = index_of(s1, k);
                            let j0 = if j < i {
                                j
                            } else {
                                j + 1
                            };
                            assert(s1[j] == s0[j0]);
                            if k == id@ {
                                assert(s0[j0].0@ == s0[i as int].0@);
                            }
                        }
                    }
                    assert forall|k: Seq<char>| has_key(s1, k) implies entries_map(s1)[k]
                        == entries_map(s0)[k] by {
                        let j = index_of(s1, k);
                        lemma_index_of(s1, j);
                        let j0 = if j < i {
                            j
                        } else {
                            j + 1
                        };
                        assert(s1[j] == s0[j0]);
                        lemma_index_of(s0, j0);
                    }
                    assert(entries_map(s1) =~= entries_map(s0).remove(id@));
                }
                Some(v)
            },
            None => {
                assert(entries_map(s0) =~= entries_map(s0).remove(id@));
                None
            },
        }
    }
}

} // verus!
