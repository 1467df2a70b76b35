//! A small table from string keys to values, kept as a list of entries
//! without repeated keys.

use vstd::prelude::*;

verus! {

/// A finite map from strings to values.
pub struct Table<V> {
    entries: Vec<(String, V)>,
}

impl<V> Table<V> {
    #[verifier::type_invariant]
    spec fn distinct(&self) -> bool {
        Self::distinct_keys(self.entries@)
    }

    spec fn distinct_keys(entries: Seq<(String, V)>) -> bool {
        forall|i: int, j: int| 0 <= i < j < entries.len() ==> entries[i].0@ != entries[j].0@
    }

    spec fn holds(&self, key: Seq<char>, i: int) -> bool {
        0 <= i < self.entries.len() && self.entries[i].0@ == key
    }

    /// The map that the table stands for.
    pub closed spec fn view(&self) -> Map<Seq<char>, V> {
        Map::new(
            |key: Seq<char>| exists|i: int| self.holds(key, i),
            |key: Seq<char>| self.entries[choose|i: int| self.holds(key, i)].1,
        )
    }

    /// The keys in the order in which the table keeps them.
    pub closed spec fn key_seq(&self) -> Seq<Seq<char>> {
        Seq::new(self.entries.len() as nat, |i: int| self.entries[i].0@)
    }

    pub fn new() -> (table: Self)
        ensures
            table@ == Map::<Seq<char>, V>::empty(),
    {
        let table = Table { entries: Vec::new() };
        assert(table@ =~= Map::<Seq<char>, V>::empty());
        table
    }

    /// The number of entries. The keys are listed once each, and they are
    /// the keys of the map.
    pub fn len(&self) -> (n: usize)
        ensures
            n == self.key_seq().len(),
            self.key_seq().no_duplicates(),
            self.key_seq().to_set() == self@.dom(),
    {
        proof {
            use_type_invariant(self);
            assert forall|key: Seq<char>| self.key_seq().contains(key) implies self@.dom().contains(
                key,
            ) by {
                let i = choose|i: int| 0 <= i < self.key_seq().len() && self.key_seq()[i] == key;
                assert(self.holds(key, i));
            }
            assert forall|key: Seq<char>| self@.dom().contains(key) implies self.key_seq().contains(
                key,
            ) by {
                let i = choose|i: int| self.holds(key, i);
                assert(self.key_seq()[i] == key);
            }
            assert(self.key_seq().to_set() =~= self@.dom());
        }
        self.entries.len()
    }

    /// The key of the entry at `i`, counted in the order of `key_seq`.
    pub fn key_at(&self, i: usize) -> (key: &String)
        requires
            i < self.key_seq().len(),
        ensures
            key@ == self.key_seq()[i as int],
    {
        &self.entries[i].0
    }

    /// The value of the entry at `i`, counted in the order of `key_seq`.
    pub fn value_at(&self, i: usize) -> (value: &V)
        requires
            i < self.key_seq().len(),
        ensures
            self@.dom().contains(self.key_seq()[i as int]),
            *value == self@[self.key_seq()[i as int]],
    {
        proof {
            use_type_invariant(self);
            assert(self.holds(self.key_seq()[i as int], i as int));
        }
        &self.entries[i].1
    }

    fn find(&self, key: &str) -> (found: Option<usize>)
        ensures
            match found {
                Some(i) => self.holds(key@, i as int),
                None => !self@.dom().contains(key@),
            },
    {
        let wanted = String::from_str(key);
        let mut i: usize = 0;
        while i < self.entries.len()
            invariant
                i <= self.entries.len(),
                wanted@ == key@,
                forall|j: int| 0 <= j < i ==> self.entries[j].0@ != key@,
            decreases self.entries.len() - i,
        {
            if self.entries[i].0 == wanted {
                return Some(i);
            }
            i = i + 1;
        }
        proof {
            assert forall|j: int| !self.holds(key@, j) by {}
        }
        None
    }

    /// The value stored for `key`, if there is one.
    pub fn get(&self, key: &str) -> (value: Option<&V>)
        ensures
            match value {
                Some(v) => self@.dom().contains(key@) && *v == self@[key@],
                None => !self@.dom().contains(key@),
            },
    {
        proof {
            use_type_invariant(self);
        }
        match self.find(key) {
            Some(i) => Some(&self.entries[i].1),
            None => None,
        }
    }

    /// Stores `value` for `key` and hands back the value it replaces.
    pub fn insert(&mut self, key: String, value: V) -> (previous: Option<V>)
        ensures
            final(self)@ == old(self)@.insert(key@, value),
            previous == (if old(self)@.dom().contains(key@) {
                Some(old(self)@[key@])
            } else {
                None
            }),
    {
        proof {
            use_type_invariant(&*self);
        }
        let found = self.find(key.as_str());
        let mut entries: Vec<(String, V)> = Vec::new();
        std::mem::swap(&mut entries, &mut self.entries);
        let ghost before = entries@;
        let previous = match found {
            Some(i) => Some(entries.swap_remove(i).1),
            None => None,
        };
        let ghost middle = entries@;
        entries.push((key, value));
        proof {
            assert forall|a: int, b: int| 0 <= a < b < entries@.len() implies entries@[a].0@
                != entries@[b].0@ by {
                let last = before.len() - 1;
                let from = |x: int| if found is Some && x == found.unwrap() as int { last } else { x };
                if b < middle.len() {
                    assert(entries@[a] == before[from(a)]);
                    assert(entries@[b] == before[from(b)]);
                } else {
                    assert(entries@[a] == before[from(a)]);
                    assert(old(self).holds(entries@[a].0@, from(a)));
                }
            }
        }
        self.entries = entries;
        proof {
            let n = middle.len() as int;
            assert forall|k: Seq<char>| #[trigger]
                final(self)@.dom().contains(k) <==> old(self)@.insert(key@, value).dom().contains(
                    k,
                ) by {
                if final(self)@.dom().contains(k) {
                    let i = choose|i: int| final(self).holds(k, i);
                    if i < n {
                        if found is Some && i == found.unwrap() as int {
                            assert(old(self).holds(k, before.len() - 1));
                        } else {
                            assert(old(self).holds(k, i));
                        }
                    }
                }
                if old(self)@.insert(key@, value).dom().contains(k) {
                    if k == key@ {
                        assert(final(self).holds(k, n));
                    } else {
                        let i = choose|i: int| old(self).holds(k, i);
                        if i < n {
                            assert(final(self).holds(k, i));
                        } else {
                            assert(final(self).holds(k, found.unwrap() as int));
                        }
                    }
                }
            }
            assert forall|k: Seq<char>| #[trigger]
                final(self)@.dom().contains(k) implies final(self)@[k] == old(self)@.insert(
                key@,
                value,
            )[k] by {
                let i = choose|i: int| final(self).holds(k, i);
                if i < n {
                    if found is Some && i == found.unwrap() as int {
                        assert(old(self).holds(k, before.len() - 1));
                    } else {
                        assert(old(self).holds(k, i));
                    }
                }
            }
            assert(final(self)@ =~= old(self)@.insert(key@, value));
        }
        previous
    }

    /// Removes the entry for `key` and hands back its value.
    pub fn remove(&mut self, key: &str) -> (previous: Option<V>)
        ensures
            final(self)@ == old(self)@.remove(key@),
            previous == (if old(self)@.dom().contains(key@) {
                Some(old(self)@[key@])
            } else {
                None
            }),
    {
        proof {
            use_type_invariant(&*self);
        }
        let found = self.find(key);
        match found {
            Some(i) => {
                let mut entries: Vec<(String, V)> = Vec::new();
                std::mem::swap(&mut entries, &mut self.entries);
                let ghost before = entries@;
                let entry = entries.swap_remove(i);
                proof {
                    assert forall|a: int, b: int| 0 <= a < b < entries@.len() implies entries@[a].0@
                        != entries@[b].0@ by {
                        let last = before.len() - 1;
                        let from = |x: int| if x == i as int { last } else { x };
                        assert(entries@[a] == before[from(a)]);
                        assert(entries@[b] == before[from(b)]);
                    }
                }
                self.entries = entries;
                proof {
                    let n = before.len() - 1;
                    assert forall|k: Seq<char>| #[trigger]
                        final(self)@.dom().contains(k) <==> old(self)@.remove(key@).dom().contains(
                            k,
                        ) by {
                        if final(self)@.dom().contains(k) {
                            let j = choose|j: int| final(self).holds(k, j);
                            if j == i as int {
                                assert(old(self).holds(k, n));
                            } else {
                                assert(old(self).holds(k, j));
                            }
                        }
                        if old(self)@.remove(key@).dom().contains(k) {
                            let j = choose|j: int| old(self).holds(k, j);
                            if j == n {
                                assert(final(self).holds(k, i as int));
                            } else {
                                assert(final(self).holds(k, j));
                            }
                        }
                    }
                    assert forall|k: Seq<char>| #[trigger]
                        final(self)@.dom().contains(k) implies final(self)@[k] == old(
                        self,
                    )@.remove(key@)[k] by {
                        let j = choose|j: int| final(self).holds(k, j);
                        if j == i as int {
                            assert(old(self).holds(k, n));
                        } else {
                            assert(old(self).holds(k, j));
                        }
                    }
                    assert(final(self)@ =~= old(self)@.remove(key@));
                }
                Some(entry.1)
            },
            None => {
                assert(final(self)@ =~= old(self)@.remove(key@));
                None
            },
        }
    }
}

} // verus!
