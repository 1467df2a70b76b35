//! The cache as the proxy sees it: values under canonical keys, the index
//! sets that list them, and the table of expiry times.

use vstd::prelude::*;
use crate::keys::{canonical, group_index, prefix_index, texts};
use crate::links::{members_of, without_set, Links};
use crate::table::Table;

verus! {

/// What a cache holds.
pub struct StoreView<V> {
    /// The value stored under each key.
    pub values: Map<Seq<char>, V>,
    /// The pairs of an index set's name and one of its members.
    pub index: Set<(Seq<char>, Seq<char>)>,
    /// The encoded time at which a key expires.
    pub expiry: Map<Seq<char>, Seq<char>>,
}

/// Whether writing or deleting `key` touches the index entry `pair`.
pub open spec fn indexes(key: Seq<char>, pair: (Seq<char>, Seq<char>)) -> bool {
    pair.1 == canonical(key) && (prefix_index(key) == Some(pair.0) || group_index(key) == Some(
        pair.0,
    ))
}

/// The index entries of one key.
pub open spec fn index_of(key: Seq<char>) -> Set<(Seq<char>, Seq<char>)> {
    Set::new(|pair: (Seq<char>, Seq<char>)| indexes(key, pair))
}

/// The index entries of a set of keys.
pub open spec fn index_of_all(keys: Set<Seq<char>>) -> Set<(Seq<char>, Seq<char>)> {
    Set::new(
        |pair: (Seq<char>, Seq<char>)| exists|key: Seq<char>| keys.contains(key) && indexes(key, pair),
    )
}

/// The keys under which the values of `keys` are stored.
pub open spec fn stored_under(keys: Set<Seq<char>>) -> Set<Seq<char>> {
    Set::new(|stored: Seq<char>| exists|key: Seq<char>| keys.contains(key) && canonical(key) == stored)
}

impl<V> StoreView<V> {
    pub open spec fn empty() -> Self {
        StoreView { values: Map::empty(), index: Set::empty(), expiry: Map::empty() }
    }

    /// The value stored under `key`.
    pub open spec fn get(self, key: Seq<char>) -> Option<V> {
        if self.values.dom().contains(key) {
            Some(self.values[key])
        } else {
            None
        }
    }

    /// The members of the index set `set`.
    pub open spec fn members(self, set: Seq<char>) -> Set<Seq<char>> {
        members_of(self.index, set)
    }

    /// Writes `value` at `key`: it is stored under the canonical key, which
    /// is listed in the index sets of `key`.
    pub open spec fn set(self, key: Seq<char>, value: V) -> Self {
        StoreView {
            values: self.values.insert(canonical(key), value),
            index: self.index + index_of(key),
            expiry: self.expiry,
        }
    }

    /// Writes the items one after the other.
    pub open spec fn set_all(self, items: Seq<(Seq<char>, V)>) -> Self
        decreases items.len(),
    {
        if items.len() == 0 {
            self
        } else {
            self.set_all(items.drop_last()).set(items.last().0, items.last().1)
        }
    }

    /// Deletes what was written at each of `keys`: the values under their
    /// canonical keys and their entries in the index sets.
    pub open spec fn del_keys(self, keys: Set<Seq<char>>) -> Self {
        StoreView {
            values: self.values.remove_keys(stored_under(keys)),
            index: self.index - index_of_all(keys),
            expiry: self.expiry,
        }
    }

    /// Deletes what was written at `key`.
    pub open spec fn del(self, key: Seq<char>) -> Self {
        self.del_keys(set![key])
    }

    /// Deletes what was written at each of `keys`.
    pub open spec fn del_all(self, keys: Seq<Seq<char>>) -> Self {
        self.del_keys(keys.to_set())
    }

    /// Removes the index set `set` itself.
    pub open spec fn drop_set(self, set: Seq<char>) -> Self {
        StoreView { values: self.values, index: without_set(self.index, set), expiry: self.expiry }
    }

    /// Records for each key of `entries` the time at which it expires.
    pub open spec fn expire_all(self, entries: Seq<(Seq<char>, Seq<char>)>) -> Self
        decreases entries.len(),
    {
        if entries.len() == 0 {
            self
        } else {
            let before = self.expire_all(entries.drop_last());
            StoreView {
                values: before.values,
                index: before.index,
                expiry: before.expiry.insert(entries.last().0, entries.last().1),
            }
        }
    }

    /// Forgets the expiry times of `keys`.
    pub open spec fn forget(self, keys: Set<Seq<char>>) -> Self {
        StoreView { values: self.values, index: self.index, expiry: self.expiry.remove_keys(keys) }
    }
}

/// Deleting no key changes nothing.
pub proof fn lemma_del_keys_empty<V>(view: StoreView<V>)
    ensures
        view.del_keys(Set::empty()) == view,
{
    let after = view.del_keys(Set::empty());
    assert(stored_under(Set::empty()) =~= Set::<Seq<char>>::empty());
    assert(index_of_all(Set::empty()) =~= Set::<(Seq<char>, Seq<char>)>::empty());
    assert(after.values =~= view.values);
    assert(after.index =~= view.index);
}

/// An executable cache in memory.
pub struct Store<V> {
    values: Table<V>,
    index: Links,
    expiry: Table<String>,
}

impl<V: DeepView> View for Store<V> {
    type V = StoreView<V::V>;

    closed spec fn view(&self) -> StoreView<V::V> {
        StoreView {
            values: self.values@.map_values(|value: V| value.deep_view()),
            index: self.index@,
            expiry: self.expiry@.map_values(|text: String| text@),
        }
    }
}

impl<V: DeepView> Store<V> {
    /// A cache that holds nothing.
    pub fn new() -> (store: Self)
        ensures
            store@ == StoreView::<V::V>::empty(),
    {
        let store = Store { values: Table::new(), index: Links::new(), expiry: Table::new() };
        proof {
            assert(store@.expiry =~= Map::<Seq<char>, Seq<char>>::empty());
            assert(store@.values =~= Map::<Seq<char>, V::V>::empty());
        }
        store
    }

    /// The value stored under `key`, which is taken as it is written.
    pub fn peek(&self, key: &str) -> (value: Option<&V>)
        ensures
            match value {
                Some(v) => self@.get(key@) == Some(v.deep_view()),
                None => self@.get(key@) is None,
            },
    {
        self.values.get(key)
    }

    /// Stores `value` under `key`, as it is written, and hands back the
    /// value it replaces.
    pub fn write(&mut self, key: String, value: V) -> (previous: Option<V>)
        ensures
            final(self)@.values == old(self)@.values.insert(key@, value.deep_view()),
            final(self)@.index == old(self)@.index,
            final(self)@.expiry == old(self)@.expiry,
            previous.deep_view() == old(self)@.get(key@),
    {
        let previous = self.values.insert(key, value);
        proof {
            assert(final(self)@.values =~= old(self)@.values.insert(key@, value.deep_view()));
        }
        previous
    }

    /// Removes the value under `key`, as it is written, and hands it back.
    pub fn erase(&mut self, key: &str) -> (previous: Option<V>)
        ensures
            final(self)@.values == old(self)@.values.remove(key@),
            final(self)@.index == old(self)@.index,
            final(self)@.expiry == old(self)@.expiry,
            previous.deep_view() == old(self)@.get(key@),
    {
        let previous = self.values.remove(key);
        proof {
            assert(final(self)@.values =~= old(self)@.values.remove(key@));
        }
        previous
    }

    /// Lists `member` in the index set `set`.
    pub fn link(&mut self, set: String, member: String)
        ensures
            final(self)@.values == old(self)@.values,
            final(self)@.index == old(self)@.index.insert((set@, member@)),
            final(self)@.expiry == old(self)@.expiry,
    {
        self.index.add(set, member)
    }

    /// Takes `member` off the index set `set`.
    pub fn unlink(&mut self, set: &str, member: &str)
        ensures
            final(self)@.values == old(self)@.values,
            final(self)@.index == old(self)@.index.remove((set@, member@)),
            final(self)@.expiry == old(self)@.expiry,
    {
        self.index.remove(set, member)
    }

    /// Removes the index set `set` itself.
    pub fn drop_set(&mut self, set: &str)
        ensures
            final(self)@ == old(self)@.drop_set(set@),
    {
        self.index.remove_set(set)
    }

    /// The members of the index set `set`, each once.
    pub fn members(&self, set: &str) -> (found: Vec<String>)
        ensures
            texts(found@).no_duplicates(),
            texts(found@).to_set() == self@.members(set@),
    {
        self.index.members(set)
    }

    /// Records that `key` expires at the encoded time `at`.
    pub fn schedule(&mut self, key: String, at: String)
        ensures
            final(self)@.values == old(self)@.values,
            final(self)@.index == old(self)@.index,
            final(self)@.expiry == old(self)@.expiry.insert(key@, at@),
    {
        let _ = self.expiry.insert(key, at);
        proof {
            assert(final(self)@.expiry =~= old(self)@.expiry.insert(key@, at@));
        }
    }

    /// Forgets the expiry time of `key`.
    pub fn unschedule(&mut self, key: &str)
        ensures
            final(self)@.values == old(self)@.values,
            final(self)@.index == old(self)@.index,
            final(self)@.expiry == old(self)@.expiry.remove(key@),
    {
        let _ = self.expiry.remove(key);
        proof {
            assert(final(self)@.expiry =~= old(self)@.expiry.remove(key@));
        }
    }

    /// The expiry table as a list: each key once, with its encoded time.
    pub fn schedule_entries(&self) -> (entries: Vec<(String, String)>)
        ensures
            entries.len() == self@.expiry.dom().len(),
            self@.expiry.dom().finite(),
            forall|i: int|
                0 <= i < entries.len() ==> self@.expiry.dom().contains(#[trigger] entries[i].0@)
                    && self@.expiry[entries[i].0@] == entries[i].1@,
            forall|key: Seq<char>|
                self@.expiry.dom().contains(key) ==> exists|i: int|
                    0 <= i < entries.len() && #[trigger] entries[i].0@ == key,
            forall|i: int, j: int|
                0 <= i < j < entries.len() ==> entries[i].0@ != entries[j].0@,
    {
        let n = self.expiry.len();
        let ghost keys = self.expiry.key_seq();
        proof {
            keys.unique_seq_to_set();
            assert(self@.expiry.dom() =~= self.expiry@.dom());
        }
        let mut entries: Vec<(String, String)> = Vec::new();
        let mut i: usize = 0;
        while i < n
            invariant
                i <= n,
                n == keys.len(),
                keys == self.expiry.key_seq(),
                keys.to_set() == self.expiry@.dom(),
                entries.len() == i,
                forall|k: int| 0 <= k < i ==> (#[trigger] entries[k]).0@ == keys[k],
                forall|k: int|
                    0 <= k < i ==> self.expiry@.dom().contains(keys[k]) && self.expiry@[keys[k]]@
                        == (#[trigger] entries[k]).1@,
            decreases n - i,
        {
            let key = self.expiry.key_at(i).clone();
            let at = self.expiry.value_at(i).clone();
            entries.push((key, at));
            i = i + 1;
        }
        proof {
            assert forall|key: Seq<char>| self@.expiry.dom().contains(key) implies exists|i: int|
                0 <= i < entries.len() && #[trigger] entries[i].0@ == key by {
                assert(keys.to_set().contains(key));
                assert(keys.contains(key));
                let k = choose|k: int| 0 <= k < keys.len() && keys[k] == key;
                assert(entries[k].0@ == key);
            }
            assert forall|a: int, b: int| 0 <= a < b < entries.len() implies entries[a].0@
                != entries[b].0@ by {
                assert(entries[a].0@ == keys[a]);
                assert(entries[b].0@ == keys[b]);
            }
        }
        entries
    }
}

} // verus!
