//! The cache operations of the proxy: batched writes and deletes that keep
//! the index sets in step with the values.

use vstd::prelude::*;
use crate::constants::EXPIRY_KEYS;
use crate::keys::{
    canonical, decimal, guild_index, guild_index_spec, guild_key, guild_key_spec, plan_key, texts,
    KeyPlan,
};
use crate::models::ApiError;
use crate::timestamp::{decoded, encoded, later, FormattedDateTime};
use crate::store::{index_of, index_of_all, indexes, stored_under, Store, StoreView};

verus! {

/// The members that one batch adds to, or takes off, one index set.
#[derive(Debug, PartialEq, Eq)]
pub struct IndexGroup {
    pub set: String,
    pub members: Vec<String>,
}

/// The index entries that a list of groups names.
pub open spec fn group_pairs(groups: Seq<IndexGroup>) -> Set<(Seq<char>, Seq<char>)> {
    Set::new(
        |pair: (Seq<char>, Seq<char>)|
            exists|g: int, m: int|
                0 <= g < groups.len() && 0 <= m < groups[g].members.len() && groups[g].set@
                    == pair.0 && #[trigger] groups[g].members[m]@ == pair.1,
    )
}

/// Every group has a member, and no two groups are for the same set.
pub open spec fn groups_tidy(groups: Seq<IndexGroup>) -> bool {
    &&& forall|g: int| 0 <= g < groups.len() ==> (#[trigger] groups[g]).members.len() > 0
    &&& forall|g: int, h: int| 0 <= g < h < groups.len() ==> groups[g].set@ != groups[h].set@
}

/// The keys and values of a list of items.
pub open spec fn item_views<V: DeepView>(items: Seq<(String, V)>) -> Seq<(Seq<char>, V::V)> {
    Seq::new(items.len(), |i: int| (items[i].0@, items[i].1.deep_view()))
}

/// The keys of a list of items.
pub open spec fn item_keys<V>(items: Seq<(Seq<char>, V)>) -> Seq<Seq<char>> {
    Seq::new(items.len(), |i: int| items[i].0)
}

/// Storing each pair under its key as it is written, one after the other.
pub open spec fn write_each<V>(values: Map<Seq<char>, V>, pairs: Seq<(Seq<char>, V)>) -> Map<
    Seq<char>,
    V,
>
    decreases pairs.len(),
{
    if pairs.len() == 0 {
        values
    } else {
        write_each(values, pairs.drop_last()).insert(pairs.last().0, pairs.last().1)
    }
}

/// The items with each key replaced by its canonical form.
pub open spec fn canonical_items<V>(items: Seq<(Seq<char>, V)>) -> Seq<(Seq<char>, V)> {
    Seq::new(items.len(), |i: int| (canonical(items[i].0), items[i].1))
}

/// A batch of writes: one multiple set of the pairs, then one addition per
/// index set.
#[derive(Debug, PartialEq, Eq)]
pub struct WritePlan<V> {
    pub pairs: Vec<(String, V)>,
    pub groups: Vec<IndexGroup>,
}

impl<V: DeepView> WritePlan<V> {
    /// What the cache holds after the batch.
    pub open spec fn apply(self, view: StoreView<V::V>) -> StoreView<V::V> {
        StoreView {
            values: write_each(view.values, item_views(self.pairs@)),
            index: view.index + group_pairs(self.groups@),
            expiry: view.expiry,
        }
    }
}

/// A batch of deletes: one delete of the keys, then one removal per index
/// set.
#[derive(Debug, PartialEq, Eq)]
pub struct DeletePlan {
    pub keys: Vec<String>,
    pub groups: Vec<IndexGroup>,
}

impl DeletePlan {
    /// What the cache holds after the batch.
    pub open spec fn apply<V>(self, view: StoreView<V>) -> StoreView<V> {
        StoreView {
            values: view.values.remove_keys(texts(self.keys@).to_set()),
            index: view.index - group_pairs(self.groups@),
            expiry: view.expiry,
        }
    }
}

/// A batch of writes comes to the same as writing the items one by one.
pub proof fn lemma_set_all_shape<V>(view: StoreView<V>, items: Seq<(Seq<char>, V)>)
    ensures
        view.set_all(items).values == write_each(view.values, canonical_items(items)),
        view.set_all(items).index == view.index + index_of_all(item_keys(items).to_set()),
        view.set_all(items).expiry == view.expiry,
    decreases items.len(),
{
    let keys = item_keys(items).to_set();
    if items.len() == 0 {
        assert(index_of_all(keys) =~= Set::<(Seq<char>, Seq<char>)>::empty());
        assert(view.index + index_of_all(keys) =~= view.index);
    } else {
        let front = items.drop_last();
        lemma_set_all_shape(view, front);
        assert(canonical_items(items).drop_last() =~= canonical_items(front));
        let front_keys = item_keys(front).to_set();
        let key = items.last().0;
        let all = item_keys(items);
        let most = item_keys(front);
        assert(most =~= all.drop_last());
        assert(all.last() == key);
        assert forall|pair: (Seq<char>, Seq<char>)| index_of_all(keys).contains(pair) <==> (
        index_of_all(front_keys).contains(pair) || indexes(key, pair)) by {
            if index_of_all(keys).contains(pair) {
                let k = choose|k: Seq<char>| keys.contains(k) && indexes(k, pair);
                assert(all.contains(k));
                let i = choose|i: int| 0 <= i < all.len() && all[i] == k;
                if i < all.len() - 1 {
                    assert(most[i] == k);
                    assert(most.contains(k));
                    assert(front_keys.contains(k));
                }
            }
            if index_of_all(front_keys).contains(pair) {
                let k = choose|k: Seq<char>| front_keys.contains(k) && indexes(k, pair);
                assert(most.contains(k));
                let i = choose|i: int| 0 <= i < most.len() && most[i] == k;
                assert(all[i] == k);
                assert(all.contains(k));
                assert(keys.contains(k));
            }
            if indexes(key, pair) {
                assert(all.contains(key));
                assert(keys.contains(key));
            }
        }
        assert forall|pair: (Seq<char>, Seq<char>)| #[trigger]
            view.set_all(items).index.contains(pair) <==> (view.index + index_of_all(
                keys,
            )).contains(pair) by {
            assert(index_of(key).contains(pair) <==> indexes(key, pair));
        }
        assert(view.set_all(items).index =~= view.index + index_of_all(keys));
    }
}

fn add_to_group(groups: &mut Vec<IndexGroup>, set: String, member: String)
    requires
        groups_tidy(old(groups)@),
    ensures
        groups_tidy(final(groups)@),
        group_pairs(final(groups)@) == group_pairs(old(groups)@).insert((set@, member@)),
{
    let mut g: usize = 0;
    while g < groups.len()
        invariant
            g <= groups.len(),
            *groups == *old(groups),
            groups_tidy(groups@),
            forall|h: int| 0 <= h < g ==> groups[h].set@ != set@,
        decreases groups.len() - g,
    {
        if groups[g].set == set {
            let ghost pair = (set@, member@);
            let ghost before = groups@;
            groups[g].members.push(member);
            proof {
                let after = groups@;
                assert(after.len() == before.len());
                assert forall|h: int| 0 <= h < after.len() implies (#[trigger] after[h]).members.len()
                    > 0 by {
                    assert(before[h].members.len() > 0);
                    assert(after[h].members.len() >= before[h].members.len());
                }
                assert forall|a: int, b: int| 0 <= a < b < after.len() implies after[a].set@
                    != after[b].set@ by {
                    assert(before[a].set@ != before[b].set@);
                    assert(after[a].set@ == before[a].set@);
                    assert(after[b].set@ == before[b].set@);
                }
                assert forall|p: (Seq<char>, Seq<char>)| #[trigger]
                    group_pairs(after).contains(p) <==> group_pairs(before).insert(pair).contains(
                        p,
                    ) by {
                    if group_pairs(after).contains(p) {
                        let (h, m) = choose|h: int, m: int|
                            0 <= h < after.len() && 0 <= m < after[h].members.len() && after[h].set@
                                == p.0 && #[trigger] after[h].members[m]@ == p.1;
                        if h == g && m == before[h].members.len() {
                        } else {
                            assert(before[h].members[m]@ == p.1);
                        }
                    }
                    if group_pairs(before).contains(p) {
                        let (h, m) = choose|h: int, m: int|
                            0 <= h < before.len() && 0 <= m < before[h].members.len()
                                && before[h].set@ == p.0 && #[trigger] before[h].members[m]@ == p.1;
                        assert(after[h].members[m]@ == p.1);
                    }
                    if p == pair {
                        assert(after[g as int].members[before[g as int].members.len() as int]@
                            == p.1);
                    }
                }
                assert(group_pairs(after) =~= group_pairs(before).insert(pair));
            }
            return ;
        }
        g = g + 1;
    }
    let ghost pair = (set@, member@);
    let ghost before = groups@;
    let mut members: Vec<String> = Vec::new();
    members.push(member);
    groups.push(IndexGroup { set, members });
    proof {
        let after = groups@;
        assert forall|p: (Seq<char>, Seq<char>)| #[trigger]
            group_pairs(after).contains(p) <==> group_pairs(before).insert(pair).contains(p) by {
            if group_pairs(after).contains(p) {
                let (h, m) = choose|h: int, m: int|
                    0 <= h < after.len() && 0 <= m < after[h].members.len() && after[h].set@ == p.0
                        && #[trigger] after[h].members[m]@ == p.1;
                if h < before.len() {
                    assert(before[h].members[m]@ == p.1);
                }
            }
            if group_pairs(before).contains(p) {
                let (h, m) = choose|h: int, m: int|
                    0 <= h < before.len() && 0 <= m < before[h].members.len() && before[h].set@
                        == p.0 && #[trigger] before[h].members[m]@ == p.1;
                assert(after[h].members[m]@ == p.1);
            }
            if p == pair {
                assert(after[before.len() as int].members[0]@ == p.1);
            }
        }
        assert(group_pairs(after) =~= group_pairs(before).insert(pair));
    }
}

/// Lists the canonical key of `plan` in the index sets that `plan` names.
fn add_to_groups(groups: &mut Vec<IndexGroup>, plan: &KeyPlan, Ghost(key): Ghost<Seq<char>>)
    requires
        groups_tidy(old(groups)@),
        plan.key@ == canonical(key),
        crate::keys::option_text(plan.prefix_index) == crate::keys::prefix_index(key),
        crate::keys::option_text(plan.group_index) == crate::keys::group_index(key),
    ensures
        groups_tidy(final(groups)@),
        group_pairs(final(groups)@) == group_pairs(old(groups)@) + index_of(key),
{
    match &plan.prefix_index {
        Some(set) => {
            add_to_group(groups, set.clone(), plan.key.clone());
        },
        None => {},
    }
    match &plan.group_index {
        Some(set) => {
            add_to_group(groups, set.clone(), plan.key.clone());
        },
        None => {},
    }
    proof {
        assert(group_pairs(groups@) =~= group_pairs(old(groups)@) + index_of(key));
    }
}

/// Plans the write of `items`: each value goes under the canonical form of
/// its key, and each canonical key into the index sets of the key it was
/// written at.
pub fn plan_set_all<V: DeepView>(items: Vec<(String, V)>) -> (plan: WritePlan<V>)
    ensures
        item_views(plan.pairs@) == canonical_items(item_views(items@)),
        group_pairs(plan.groups@) == index_of_all(item_keys(item_views(items@)).to_set()),
        groups_tidy(plan.groups@),
        forall|view: StoreView<V::V>| #[trigger]
            plan.apply(view) == view.set_all(item_views(items@)),
{
    let mut pairs: Vec<(String, V)> = Vec::new();
    let mut groups: Vec<IndexGroup> = Vec::new();
    let ghost all = item_views(items@);
    proof {
        assert(index_of_all(item_keys(all.take(0)).to_set()) =~= Set::<
            (Seq<char>, Seq<char>),
        >::empty());
        assert(group_pairs(groups@) =~= Set::<(Seq<char>, Seq<char>)>::empty());
        assert(item_views(pairs@) =~= canonical_items(all.take(0)));
    }
    for item in it: items.into_iter()
        invariant
            it.seq() == items@,
            all == item_views(items@),
            groups_tidy(groups@),
            item_views(pairs@) == canonical_items(all.take(it.index() as int)),
            group_pairs(groups@) == index_of_all(item_keys(all.take(it.index() as int)).to_set()),
    {
        let ghost i = it.index() as int;
        let (key, value) = item;
        let slot = plan_key(key.as_str());
        add_to_groups(&mut groups, &slot, Ghost(key@));
        let ghost before = pairs@;
        pairs.push((slot.key, value));
        proof {
            assert(all[i] == (key@, value.deep_view()));
            assert(all.take(i + 1) =~= all.take(i).push(all[i]));
            assert(item_views(before).len() == canonical_items(all.take(i)).len());
            assert(before.len() == i);
            assert forall|j: int| 0 <= j < pairs@.len() implies item_views(pairs@)[j]
                == canonical_items(all.take(i + 1))[j] by {
                if j < i {
                    assert(item_views(before)[j] == canonical_items(all.take(i))[j]);
                    assert(pairs@[j] == before[j]);
                }
            }
            assert(item_views(pairs@) =~= canonical_items(all.take(i + 1)));
            lemma_index_of_all_push(item_keys(all.take(i)), key@);
            assert(item_keys(all.take(i + 1)) =~= item_keys(all.take(i)).push(key@));
        }
    }
    let plan = WritePlan { pairs, groups };
    proof {
        assert(all.take(items@.len() as int) =~= all);
        assert forall|view: StoreView<V::V>| #[trigger] plan.apply(view) == view.set_all(all) by {
            lemma_set_all_shape(view, all);
        }
    }
    plan
}

/// The index entries of a list of keys that grows by one.
pub proof fn lemma_index_of_all_push(keys: Seq<Seq<char>>, key: Seq<char>)
    ensures
        index_of_all(keys.push(key).to_set()) == index_of_all(keys.to_set()) + index_of(key),
{
    let more = keys.push(key);
    assert forall|pair: (Seq<char>, Seq<char>)| #[trigger]
        index_of_all(more.to_set()).contains(pair) <==> (index_of_all(keys.to_set()) + index_of(
            key,
        )).contains(pair) by {
        if index_of_all(more.to_set()).contains(pair) {
            let k = choose|k: Seq<char>| more.to_set().contains(k) && indexes(k, pair);
            assert(more.contains(k));
            let i = choose|i: int| 0 <= i < more.len() && more[i] == k;
            if i < keys.len() {
                assert(keys[i] == k);
                assert(keys.contains(k));
                assert(keys.to_set().contains(k));
            }
        }
        if index_of_all(keys.to_set()).contains(pair) {
            let k = choose|k: Seq<char>| keys.to_set().contains(k) && indexes(k, pair);
            assert(keys.contains(k));
            let i = choose|i: int| 0 <= i < keys.len() && keys[i] == k;
            assert(more[i] == k);
            assert(more.contains(k));
            assert(more.to_set().contains(k));
        }
        if indexes(key, pair) {
            assert(more[keys.len() as int] == key);
            assert(more.contains(key));
            assert(more.to_set().contains(key));
        }
    }
    assert(index_of_all(more.to_set()) =~= index_of_all(keys.to_set()) + index_of(key));
}

/// The canonical forms of a list of keys.
pub open spec fn canonical_keys(keys: Seq<Seq<char>>) -> Seq<Seq<char>> {
    Seq::new(keys.len(), |i: int| canonical(keys[i]))
}

/// A batch of deletes comes to the same as deleting the keys one by one.
pub proof fn lemma_del_all_shape<V>(view: StoreView<V>, keys: Seq<Seq<char>>)
    ensures
        view.del_all(keys).values == view.values.remove_keys(canonical_keys(keys).to_set()),
        view.del_all(keys).index == view.index - index_of_all(keys.to_set()),
        view.del_all(keys).expiry == view.expiry,
{
    let stored = canonical_keys(keys);
    assert forall|k: Seq<char>| #[trigger]
        stored.to_set().contains(k) <==> stored_under(keys.to_set()).contains(k) by {
        if stored.to_set().contains(k) {
            assert(stored.contains(k));
            let i = choose|i: int| 0 <= i < stored.len() && stored[i] == k;
            assert(keys.contains(keys[i]));
            assert(keys.to_set().contains(keys[i]));
        }
        if stored_under(keys.to_set()).contains(k) {
            let key = choose|key: Seq<char>| keys.to_set().contains(key) && canonical(key) == k;
            assert(keys.contains(key));
            let i = choose|i: int| 0 <= i < keys.len() && keys[i] == key;
            assert(stored[i] == k);
            assert(stored.contains(k));
        }
    }
    assert(stored.to_set() =~= stored_under(keys.to_set()));
}

/// Plans the delete of `keys`: the values under their canonical forms, and
/// each canonical key off the index sets of the key it is deleted at.
pub fn plan_del_all(keys: &Vec<String>) -> (plan: DeletePlan)
    ensures
        texts(plan.keys@) == canonical_keys(texts(keys@)),
        group_pairs(plan.groups@) == index_of_all(texts(keys@).to_set()),
        groups_tidy(plan.groups@),
{
    let mut stored: Vec<String> = Vec::new();
    let mut groups: Vec<IndexGroup> = Vec::new();
    let ghost all = texts(keys@);
    proof {
        assert(index_of_all(all.take(0).to_set()) =~= Set::<(Seq<char>, Seq<char>)>::empty());
        assert(group_pairs(groups@) =~= Set::<(Seq<char>, Seq<char>)>::empty());
        assert(texts(stored@) =~= canonical_keys(all.take(0)));
    }
    let mut i: usize = 0;
    while i < keys.len()
        invariant
            i <= keys.len(),
            all == texts(keys@),
            groups_tidy(groups@),
            texts(stored@) == canonical_keys(all.take(i as int)),
            group_pairs(groups@) == index_of_all(all.take(i as int).to_set()),
        decreases keys.len() - i,
    {
        let slot = plan_key(keys[i].as_str());
        add_to_groups(&mut groups, &slot, Ghost(keys[i as int]@));
        let ghost before = stored@;
        stored.push(slot.key);
        proof {
            assert(all[i as int] == keys[i as int]@);
            assert(all.take(i + 1) =~= all.take(i as int).push(all[i as int]));
            assert(texts(before).len() == canonical_keys(all.take(i as int)).len());
            assert(before.len() == i);
            assert forall|j: int| 0 <= j < stored@.len() implies texts(stored@)[j]
                == canonical_keys(all.take(i + 1))[j] by {
                if j < i {
                    assert(texts(before)[j] == canonical_keys(all.take(i as int))[j]);
                    assert(stored@[j] == before[j]);
                }
            }
            assert(texts(stored@) =~= canonical_keys(all.take(i + 1)));
            lemma_index_of_all_push(all.take(i as int), keys[i as int]@);
        }
        i = i + 1;
    }
    let plan = DeletePlan { keys: stored, groups };
    proof {
        assert(all.take(keys@.len() as int) =~= all);
    }
    plan
}

/// The index entries that one group names.
pub open spec fn one_group_pairs(group: IndexGroup) -> Set<(Seq<char>, Seq<char>)> {
    Set::new(
        |pair: (Seq<char>, Seq<char>)|
            pair.0 == group.set@ && exists|m: int|
                0 <= m < group.members.len() && #[trigger] group.members[m]@ == pair.1,
    )
}

proof fn lemma_group_pairs_push(groups: Seq<IndexGroup>, g: int)
    requires
        0 <= g < groups.len(),
    ensures
        group_pairs(groups.take(g + 1)) == group_pairs(groups.take(g)) + one_group_pairs(groups[g]),
{
    let more = groups.take(g + 1);
    let fewer = groups.take(g);
    assert forall|pair: (Seq<char>, Seq<char>)| #[trigger]
        group_pairs(more).contains(pair) <==> (group_pairs(fewer) + one_group_pairs(
            groups[g],
        )).contains(pair) by {
        if group_pairs(more).contains(pair) {
            let (h, m) = choose|h: int, m: int|
                0 <= h < more.len() && 0 <= m < more[h].members.len() && more[h].set@ == pair.0
                    && #[trigger] more[h].members[m]@ == pair.1;
            if h < g {
                assert(fewer[h].members[m]@ == pair.1);
            } else {
                assert(groups[g].members[m]@ == pair.1);
            }
        }
        if group_pairs(fewer).contains(pair) {
            let (h, m) = choose|h: int, m: int|
                0 <= h < fewer.len() && 0 <= m < fewer[h].members.len() && fewer[h].set@ == pair.0
                    && #[trigger] fewer[h].members[m]@ == pair.1;
            assert(more[h].members[m]@ == pair.1);
        }
        if one_group_pairs(groups[g]).contains(pair) {
            let m = choose|m: int|
                0 <= m < groups[g].members.len() && #[trigger] groups[g].members[m]@ == pair.1;
            assert(more[g].members[m]@ == pair.1);
        }
    }
    assert(group_pairs(more) =~= group_pairs(fewer) + one_group_pairs(groups[g]));
}

fn link_group<V: DeepView>(store: &mut Store<V>, group: &IndexGroup)
    ensures
        final(store)@.values == old(store)@.values,
        final(store)@.index == old(store)@.index + one_group_pairs(*group),
        final(store)@.expiry == old(store)@.expiry,
{
    let mut m: usize = 0;
    while m < group.members.len()
        invariant
            m <= group.members.len(),
            store@.values == old(store)@.values,
            store@.expiry == old(store)@.expiry,
            forall|pair: (Seq<char>, Seq<char>)|
                store@.index.contains(pair) <==> (old(store)@.index.contains(pair) || (pair.0
                    == group.set@ && exists|k: int|
                    0 <= k < m && #[trigger] group.members[k]@ == pair.1)),
        decreases group.members.len() - m,
    {
        store.link(group.set.clone(), group.members[m].clone());
        m = m + 1;
    }
    proof {
        assert(store@.index =~= old(store)@.index + one_group_pairs(*group));
    }
}

fn unlink_group<V: DeepView>(store: &mut Store<V>, group: &IndexGroup)
    ensures
        final(store)@.values == old(store)@.values,
        final(store)@.index == old(store)@.index - one_group_pairs(*group),
        final(store)@.expiry == old(store)@.expiry,
{
    let mut m: usize = 0;
    while m < group.members.len()
        invariant
            m <= group.members.len(),
            store@.values == old(store)@.values,
            store@.expiry == old(store)@.expiry,
            forall|pair: (Seq<char>, Seq<char>)|
                store@.index.contains(pair) <==> (old(store)@.index.contains(pair) && !(pair.0
                    == group.set@ && exists|k: int|
                    0 <= k < m && #[trigger] group.members[k]@ == pair.1)),
        decreases group.members.len() - m,
    {
        store.unlink(group.set.as_str(), group.members[m].as_str());
        m = m + 1;
    }
    proof {
        assert(store@.index =~= old(store)@.index - one_group_pairs(*group));
    }
}

/// Carries out a batch of writes on the cache in memory.
pub fn apply_write<V: DeepView>(store: &mut Store<V>, plan: WritePlan<V>)
    ensures
        final(store)@ == plan.apply(old(store)@),
{
    let WritePlan { pairs, groups } = plan;
    let ghost all = item_views(pairs@);
    for pair in it: pairs.into_iter()
        invariant
            it.seq() == pairs@,
            all == item_views(pairs@),
            store@.values == write_each(old(store)@.values, all.take(it.index() as int)),
            store@.index == old(store)@.index,
            store@.expiry == old(store)@.expiry,
    {
        let ghost i = it.index() as int;
        let (key, value) = pair;
        proof {
            assert(all[i] == (key@, value.deep_view()));
            assert(all.take(i + 1).drop_last() =~= all.take(i));
        }
        let _ = store.write(key, value);
    }
    proof {
        assert(all.take(pairs@.len() as int) =~= all);
        assert(group_pairs(groups@.take(0)) =~= Set::<(Seq<char>, Seq<char>)>::empty());
        assert(store@.index =~= old(store)@.index + group_pairs(groups@.take(0)));
    }
    let mut g: usize = 0;
    while g < groups.len()
        invariant
            g <= groups.len(),
            store@.values == write_each(old(store)@.values, all),
            store@.index == old(store)@.index + group_pairs(groups@.take(g as int)),
            store@.expiry == old(store)@.expiry,
        decreases groups.len() - g,
    {
        link_group(store, &groups[g]);
        proof {
            lemma_group_pairs_push(groups@, g as int);
            assert(store@.index =~= old(store)@.index + group_pairs(groups@.take(g + 1)));
        }
        g = g + 1;
    }
    proof {
        assert(groups@.take(groups@.len() as int) =~= groups@);
    }
}

/// Carries out a batch of deletes on the cache in memory.
pub fn apply_delete<V: DeepView>(store: &mut Store<V>, plan: &DeletePlan)
    ensures
        final(store)@ == plan.apply(old(store)@),
{
    let ghost all = texts(plan.keys@);
    proof {
        assert(all.take(0).to_set() =~= Set::<Seq<char>>::empty());
        assert(store@.values =~= old(store)@.values.remove_keys(all.take(0).to_set()));
    }
    let mut i: usize = 0;
    while i < plan.keys.len()
        invariant
            i <= plan.keys.len(),
            all == texts(plan.keys@),
            store@.values == old(store)@.values.remove_keys(all.take(i as int).to_set()),
            store@.index == old(store)@.index,
            store@.expiry == old(store)@.expiry,
        decreases plan.keys.len() - i,
    {
        let _ = store.erase(plan.keys[i].as_str());
        proof {
            let fewer = all.take(i as int);
            let more = all.take(i + 1);
            assert(more =~= fewer.push(all[i as int]));
            assert forall|k: Seq<char>| more.to_set().contains(k) <==> (fewer.to_set().contains(k)
                || k == all[i as int]) by {
                if more.to_set().contains(k) {
                    assert(more.contains(k));
                    let j = choose|j: int| 0 <= j < more.len() && more[j] == k;
                    if j < i {
                        assert(fewer[j] == k);
                        assert(fewer.contains(k));
                    }
                }
                if fewer.to_set().contains(k) {
                    assert(fewer.contains(k));
                    let j = choose|j: int| 0 <= j < fewer.len() && fewer[j] == k;
                    assert(more[j] == k);
                    assert(more.contains(k));
                }
                if k == all[i as int] {
                    assert(more[i as int] == k);
                    assert(more.contains(k));
                }
            }
            assert(store@.values =~= old(store)@.values.remove_keys(more.to_set()));
        }
        i = i + 1;
    }
    proof {
        assert(all.take(plan.keys@.len() as int) =~= all);
        assert(group_pairs(plan.groups@.take(0)) =~= Set::<(Seq<char>, Seq<char>)>::empty());
        assert(store@.index =~= old(store)@.index - group_pairs(plan.groups@.take(0)));
    }
    let mut g: usize = 0;
    while g < plan.groups.len()
        invariant
            g <= plan.groups.len(),
            store@.values == old(store)@.values.remove_keys(all.to_set()),
            store@.index == old(store)@.index - group_pairs(plan.groups@.take(g as int)),
            store@.expiry == old(store)@.expiry,
        decreases plan.groups.len() - g,
    {
        unlink_group(store, &plan.groups[g]);
        proof {
            lemma_group_pairs_push(plan.groups@, g as int);
            assert(store@.index =~= old(store)@.index - group_pairs(plan.groups@.take(g + 1)));
        }
        g = g + 1;
    }
    proof {
        assert(plan.groups@.take(plan.groups@.len() as int) =~= plan.groups@);
    }
}

/// The value stored under `key`, which is read as it is written.
pub fn get<'a, V: DeepView>(store: &'a Store<V>, key: &str) -> (value: Option<&'a V>)
    ensures
        match value {
            Some(v) => store@.get(key@) == Some(v.deep_view()),
            None => store@.get(key@) is None,
        },
{
    store.peek(key)
}

/// The members of the index set `key`, each once.
pub fn get_members<V: DeepView>(store: &Store<V>, key: &str) -> (members: Vec<String>)
    ensures
        texts(members@).no_duplicates(),
        texts(members@).to_set() == store@.members(key@),
{
    store.members(key)
}

/// The number of members of the index set `key`.
pub fn get_members_len<V: DeepView>(store: &Store<V>, key: &str) -> (n: u64)
    ensures
        store@.members(key@).finite(),
        n == store@.members(key@).len(),
{
    let members = store.members(key);
    proof {
        texts(members@).unique_seq_to_set();
    }
    members.len() as u64
}

/// The entries of the hash `key`, each field once. The cache has one hash,
/// the expiry table; any other name has no entries.
pub fn get_hashmap<V: DeepView>(store: &Store<V>, key: &str) -> (entries: Vec<(String, String)>)
    ensures
        key@ != EXPIRY_KEYS@ ==> entries.len() == 0,
        key@ == EXPIRY_KEYS@ ==> {
            &&& store@.expiry.dom().finite()
            &&& entries.len() == store@.expiry.dom().len()
            &&& forall|i: int|
                0 <= i < entries.len() ==> store@.expiry.dom().contains(#[trigger] entries[i].0@)
                    && store@.expiry[entries[i].0@] == entries[i].1@
            &&& forall|field: Seq<char>|
                store@.expiry.dom().contains(field) ==> exists|i: int|
                    0 <= i < entries.len() && #[trigger] entries[i].0@ == field
            &&& forall|i: int, j: int|
                0 <= i < j < entries.len() ==> entries[i].0@ != entries[j].0@
        },
{
    if String::from_str(key) == String::from_str(EXPIRY_KEYS) {
        store.schedule_entries()
    } else {
        Vec::new()
    }
}

/// Writes one value.
pub fn set<V: DeepView>(store: &mut Store<V>, key: &str, value: V)
    ensures
        final(store)@ == old(store)@.set(key@, value.deep_view()),
{
    let mut items: Vec<(String, V)> = Vec::new();
    items.push((String::from_str(key), value));
    proof {
        let views = item_views(items@);
        assert(views.drop_last() =~= Seq::<(Seq<char>, V::V)>::empty());
        assert(views.last() == (key@, value.deep_view()));
        assert(old(store)@.set_all(views.drop_last()) == old(store)@);
    }
    set_all(store, items);
}

/// Writes a batch of values and lists their keys in the index sets.
pub fn set_all<V: DeepView>(store: &mut Store<V>, items: Vec<(String, V)>)
    ensures
        final(store)@ == old(store)@.set_all(item_views(items@)),
{
    if items.len() == 0 {
        assert(item_views(items@) =~= Seq::<(Seq<char>, V::V)>::empty());
        return ;
    }
    let plan = plan_set_all(items);
    apply_write(store, plan);
}

/// Deletes a batch of keys and takes them off the index sets.
pub fn del_all<V: DeepView>(store: &mut Store<V>, keys: &Vec<String>)
    ensures
        final(store)@ == old(store)@.del_all(texts(keys@)),
{
    if keys.len() == 0 {
        proof {
            assert(texts(keys@).to_set() =~= Set::<Seq<char>>::empty());
            crate::store::lemma_del_keys_empty(old(store)@);
        }
        return ;
    }
    let plan = plan_del_all(keys);
    proof {
        lemma_del_all_shape(old(store)@, texts(keys@));
    }
    apply_delete(store, &plan);
    proof {
        assert(store@.values =~= old(store)@.del_all(texts(keys@)).values);
        assert(store@.index =~= old(store)@.del_all(texts(keys@)).index);
    }
}

/// Deletes one key.
pub fn del<V: DeepView>(store: &mut Store<V>, key: &str)
    ensures
        final(store)@ == old(store)@.del(key@),
{
    let mut keys: Vec<String> = Vec::new();
    keys.push(String::from_str(key));
    proof {
        let one = texts(keys@);
        assert(one =~= seq![key@]);
        assert forall|k: Seq<char>| #[trigger] one.to_set().contains(k) <==> set![key@].contains(
            k,
        ) by {
            if one.to_set().contains(k) {
                assert(one.contains(k));
            }
            if k == key@ {
                assert(one[0] == k);
                assert(one.contains(k));
            }
        }
        assert(one.to_set() =~= set![key@]);
    }
    del_all(store, &keys);
}

/// Removes `fields` from the hash `key`. The cache has one hash, the expiry
/// table; a removal from any other name changes nothing.
pub fn del_hashmap<V: DeepView>(store: &mut Store<V>, key: &str, fields: &Vec<String>)
    ensures
        key@ == EXPIRY_KEYS@ ==> final(store)@ == old(store)@.forget(texts(fields@).to_set()),
        key@ != EXPIRY_KEYS@ ==> final(store)@ == old(store)@,
{
    if String::from_str(key) != String::from_str(EXPIRY_KEYS) {
        return ;
    }
    let ghost all = texts(fields@);
    proof {
        assert(all.take(0).to_set() =~= Set::<Seq<char>>::empty());
        assert(store@.expiry =~= old(store)@.expiry.remove_keys(all.take(0).to_set()));
    }
    let mut i: usize = 0;
    while i < fields.len()
        invariant
            i <= fields.len(),
            all == texts(fields@),
            store@.values == old(store)@.values,
            store@.index == old(store)@.index,
            store@.expiry == old(store)@.expiry.remove_keys(all.take(i as int).to_set()),
        decreases fields.len() - i,
    {
        store.unschedule(fields[i].as_str());
        proof {
            let fewer = all.take(i as int);
            let more = all.take(i + 1);
            assert(more =~= fewer.push(all[i as int]));
            assert forall|k: Seq<char>| more.to_set().contains(k) <==> (fewer.to_set().contains(k)
                || k == all[i as int]) by {
                if more.to_set().contains(k) {
                    assert(more.contains(k));
                    let j = choose|j: int| 0 <= j < more.len() && more[j] == k;
                    if j < i {
                        assert(fewer[j] == k);
                        assert(fewer.contains(k));
                    }
                }
                if fewer.to_set().contains(k) {
                    assert(fewer.contains(k));
                    let j = choose|j: int| 0 <= j < fewer.len() && fewer[j] == k;
                    assert(more[j] == k);
                    assert(more.contains(k));
                }
                if k == all[i as int] {
                    assert(more[i as int] == k);
                    assert(more.contains(k));
                }
            }
            assert(store@.expiry =~= old(store)@.expiry.remove_keys(more.to_set()));
        }
        i = i + 1;
    }
    proof {
        assert(all.take(fields@.len() as int) =~= all);
    }
}

/// Deletes one key and hands back the value that was stored for it.
pub fn take<V: DeepView>(store: &mut Store<V>, key: &str) -> (previous: Option<V>)
    ensures
        final(store)@ == old(store)@.del(key@),
        previous.deep_view() == old(store)@.get(canonical(key@)),
{
    let slot = plan_key(key);
    let previous = store.erase(slot.key.as_str());
    let ghost middle = store@;
    del(store, key);
    proof {
        assert(stored_under(set![key@]).contains(canonical(key@)));
        assert(middle.del(key@).values =~= old(store)@.del(key@).values);
    }
    previous
}

/// Whether the instant `nanos` is read back from its own quoted text.
pub open spec fn sound(nanos: int) -> bool {
    decoded(encoded(nanos)) == Some(nanos)
}

/// Whether `read` is the instant `deadline`.
pub open spec fn reads_as(read: Option<FormattedDateTime>, deadline: int) -> bool {
    match read {
        Some(instant) => instant@ == deadline,
        None => false,
    }
}

/// Confirms the stored form `text` of the instant `deadline`: it stands if
/// `read`, what was read back from it, is that instant.
pub fn confirm(
    text: String,
    read: Option<FormattedDateTime>,
    deadline: &FormattedDateTime,
) -> (confirmed: Result<String, ApiError>)
    ensures
        match confirmed {
            Ok(t) => t == text && reads_as(read, deadline@),
            Err(e) => e == ApiError::Timestamp && !reads_as(read, deadline@),
        },
{
    match read {
        Some(instant) => {
            if instant.unix_nanos() == deadline.unix_nanos() {
                Ok(text)
            } else {
                Err(ApiError::Timestamp)
            }
        },
        None => Err(ApiError::Timestamp),
    }
}

/// The quoted text of the instant `ttl` milliseconds after `now`, once it
/// has been read back and found to hold that instant.
pub fn deadline_text(now: &FormattedDateTime, ttl: u64) -> (text: Result<String, ApiError>)
    ensures
        match text {
            Ok(t) => sound(later(now@, ttl as int)) && t@ == encoded(later(now@, ttl as int)),
            Err(e) => e == ApiError::Timestamp && !sound(later(now@, ttl as int)),
        },
{
    let deadline = now.add_millis(ttl);
    let text = deadline.encode();
    let read = FormattedDateTime::decode(text.as_str());
    confirm(text, read, &deadline)
}

/// The entries that give each of `keys` the expiry time `at`.
pub open spec fn all_at(keys: Seq<Seq<char>>, at: Seq<char>) -> Seq<(Seq<char>, Seq<char>)> {
    Seq::new(keys.len(), |i: int| (keys[i], at))
}

/// Records that each of `keys` expires at the encoded time `at`.
pub fn schedule_all<V: DeepView>(store: &mut Store<V>, keys: &Vec<String>, at: &String)
    ensures
        final(store)@ == old(store)@.expire_all(all_at(texts(keys@), at@)),
{
    let ghost all = all_at(texts(keys@), at@);
    let mut i: usize = 0;
    while i < keys.len()
        invariant
            i <= keys.len(),
            all == all_at(texts(keys@), at@),
            store@ == old(store)@.expire_all(all.take(i as int)),
        decreases keys.len() - i,
    {
        store.schedule(keys[i].clone(), at.clone());
        proof {
            assert(all.take(i + 1).drop_last() =~= all.take(i as int));
            assert(all.take(i + 1).last() == (keys[i as int]@, at@));
        }
        i = i + 1;
    }
    proof {
        assert(all.take(keys@.len() as int) =~= all);
    }
}

/// The expiry entries of a list of keys with a time to live each, counted
/// from `now`.
pub open spec fn deadlines(entries: Seq<(String, u64)>, now: int) -> Seq<(Seq<char>, Seq<char>)> {
    Seq::new(entries.len(), |i: int| (entries[i].0@, encoded(later(now, entries[i].1 as int))))
}

/// Whether every deadline of `entries` is read back from its quoted text.
pub open spec fn all_sound(entries: Seq<(String, u64)>, now: int) -> bool {
    forall|i: int| 0 <= i < entries.len() ==> sound(later(now, (#[trigger] entries[i]).1 as int))
}

/// Gives each key of `entries` the time to live that comes with it, in
/// milliseconds from `now`. Nothing is recorded unless every deadline is
/// read back from its quoted text.
pub fn expire_all<V: DeepView>(
    store: &mut Store<V>,
    entries: &Vec<(String, u64)>,
    now: &FormattedDateTime,
) -> (done: Result<(), ApiError>)
    ensures
        match done {
            Ok(_) => all_sound(entries@, now@) && final(store)@ == old(store)@.expire_all(
                deadlines(entries@, now@),
            ),
            Err(e) => e == ApiError::Timestamp && !all_sound(entries@, now@) && final(store)@
                == old(store)@,
        },
{
    let mut lines: Vec<(String, String)> = Vec::new();
    let ghost all = deadlines(entries@, now@);
    let mut i: usize = 0;
    while i < entries.len()
        invariant
            i <= entries.len(),
            all == deadlines(entries@, now@),
            lines.len() == i,
            forall|j: int| 0 <= j < i ==> sound(later(now@, (#[trigger] entries[j]).1 as int)),
            forall|j: int|
                0 <= j < i ==> ((#[trigger] lines[j]).0@, lines[j].1@) == all[j],
            *store == *old(store),
        decreases entries.len() - i,
    {
        match deadline_text(now, entries[i].1) {
            Ok(text) => {
                lines.push((entries[i].0.clone(), text));
            },
            Err(e) => {
                return Err(e);
            },
        }
        i = i + 1;
    }
    let mut k: usize = 0;
    while k < lines.len()
        invariant
            k <= lines.len(),
            lines.len() == all.len(),
            forall|j: int|
                0 <= j < lines.len() ==> ((#[trigger] lines[j]).0@, lines[j].1@) == all[j],
            store@ == old(store)@.expire_all(all.take(k as int)),
        decreases lines.len() - k,
    {
        store.schedule(lines[k].0.clone(), lines[k].1.clone());
        proof {
            assert(all.take(k + 1).drop_last() =~= all.take(k as int));
            assert(all.take(k + 1).last() == all[k as int]);
        }
        k = k + 1;
    }
    proof {
        assert(all.take(lines@.len() as int) =~= all);
    }
    Ok(())
}

/// Gives one key a time to live, in milliseconds from `now`.
pub fn expire<V: DeepView>(
    store: &mut Store<V>,
    key: &str,
    expiry: u64,
    now: &FormattedDateTime,
) -> (done: Result<(), ApiError>)
    ensures
        match done {
            Ok(_) => {
                &&& sound(later(now@, expiry as int))
                &&& final(store)@.values == old(store)@.values
                &&& final(store)@.index == old(store)@.index
                &&& final(store)@.expiry == old(store)@.expiry.insert(
                    key@,
                    encoded(later(now@, expiry as int)),
                )
            },
            Err(e) => {
                &&& e == ApiError::Timestamp
                &&& !sound(later(now@, expiry as int))
                &&& final(store)@ == old(store)@
            },
        },
{
    let mut entries: Vec<(String, u64)> = Vec::new();
    entries.push((String::from_str(key), expiry));
    proof {
        let all = deadlines(entries@, now@);
        assert(all.drop_last() =~= Seq::<(Seq<char>, Seq<char>)>::empty());
        assert(old(store)@.expire_all(all.drop_last()) == old(store)@);
        assert(all.last() == (key@, encoded(later(now@, expiry as int))));
        assert(entries@[0].1 == expiry);
    }
    expire_all(store, &entries, now)
}

/// The cache without the guild `guild`: without what its index set lists,
/// without the set itself, and without the guild's own record.
pub open spec fn cleared<V>(view: StoreView<V>, guild: u64) -> StoreView<V> {
    let index = guild_index_spec(decimal(guild as nat));
    view.del_keys(view.members(index)).drop_set(index).del(guild_key_spec(guild))
}

/// The record of the guild `guild` that clearing the guild displaces.
pub open spec fn cleared_record<V>(view: StoreView<V>, guild: u64) -> Option<V> {
    let index = guild_index_spec(decimal(guild as nat));
    view.del_keys(view.members(index)).get(guild_key_spec(guild))
}

/// Deletes the guild `guild` with everything that belongs to it, and hands
/// back its record.
pub fn clear_guild<V: DeepView>(store: &mut Store<V>, guild: u64) -> (previous: Option<V>)
    ensures
        final(store)@ == cleared(old(store)@, guild),
        previous.deep_view() == cleared_record(old(store)@, guild),
{
    let index = guild_index(guild);
    let members = get_members(store, index.as_str());
    del_all(store, &members);
    store.drop_set(index.as_str());
    let key = guild_key(guild);
    proof {
        crate::keys::lemma_guild_key(guild);
    }
    take(store, key.as_str())
}

/// Whether the stored time `at` can be read and lies before `now`.
pub open spec fn is_due(at: Seq<char>, now: int) -> bool {
    decoded(at) matches Some(instant) && instant < now
}

/// Whether the stored time `at` cannot be read.
pub open spec fn is_unreadable(at: Seq<char>) -> bool {
    decoded(at) is None
}

/// The keys of `entries` whose stored time satisfies `pick`, in their order.
pub open spec fn picked(entries: Seq<(String, String)>, pick: spec_fn(Seq<char>) -> bool) -> Seq<
    Seq<char>,
>
    decreases entries.len(),
{
    if entries.len() == 0 {
        Seq::empty()
    } else {
        let front = picked(entries.drop_last(), pick);
        if pick(entries.last().1@) {
            front.push(entries.last().0@)
        } else {
            front
        }
    }
}

/// A key is picked exactly if one of the entries holds it with a time that
/// satisfies `pick`.
pub proof fn lemma_picked(entries: Seq<(String, String)>, pick: spec_fn(Seq<char>) -> bool)
    ensures
        forall|key: Seq<char>|
            picked(entries, pick).contains(key) <==> exists|i: int|
                0 <= i < entries.len() && #[trigger] entries[i].0@ == key && pick(entries[i].1@),
    decreases entries.len(),
{
    if entries.len() > 0 {
        let front = entries.drop_last();
        lemma_picked(front, pick);
        let all = picked(entries, pick);
        let most = picked(front, pick);
        assert forall|key: Seq<char>| all.contains(key) <==> exists|i: int|
            0 <= i < entries.len() && #[trigger] entries[i].0@ == key && pick(entries[i].1@) by {
            if all.contains(key) {
                let j = choose|j: int| 0 <= j < all.len() && all[j] == key;
                if j < most.len() {
                    assert(most[j] == key);
                    assert(most.contains(key));
                    let i = choose|i: int|
                        0 <= i < front.len() && #[trigger] front[i].0@ == key && pick(front[i].1@);
                    assert(entries[i].0@ == key);
                } else {
                    assert(entries[entries.len() - 1].0@ == key);
                }
            }
            if exists|i: int|
                0 <= i < entries.len() && #[trigger] entries[i].0@ == key && pick(entries[i].1@) {
                let i = choose|i: int|
                    0 <= i < entries.len() && #[trigger] entries[i].0@ == key && pick(
                        entries[i].1@,
                    );
                if i < front.len() {
                    assert(front[i].0@ == key);
                    assert(most.contains(key));
                    let j = choose|j: int| 0 <= j < most.len() && most[j] == key;
                    assert(all[j] == key);
                } else {
                    assert(all[all.len() - 1] == key);
                }
            }
        }
    }
}

/// What a stored expiry time says at some moment.
#[derive(Clone, Copy, Debug, PartialEq, Eq)]
pub enum Expiry {
    /// The time has passed.
    Due,
    /// The time has not passed yet.
    Pending,
    /// The time could not be read.
    Unreadable,
}

/// Judges a stored expiry time at `now`, given what was read from it: it is
/// due only if it lies before `now`.
pub fn judge(read: &Option<FormattedDateTime>, now: &FormattedDateTime) -> (expiry: Expiry)
    ensures
        expiry == (match *read {
            Some(instant) => if instant@ < now@ {
                Expiry::Due
            } else {
                Expiry::Pending
            },
            None => Expiry::Unreadable,
        }),
{
    match read {
        Some(instant) => {
            if instant.is_before(now) {
                Expiry::Due
            } else {
                Expiry::Pending
            }
        },
        None => Expiry::Unreadable,
    }
}

/// What one scan of the expiry table found.
#[derive(Debug, PartialEq, Eq)]
pub struct CleanupReport {
    /// The keys whose time has passed.
    pub expired: Vec<String>,
    /// The keys whose time could not be read; they are left alone.
    pub unreadable: Vec<String>,
}

/// Sorts the entries of the expiry table: which keys are due at `now`, and
/// which hold a time that cannot be read.
pub fn expired_keys(entries: &Vec<(String, String)>, now: &FormattedDateTime) -> (report:
    CleanupReport)
    ensures
        texts(report.expired@) == picked(entries@, |at: Seq<char>| is_due(at, now@)),
        texts(report.unreadable@) == picked(entries@, |at: Seq<char>| is_unreadable(at)),
{
    let mut expired: Vec<String> = Vec::new();
    let mut unreadable: Vec<String> = Vec::new();
    let ghost due = |at: Seq<char>| is_due(at, now@);
    let ghost dim = |at: Seq<char>| is_unreadable(at);
    proof {
        assert(texts(expired@) =~= picked(entries@.take(0), due));
        assert(texts(unreadable@) =~= picked(entries@.take(0), dim));
    }
    let mut i: usize = 0;
    while i < entries.len()
        invariant
            i <= entries.len(),
            due == |at: Seq<char>| is_due(at, now@),
            dim == |at: Seq<char>| is_unreadable(at),
            texts(expired@) == picked(entries@.take(i as int), due),
            texts(unreadable@) == picked(entries@.take(i as int), dim),
        decreases entries.len() - i,
    {
        proof {
            assert(entries@.take(i + 1).drop_last() =~= entries@.take(i as int));
            assert(entries@.take(i + 1).last() == entries@[i as int]);
        }
        let ghost before_expired = expired@;
        let ghost before_unreadable = unreadable@;
        let read = FormattedDateTime::decode(entries[i].1.as_str());
        match judge(&read, now) {
            Expiry::Due => {
                expired.push(entries[i].0.clone());
                proof {
                    assert(texts(expired@) =~= texts(before_expired).push(entries@[i as int].0@));
                }
            },
            Expiry::Pending => {},
            Expiry::Unreadable => {
                unreadable.push(entries[i].0.clone());
                proof {
                    assert(texts(unreadable@) =~= texts(before_unreadable).push(
                        entries@[i as int].0@,
                    ));
                }
            },
        }
        i = i + 1;
    }
    proof {
        assert(entries@.take(entries@.len() as int) =~= entries@);
    }
    CleanupReport { expired, unreadable }
}

/// The keys of the cache whose time has passed at `now`.
pub open spec fn expired<V>(view: StoreView<V>, now: int) -> Set<Seq<char>> {
    Set::new(|key: Seq<char>| view.expiry.dom().contains(key) && is_due(view.expiry[key], now))
}

/// The keys of the cache whose time cannot be read.
pub open spec fn unreadable<V>(view: StoreView<V>) -> Set<Seq<char>> {
    Set::new(|key: Seq<char>| view.expiry.dom().contains(key) && is_unreadable(view.expiry[key]))
}

/// The cache after one scan of the expiry table at `now`: the keys whose
/// time has passed are deleted, and so are their times.
pub open spec fn swept<V>(view: StoreView<V>, now: int) -> StoreView<V> {
    view.del_keys(expired(view, now)).forget(expired(view, now))
}

/// Scans the expiry table once: deletes the keys whose time has passed at
/// `now`, then forgets their times. Entries that cannot be read stay.
pub fn run_cleanups<V: DeepView>(store: &mut Store<V>, now: &FormattedDateTime) -> (report:
    CleanupReport)
    ensures
        final(store)@ == swept(old(store)@, now@),
        texts(report.expired@).to_set() == expired(old(store)@, now@),
        texts(report.unreadable@).to_set() == unreadable(old(store)@),
{
    let entries = get_hashmap(store, EXPIRY_KEYS);
    let report = expired_keys(&entries, now);
    proof {
        let view = old(store)@;
        let due = |at: Seq<char>| is_due(at, now@);
        let dim = |at: Seq<char>| is_unreadable(at);
        lemma_picked(entries@, due);
        lemma_picked(entries@, dim);
        assert forall|key: Seq<char>| #[trigger]
            texts(report.expired@).to_set().contains(key) <==> expired(view, now@).contains(
                key,
            ) by {
            if texts(report.expired@).contains(key) {
                let i = choose|i: int|
                    0 <= i < entries.len() && #[trigger] entries[i].0@ == key && due(entries[i].1@);
            }
            if expired(view, now@).contains(key) {
                let i = choose|i: int| 0 <= i < entries.len() && #[trigger] entries[i].0@ == key;
                assert(due(entries[i].1@));
            }
        }
        assert(texts(report.expired@).to_set() =~= expired(view, now@));
        assert forall|key: Seq<char>| #[trigger]
            texts(report.unreadable@).to_set().contains(key) <==> unreadable(view).contains(
                key,
            ) by {
            if texts(report.unreadable@).contains(key) {
                let i = choose|i: int|
                    0 <= i < entries.len() && #[trigger] entries[i].0@ == key && dim(entries[i].1@);
            }
            if unreadable(view).contains(key) {
                let i = choose|i: int| 0 <= i < entries.len() && #[trigger] entries[i].0@ == key;
                assert(dim(entries[i].1@));
            }
        }
        assert(texts(report.unreadable@).to_set() =~= unreadable(view));
    }
    del_all(store, &report.expired);
    del_hashmap(store, EXPIRY_KEYS, &report.expired);
    report
}

} // verus!
