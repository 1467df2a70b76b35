//! The membership relation of the index sets: which key is listed in which
//! set. A set exists as long as it has a member.

use vstd::prelude::*;
use crate::keys::texts;

verus! {

/// A finite relation between set names and members.
pub struct Links {
    pairs: Vec<(String, String)>,
}

/// The members that `index` lists under `set`.
pub open spec fn members_of(index: Set<(Seq<char>, Seq<char>)>, set: Seq<char>) -> Set<Seq<char>> {
    Set::new(|member: Seq<char>| index.contains((set, member)))
}

/// `index` without the set `set`.
pub open spec fn without_set(index: Set<(Seq<char>, Seq<char>)>, set: Seq<char>) -> Set<
    (Seq<char>, Seq<char>),
> {
    Set::new(|pair: (Seq<char>, Seq<char>)| index.contains(pair) && pair.0 != set)
}

impl Links {
    #[verifier::type_invariant]
    spec fn distinct(&self) -> bool {
        Self::distinct_pairs(self.pairs@)
    }

    spec fn distinct_pairs(pairs: Seq<(String, String)>) -> bool {
        forall|i: int, j: int|
            0 <= i < j < pairs.len() ==> !(pairs[i].0@ == pairs[j].0@ && pairs[i].1@ == pairs[j].1@)
    }

    spec fn holds(&self, pair: (Seq<char>, Seq<char>), i: int) -> bool {
        0 <= i < self.pairs.len() && self.pairs[i].0@ == pair.0 && self.pairs[i].1@ == pair.1
    }

    /// The relation that the list stands for.
    pub closed spec fn view(&self) -> Set<(Seq<char>, Seq<char>)> {
        Set::new(|pair: (Seq<char>, Seq<char>)| exists|i: int| self.holds(pair, i))
    }

    pub fn new() -> (links: Self)
        ensures
            links@ == Set::<(Seq<char>, Seq<char>)>::empty(),
    {
        let links = Links { pairs: Vec::new() };
        assert(links@ =~= Set::<(Seq<char>, Seq<char>)>::empty());
        links
    }

    fn find(&self, set: &String, member: &String) -> (found: Option<usize>)
        ensures
            match found {
                Some(i) => self.holds((set@, member@), i as int),
                None => !self@.contains((set@, member@)),
            },
    {
        let mut i: usize = 0;
        while i < self.pairs.len()
            invariant
                i <= self.pairs.len(),
                forall|j: int| 0 <= j < i ==> !self.holds((set@, member@), j),
            decreases self.pairs.len() - i,
        {
            if self.pairs[i].0 == *set && self.pairs[i].1 == *member {
                return Some(i);
            }
            i = i + 1;
        }
        proof {
            assert forall|j: int| !self.holds((set@, member@), j) by {}
        }
        None
    }

    /// Lists `member` in `set`.
    pub fn add(&mut self, set: String, member: String)
        ensures
            final(self)@ == old(self)@.insert((set@, member@)),
    {
        proof {
            use_type_invariant(&*self);
        }
        match self.find(&set, &member) {
            Some(_) => {
                assert(old(self)@ =~= old(self)@.insert((set@, member@)));
            },
            None => {
                let mut pairs: Vec<(String, String)> = Vec::new();
                std::mem::swap(&mut pairs, &mut self.pairs);
                let ghost before = pairs@;
                pairs.push((set, member));
                proof {
                    assert forall|a: int, b: int| 0 <= a < b < pairs@.len() implies !(pairs@[a].0@
                        == pairs@[b].0@ && pairs@[a].1@ == pairs@[b].1@) by {
                        if b == before.len() {
                            assert(pairs@[a] == before[a]);
                            if pairs@[a].0@ == set@ && pairs@[a].1@ == member@ {
                                assert(old(self).holds((set@, member@), a));
                            }
                        } else {
                            assert(pairs@[a] == before[a]);
                            assert(pairs@[b] == before[b]);
                        }
                    }
                }
                self.pairs = pairs;
                proof {
                    let n = before.len() as int;
                    assert forall|pair: (Seq<char>, Seq<char>)| #[trigger]
                        final(self)@.contains(pair) <==> old(self)@.insert(
                            (set@, member@),
                        ).contains(pair) by {
                        if final(self)@.contains(pair) {
                            let i = choose|i: int| final(self).holds(pair, i);
                            if i < n {
                                assert(old(self).holds(pair, i));
                            }
                        }
                        if old(self)@.contains(pair) {
                            let i = choose|i: int| old(self).holds(pair, i);
                            assert(final(self).holds(pair, i));
                        }
                        if pair == (set@, member@) {
                            assert(final(self).holds(pair, n));
                        }
                    }
                    assert(final(self)@ =~= old(self)@.insert((set@, member@)));
                }
            },
        }
    }

    /// Takes `member` off `set`.
    pub fn remove(&mut self, set: &str, member: &str)
        ensures
            final(self)@ == old(self)@.remove((set@, member@)),
    {
        proof {
            use_type_invariant(&*self);
        }
        let set = String::from_str(set);
        let member = String::from_str(member);
        match self.find(&set, &member) {
            Some(i) => {
                let mut pairs: Vec<(String, String)> = Vec::new();
                std::mem::swap(&mut pairs, &mut self.pairs);
                let ghost before = pairs@;
                let _ = pairs.swap_remove(i);
                let ghost last = before.len() - 1;
                let ghost from = |x: int| if x == i as int { last } else { x };
                proof {
                    assert forall|a: int, b: int| 0 <= a < b < pairs@.len() implies !(pairs@[a].0@
                        == pairs@[b].0@ && pairs@[a].1@ == pairs@[b].1@) by {
                        assert(pairs@[a] == before[from(a)]);
                        assert(pairs@[b] == before[from(b)]);
                    }
                }
                self.pairs = pairs;
                proof {
                    assert forall|pair: (Seq<char>, Seq<char>)| #[trigger]
                        final(self)@.contains(pair) <==> old(self)@.remove(
                            (set@, member@),
                        ).contains(pair) by {
                        if final(self)@.contains(pair) {
                            let j = choose|j: int| final(self).holds(pair, j);
                            assert(old(self).holds(pair, from(j)));
                        }
                        if old(self)@.remove((set@, member@)).contains(pair) {
                            let j = choose|j: int| old(self).holds(pair, j);
                            if j == last {
                                assert(final(self).holds(pair, i as int));
                            } else {
                                assert(final(self).holds(pair, j));
                            }
                        }
                    }
                    assert(final(self)@ =~= old(self)@.remove((set@, member@)));
                }
            },
            None => {
                assert(old(self)@ =~= old(self)@.remove((set@, member@)));
            },
        }
    }

    /// The members of `set`, each once.
    pub fn members(&self, set: &str) -> (found: Vec<String>)
        ensures
            texts(found@).no_duplicates(),
            texts(found@).to_set() == members_of(self@, set@),
    {
        proof {
            use_type_invariant(self);
        }
        let wanted = String::from_str(set);
        let mut found: Vec<String> = Vec::new();
        let ghost mut origin: Seq<int> = Seq::empty();
        let mut i: usize = 0;
        while i < self.pairs.len()
            invariant
                i <= self.pairs.len(),
                wanted@ == set@,
                Self::distinct_pairs(self.pairs@),
                origin.len() == found.len(),
                forall|k: int|
                    0 <= k < found.len() ==> 0 <= #[trigger] origin[k] < i && self.holds(
                        (set@, found[k]@),
                        origin[k],
                    ),
                forall|k: int, l: int| 0 <= k < l < found.len() ==> origin[k] < origin[l],
                forall|j: int|
                    0 <= j < i && self.pairs[j].0@ == set@ ==> exists|k: int|
                        0 <= k < found.len() && #[trigger] origin[k] == j,
            decreases self.pairs.len() - i,
        {
            if self.pairs[i].0 == wanted {
                found.push(self.pairs[i].1.clone());
                proof {
                    let earlier = origin;
                    origin = origin.push(i as int);
                    assert forall|j: int| 0 <= j < i + 1 && self.pairs[j].0@ == set@ implies exists|
                        k: int,
                    |
                        0 <= k < found.len() && #[trigger] origin[k] == j by {
                        if j < i {
                            let k = choose|k: int|
                                0 <= k < earlier.len() && #[trigger] earlier[k] == j;
                            assert(origin[k] == j);
                        } else {
                            assert(origin[found.len() - 1] == j);
                        }
                    }
                }
            }
            i = i + 1;
        }
        proof {
            assert forall|k: int, l: int| 0 <= k < l < found.len() implies texts(found@)[k]
                != texts(found@)[l] by {
                assert(self.holds((set@, found[k]@), origin[k]));
                assert(self.holds((set@, found[l]@), origin[l]));
            }
            assert forall|member: Seq<char>| #[trigger]
                texts(found@).to_set().contains(member) <==> members_of(self@, set@).contains(
                    member,
                ) by {
                if texts(found@).contains(member) {
                    let k = choose|k: int| 0 <= k < found.len() && texts(found@)[k] == member;
                    assert(self.holds((set@, member), origin[k]));
                }
                if self@.contains((set@, member)) {
                    let j = choose|j: int| self.holds((set@, member), j);
                    let k = choose|k: int| 0 <= k < found.len() && origin[k] == j;
                    assert(self.holds((set@, found[k]@), j));
                    assert(texts(found@)[k] == member);
                }
            }
            assert(texts(found@).to_set() =~= members_of(self@, set@));
        }
        found
    }

    /// Removes `set` with all its members.
    pub fn remove_set(&mut self, set: &str)
        ensures
            final(self)@ == without_set(old(self)@, set@),
    {
        let members = self.members(set);
        let mut i: usize = 0;
        while i < members.len()
            invariant
                i <= members.len(),
                texts(members@).to_set() == members_of(old(self)@, set@),
                forall|pair: (Seq<char>, Seq<char>)|
                    self@.contains(pair) <==> (old(self)@.contains(pair) && !(pair.0 == set@
                        && exists|k: int| 0 <= k < i && #[trigger] texts(members@)[k] == pair.1)),
            decreases members.len() - i,
        {
            let ghost before = self@;
            self.remove(set, members[i].as_str());
            proof {
                assert(texts(members@)[i as int] == members[i as int]@);
                assert forall|pair: (Seq<char>, Seq<char>)|
                    self@.contains(pair) <==> (old(self)@.contains(pair) && !(pair.0 == set@
                        && exists|k: int|
                        0 <= k < i + 1 && #[trigger] texts(members@)[k] == pair.1)) by {
                    if before.contains(pair) && pair.0 == set@ && pair.1 == members[i as int]@ {
                    }
                    if pair.0 == set@ && (exists|k: int|
                        0 <= k < i + 1 && #[trigger] texts(members@)[k] == pair.1) {
                        let k = choose|k: int| 0 <= k < i + 1 && #[trigger] texts(members@)[k] == pair.1;
                        if k < i {
                        }
                    }
                }
            }
            i = i + 1;
        }
        proof {
            assert forall|pair: (Seq<char>, Seq<char>)| #[trigger]
                self@.contains(pair) <==> without_set(old(self)@, set@).contains(pair) by {
                if old(self)@.contains(pair) && pair.0 == set@ {
                    assert(members_of(old(self)@, set@).contains(pair.1));
                    assert(texts(members@).to_set().contains(pair.1));
                    assert(texts(members@).contains(pair.1));
                    let k = choose|k: int| 0 <= k < members.len() && texts(members@)[k] == pair.1;
                }
            }
            assert(self@ =~= without_set(old(self)@, set@));
        }
    }
}

} // verus!
