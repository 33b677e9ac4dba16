//! A small string-keyed map, backed by a vector of entries with distinct
//! keys. Gossip topic registrations and per-query bookkeeping are keyed by
//! strings (topic hashes, query ids), and this map gives them a verified
//! view as a `Map<Seq<char>, V>`.

use vstd::prelude::*;

verus! {

pub struct StrMap<V> {
    entries: Vec<(String, V)>,
}

impl<V> View for StrMap<V> {
    type V = Map<Seq<char>, V>;

    closed spec fn view(&self) -> Map<Seq<char>, V> {
        StrMap::<V>::map_of(self.entries@)
    }
}

impl<V> StrMap<V> {
    /// The map denoted by a sequence of entries; later entries win,
    /// although under [`StrMap::wf`] keys never repeat.
    pub closed spec fn map_of(s: Seq<(String, V)>) -> Map<Seq<char>, V>
        decreases s.len(),
    {
        if s.len() == 0 {
            Map::empty()
        } else {
            Self::map_of(s.drop_last()).insert(s.last().0@, s.last().1)
        }
    }

    /// Entry keys are pairwise distinct.
    pub closed spec fn wf(self) -> bool {
        forall|i: int, j: int|
            0 <= i < j < self.entries@.len() ==> self.entries@[i].0@ != self.entries@[j].0@
    }

    proof fn lemma_map_of_contains(s: Seq<(String, V)>, k: Seq<char>)
        ensures
            Self::map_of(s).contains_key(k) <==> exists|i: int|
                0 <= i < s.len() && s[i].0@ == k,
        decreases s.len(),
    {
        if s.len() > 0 {
            Self::lemma_map_of_contains(s.drop_last(), k);
            if s.last().0@ == k {
                assert(s[s.len() - 1].0@ == k);
            } else if Self::map_of(s).contains_key(k) {
                let i = choose|i: int| 0 <= i < s.drop_last().len() && s.drop_last()[i].0@ == k;
                assert(s[i].0@ == k);
            } else {
                assert forall|i: int| 0 <= i < s.len() && s[i].0@ == k implies false by {
                    if i < s.len() - 1 {
                        assert(s.drop_last()[i].0@ == k);
                    }
                }
            }
        }
    }

    proof fn lemma_map_of_get(s: Seq<(String, V)>, i: int)
        requires
            0 <= i < s.len(),
            forall|x: int, y: int| 0 <= x < y < s.len() ==> s[x].0@ != s[y].0@,
        ensures
            Self::map_of(s).contains_key(s[i].0@),
            Self::map_of(s)[s[i].0@] == s[i].1,
        decreases s.len(),
    {
        Self::lemma_map_of_contains(s, s[i].0@);
        if i == s.len() - 1 {
        } else {
            assert(s.drop_last()[i] == s[i]);
            Self::lemma_map_of_get(s.drop_last(), i);
            assert(s[i].0@ != s.last().0@);
        }
    }

    /// Removing the entry at a position removes exactly its key from the map.
    proof fn lemma_map_of_remove(s: Seq<(String, V)>, i: int)
        requires
            0 <= i < s.len(),
            forall|x: int, y: int| 0 <= x < y < s.len() ==> s[x].0@ != s[y].0@,
        ensures
            Self::map_of(s.remove(i)) =~= Self::map_of(s).remove(s[i].0@),
        decreases s.len(),
    {
        let k = s[i].0@;
        Self::lemma_map_of_contains(s.drop_last(), k);
        if i == s.len() - 1 {
            assert(s.remove(i) =~= s.drop_last());
            assert(!Self::map_of(s.drop_last()).contains_key(k)) by {
                if Self::map_of(s.drop_last()).contains_key(k) {
                    let j = choose|j: int|
                        0 <= j < s.drop_last().len() && s.drop_last()[j].0@ == k;
                    assert(s[j].0@ == s[i].0@);
                }
            }
            assert(Self::map_of(s).remove(k) =~= Self::map_of(s.drop_last()));
        } else {
            assert(s.remove(i).last() == s.last());
            assert(s.remove(i).drop_last() =~= s.drop_last().remove(i));
            assert forall|x: int, y: int|
                0 <= x < y < s.drop_last().len() implies s.drop_last()[x].0@
                != s.drop_last()[y].0@ by {
                assert(s.drop_last()[x] == s[x] && s.drop_last()[y] == s[y]);
            }
            Self::lemma_map_of_remove(s.drop_last(), i);
            assert(s.drop_last()[i] == s[i]);
            assert(s.last().0@ != k);
        }
    }

    pub fn new() -> (r: Self)
        ensures
            r@ == Map::<Seq<char>, V>::empty(),
            r.wf(),
    {
        StrMap { entries: Vec::new() }
    }

    /// Position of the entry holding `k`, if any.
    fn find(&self, k: &String) -> (r: Option<usize>)
        requires
            self.wf(),
        ensures
            match r {
                Some(i) => i < self.entries@.len() && self.entries@[i as int].0@ == k@
                    && self@.contains_key(k@) && self@[k@] == self.entries@[i as int].1,
                None => !self@.contains_key(k@),
            },
    {
        let n = self.entries.len();
        let mut i: usize = 0;
        while i < n
            invariant
                n == self.entries@.len(),
                i <= n,
                self.wf(),
                forall|j: int| 0 <= j < i ==> self.entries@[j].0@ != k@,
            decreases n - i,
        {
            if self.entries[i].0 == *k {
                proof {
                    Self::lemma_map_of_get(self.entries@, i as int);
                }
                return Some(i);
            }
            i = i + 1;
        }
        proof {
            Self::lemma_map_of_contains(self.entries@, k@);
        }
        None
    }

    pub fn contains_key(&self, k: &String) -> (r: bool)
        requires
            self.wf(),
        ensures
            r == self@.contains_key(k@),
    {
        self.find(k).is_some()
    }

    pub fn get<'a>(&'a self, k: &String) -> (r: Option<&'a V>)
        requires
            self.wf(),
        ensures
            match r {
                Some(v) => self@.contains_key(k@) && *v == self@[k@],
                None => !self@.contains_key(k@),
            },
    {
        match self.find(k) {
            Some(i) => Some(&self.entries[i].1),
            None => None,
        }
    }

    /// Removes the entry for `k`, returning its value if one was held.
    pub fn remove(&mut self, k: &String) -> (r: Option<V>)
        requires
            old(self).wf(),
        ensures
            final(self).wf(),
            final(self)@ == old(self)@.remove(k@),
            match r {
                Some(v) => old(self)@.contains_key(k@) && v == old(self)@[k@],
                None => !old(self)@.contains_key(k@) && final(self)@ == old(self)@,
            },
    {
        match self.find(k) {
            Some(i) => {
                proof {
                    Self::lemma_map_of_remove(self.entries@, i as int);
                }
                let (_, v) = self.entries.remove(i);
                proof {
                    assert forall|x: int, y: int|
                        0 <= x < y < self.entries@.len() implies self.entries@[x].0@
                        != self.entries@[y].0@ by {
                        let s = old(self).entries@;
                        if x < i {
                            assert(self.entries@[x] == s[x]);
                        } else {
                            assert(self.entries@[x] == s[x + 1]);
                        }
                        if y < i {
                            assert(self.entries@[y] == s[y]);
                        } else {
                            assert(self.entries@[y] == s[y + 1]);
                        }
                    }
                }
                Some(v)
            },
            None => {
                proof {
                    assert(old(self)@ =~= old(self)@.remove(k@));
                }
                None
            },
        }
    }

    /// Binds `k` to `v`, replacing any previous binding.
    pub fn insert(&mut self, k: String, v: V)
        requires
            old(self).wf(),
        ensures
            final(self).wf(),
            final(self)@ == old(self)@.insert(k@, v),
    {
        let ghost pre = self@;
        let _ = self.remove(&k);
        let ghost mid = self.entries@;
        self.entries.push((k, v));
        proof {
            assert(self.entries@.drop_last() =~= mid);
            assert(self@ =~= pre.insert(k@, v));
            let s = self.entries@;
            Self::lemma_map_of_contains(mid, k@);
            assert forall|x: int, y: int| 0 <= x < y < s.len() implies s[x].0@ != s[y].0@ by {
                if y == s.len() - 1 {
                    assert(mid[x] == s[x]);
                } else {
                    assert(mid[x] == s[x] && mid[y] == s[y]);
                }
            }
        }
    }
}

} // verus!
