//! A map from text keys to values, with no key stored twice.

use vstd::prelude::*;
use crate::paths::str_is;

verus! {

broadcast use vstd::seq_lib::group_seq_properties;

/// Values stored by text key.
pub struct TextMap<V> {
    entries: Vec<(String, V)>,
}

impl<V> TextMap<V> {
    pub closed spec fn key_at(&self, i: int) -> Seq<char> {
        self.entries@[i].0@
    }

    /// No key is stored twice.
    pub closed spec fn wf(&self) -> bool {
        forall|i: int, j: int|
            0 <= i < j < self.entries@.len() ==> #[trigger] self.key_at(i) != #[trigger] self.key_at(j)
    }

    /// The stored values by key.
    pub closed spec fn view(&self) -> Map<Seq<char>, V> {
        Map::new(
            |k: Seq<char>| exists|i: int| 0 <= i < self.entries@.len() && #[trigger] self.key_at(i) == k,
            |k: Seq<char>| self.entries@[self.index_of(k)].1,
        )
    }

    closed spec fn index_of(&self, k: Seq<char>) -> int {
        choose|i: int| 0 <= i < self.entries@.len() && #[trigger] self.key_at(i) == k
    }

    proof fn lemma_view_at(&self, i: int)
        requires
            self.wf(),
            0 <= i < self.entries@.len(),
        ensures
            self.view().dom().contains(self.key_at(i)),
            self.view()[self.key_at(i)] == self.entries@[i].1,
    {
        let k = self.key_at(i);
        assert(exists|j: int| 0 <= j < self.entries@.len() && #[trigger] self.key_at(j) == k);
        let j = self.index_of(k);
        if j != i {
            if j < i {
                assert(self.key_at(j) != self.key_at(i));
            } else {
                assert(self.key_at(i) != self.key_at(j));
            }
        }
    }

    /// An empty cache.
    pub fn new() -> (c: TextMap<V>)
        ensures
            c.wf(),
            c.view() == Map::<Seq<char>, V>::empty(),
    {
        let c = TextMap { entries: Vec::new() };
        assert(c.view() =~= Map::<Seq<char>, V>::empty());
        c
    }

    fn find(&self, key: &str) -> (r: Option<usize>)
        ensures
            r matches Some(i) ==> i < self.entries@.len() && self.key_at(i as int) == key@,
            r is None ==> forall|i: int| 0 <= i < self.entries@.len() ==> self.key_at(i) != key@,
    {
        let mut i: usize = 0;
        while i < self.entries.len()
            invariant
                i <= self.entries@.len(),
                forall|j: int| 0 <= j < i ==> self.key_at(j) != key@,
            decreases self.entries@.len() - i,
        {
            if str_is(self.entries[i].0.as_str(), key) {
                return Some(i);
            }
            i += 1;
        }
        None
    }

    /// The value stored for `key`.
    pub fn get(&self, key: &str) -> (r: Option<&V>)
        requires
            self.wf(),
        ensures
            r matches Some(v) ==> self.view().dom().contains(key@) && self.view()[key@] == *v,
            r is None ==> !self.view().dom().contains(key@),
    {
        match self.find(key) {
            Some(i) => {
                proof {
                    self.lemma_view_at(i as int);
                }
                Some(&self.entries[i].1)
            },
            None => None,
        }
    }

    /// Whether a value is stored for `key`.
    pub fn contains(&self, key: &str) -> (b: bool)
        requires
            self.wf(),
        ensures
            b == self.view().dom().contains(key@),
    {
        self.find(key).is_some()
    }

    /// Removes and returns the value stored for `key`.
    pub fn remove(&mut self, key: &str) -> (r: Option<V>)
        requires
            old(self).wf(),
        ensures
            final(self).wf(),
            final(self).view() == old(self).view().remove(key@),
            r matches Some(v) ==> old(self).view().dom().contains(key@) && old(self).view()[key@] == v,
            r is None ==> !old(self).view().dom().contains(key@),
    {
        let ghost k = key@;
        match self.find(key) {
            Some(i) => {
                proof {
                    self.lemma_view_at(i as int);
                }
                let ghost old_self = *self;
                let (_, v) = self.entries.remove(i);
                proof {
                    assert forall|a: int, b: int| 0 <= a < b < self.entries@.len() implies #[trigger] self.key_at(a) != #[trigger] self.key_at(b) by {
                        let oa = if a < i { a } else { a + 1 };
                        let ob = if b < i { b } else { b + 1 };
                        assert(self.key_at(a) == old_self.key_at(oa));
                        assert(self.key_at(b) == old_self.key_at(ob));
                        assert(old_self.key_at(oa) != old_self.key_at(ob));
                    }
                    assert forall|q: Seq<char>| #![auto] self.view().dom().contains(q) == old_self.view().remove(k).dom().contains(q) by {
                        if self.view().dom().contains(q) {
                            let j = choose|j: int| 0 <= j < self.entries@.len() && #[trigger] self.key_at(j) == q;
                            let oj = if j < i { j } else { j + 1 };
                            assert(old_self.key_at(oj) == q);
                            assert(q != k) by {
                                if q == k {
                                    assert(old_self.key_at(oj) == old_self.key_at(i as int));
                                    if oj < i { assert(old_self.key_at(oj) != old_self.key_at(i as int)); }
                                    else { assert(old_self.key_at(i as int) != old_self.key_at(oj)); }
                                }
                            }
                        }
                        if old_self.view().remove(k).dom().contains(q) {
                            let oj = choose|j: int| 0 <= j < old_self.entries@.len() && #[trigger] old_self.key_at(j) == q;
                            assert(oj != i);
                            let j = if oj < i { oj } else { oj - 1 };
                            assert(self.key_at(j) == q);
                        }
                    }
                    assert forall|q: Seq<char>| #[trigger] self.view().dom().contains(q) implies self.view()[q] == old_self.view()[q] by {
                        let j = choose|j: int| 0 <= j < self.entries@.len() && #[trigger] self.key_at(j) == q;
                        self.lemma_view_at(j);
                        let oj = if j < i { j } else { j + 1 };
                        assert(old_self.key_at(oj) == q);
                        old_self.lemma_view_at(oj);
                    }
                    assert(self.view() =~= old_self.view().remove(k));
                }
                Some(v)
            },
            None => {
                proof {
                    assert(!self.view().dom().contains(k));
                    assert(self.view() =~= self.view().remove(k));
                }
                None
            },
        }
    }

    /// Stores `value` for `key`, replacing any value stored for it.
    pub fn insert(&mut self, key: String, value: V)
        requires
            old(self).wf(),
        ensures
            final(self).wf(),
            final(self).view() == old(self).view().insert(key@, value),
    {
        let ghost k = key@;
        let _ = self.remove(key.as_str());
        let ghost mid = *self;
        self.entries.push((key, value));
        proof {
            let n = mid.entries@.len() as int;
            assert(self.key_at(n) == k);
            assert forall|a: int| 0 <= a < n implies #[trigger] self.key_at(a) == mid.key_at(a) by {}
            assert forall|a: int, b: int| 0 <= a < b < self.entries@.len() implies #[trigger] self.key_at(a) != #[trigger] self.key_at(b) by {
                if b < n {
                    assert(mid.key_at(a) != mid.key_at(b));
                } else {
                    assert(!mid.view().dom().contains(k));
                    assert(mid.key_at(a) != k);
                }
            }
            self.lemma_view_at(n);
            assert forall|q: Seq<char>| #![auto] self.view().dom().contains(q) == mid.view().insert(k, value).dom().contains(q) by {
                if self.view().dom().contains(q) {
                    let j = choose|j: int| 0 <= j < self.entries@.len() && #[trigger] self.key_at(j) == q;
                    if j < n {
                        assert(mid.key_at(j) == q);
                    }
                }
                if mid.view().dom().contains(q) {
                    let j = choose|j: int| 0 <= j < mid.entries@.len() && #[trigger] mid.key_at(j) == q;
                    assert(self.key_at(j) == q);
                }
            }
            assert forall|q: Seq<char>| #[trigger] self.view().dom().contains(q) implies self.view()[q] == mid.view().insert(k, value)[q] by {
                let j = choose|j: int| 0 <= j < self.entries@.len() && #[trigger] self.key_at(j) == q;
                self.lemma_view_at(j);
                if j < n {
                    assert(mid.key_at(j) == q);
                    mid.lemma_view_at(j);
                }
            }
            assert(self.view() =~= mid.view().insert(k, value));
        }
    }

    /// Whether nothing is stored.
    pub fn is_empty(&self) -> (b: bool)
        requires
            self.wf(),
        ensures
            b == (self.view() == Map::<Seq<char>, V>::empty()),
    {
        if self.entries.len() == 0 {
            assert(self.view() =~= Map::<Seq<char>, V>::empty());
            true
        } else {
            proof {
                self.lemma_view_at(0);
                assert(!Map::<Seq<char>, V>::empty().dom().contains(self.key_at(0)));
            }
            false
        }
    }

    /// The stored pairs, in no particular order.
    pub fn pairs(&self) -> (r: &[(String, V)])
        requires
            self.wf(),
        ensures
            forall|i: int|
                0 <= i < r@.len() ==> self.view().dom().contains(#[trigger] r@[i].0@) && self.view()[r@[i].0@]
                    == r@[i].1,
            forall|k: Seq<char>| #[trigger] self.view().dom().contains(k) ==> exists|i: int|
                0 <= i < r@.len() && #[trigger] r@[i].0@ == k,
    {
        proof {
            assert forall|i: int| 0 <= i < self.entries@.len() implies self.view().dom().contains(
                #[trigger] self.entries@[i].0@,
            ) && self.view()[self.entries@[i].0@] == self.entries@[i].1 by {
                self.lemma_view_at(i);
            }
            assert forall|k: Seq<char>| #[trigger] self.view().dom().contains(k) implies exists|i: int|
                0 <= i < self.entries@.len() && #[trigger] self.entries@[i].0@ == k by {
                let j = choose|j: int| 0 <= j < self.entries@.len() && #[trigger] self.key_at(j) == k;
                assert(self.entries@[j].0@ == k);
            }
        }
        self.entries.as_slice()
    }

    /// The stored pairs, taken out, in no particular order.
    pub fn into_pairs(self) -> (r: Vec<(String, V)>)
        requires
            self.wf(),
        ensures
            forall|i: int, j: int| 0 <= i < j < r@.len() ==> (#[trigger] r@[i]).0@ != (#[trigger] r@[j]).0@,
            forall|k: Seq<char>| #[trigger] self.view().dom().contains(k) <==> exists|i: int|
                0 <= i < r@.len() && (#[trigger] r@[i]).0@ == k,
            forall|i: int| 0 <= i < r@.len() ==> self.view()[(#[trigger] r@[i]).0@] == r@[i].1,
    {
        proof {
            assert forall|i: int, j: int| 0 <= i < j < self.entries@.len() implies (#[trigger] self.entries@[i]).0@
                != (#[trigger] self.entries@[j]).0@ by {
                assert(self.key_at(i) != self.key_at(j));
            }
            assert forall|i: int| 0 <= i < self.entries@.len() implies self.view()[(#[trigger] self.entries@[i]).0@]
                == self.entries@[i].1 by {
                self.lemma_view_at(i);
            }
            assert forall|k: Seq<char>| #[trigger] self.view().dom().contains(k) <==> exists|i: int|
                0 <= i < self.entries@.len() && (#[trigger] self.entries@[i]).0@ == k by {
                if self.view().dom().contains(k) {
                    let j = choose|j: int| 0 <= j < self.entries@.len() && #[trigger] self.key_at(j) == k;
                    assert(self.entries@[j].0@ == k);
                }
                if exists|i: int| 0 <= i < self.entries@.len() && (#[trigger] self.entries@[i]).0@ == k {
                    let i = choose|i: int| 0 <= i < self.entries@.len() && (#[trigger] self.entries@[i]).0@ == k;
                    self.lemma_view_at(i);
                }
            }
        }
        self.entries
    }

    /// Drops every stored value.
    pub fn clear(&mut self)
        ensures
            final(self).wf(),
            final(self).view() == Map::<Seq<char>, V>::empty(),
    {
        self.entries.clear();
        assert(self.view() =~= Map::<Seq<char>, V>::empty());
    }
}

} // verus!
