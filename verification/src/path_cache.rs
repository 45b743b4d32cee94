//! A map from page paths to cached values (pages or previews).

use vstd::prelude::*;
use crate::keymap::{strings_eq, strings_view};

verus! {

broadcast use vstd::seq_lib::group_seq_properties;

/// Values stored by page path.
pub struct PathCache<V> {
    entries: Vec<(Vec<String>, V)>,
}

/// A path as a sequence of segments.
pub type PathView = Seq<Seq<char>>;

impl<V> PathCache<V> {
    pub closed spec fn key_at(&self, i: int) -> PathView {
        strings_view(self.entries@[i].0@)
    }

    /// No path is stored twice.
    pub closed spec fn wf(&self) -> bool {
        forall|i: int, j: int|
            0 <= i < j < self.entries@.len() ==> #[trigger] self.key_at(i) != #[trigger] self.key_at(j)
    }

    /// The cached values by path.
    pub closed spec fn view(&self) -> Map<PathView, V> {
        Map::new(
            |k: PathView| exists|i: int| 0 <= i < self.entries@.len() && #[trigger] self.key_at(i) == k,
            |k: PathView| self.entries@[self.index_of(k)].1,
        )
    }

    closed spec fn index_of(&self, k: PathView) -> int {
        choose|i: int| 0 <= i < self.entries@.len() && #[trigger] self.key_at(i) == k
    }

    proof fn lemma_view_at(&self, i: int)
        requires
            self.wf(),
            0 <= i < self.entries@.len(),
        ensures
            self.view().dom().contains(self.key_at(i)),
            self.view()[self.key_at(i)] == self.entries@[i].1,
    {
        let k = self.key_at(i);
        assert(exists|j: int| 0 <= j < self.entries@.len() && #[trigger] self.key_at(j) == k);
        let j = self.index_of(k);
        if j != i {
            if j < i {
                assert(self.key_at(j) != self.key_at(i));
            } else {
                assert(self.key_at(i) != self.key_at(j));
            }
        }
    }

    /// An empty cache.
    pub fn new() -> (c: PathCache<V>)
        ensures
            c.wf(),
            c.view() == Map::<PathView, V>::empty(),
    {
        let c = PathCache { entries: Vec::new() };
        assert(c.view() =~= Map::<PathView, V>::empty());
        c
    }

    fn find(&self, path: &[String]) -> (r: Option<usize>)
        ensures
            r matches Some(i) ==> i < self.entries@.len() && self.key_at(i as int) == strings_view(path@),
            r is None ==> forall|i: int| 0 <= i < self.entries@.len() ==> self.key_at(i) != strings_view(path@),
    {
        let mut i: usize = 0;
        while i < self.entries.len()
            invariant
                i <= self.entries@.len(),
                forall|j: int| 0 <= j < i ==> self.key_at(j) != strings_view(path@),
            decreases self.entries@.len() - i,
        {
            if strings_eq(&self.entries[i].0, path) {
                return Some(i);
            }
            i += 1;
        }
        None
    }

    /// The value cached for `path`.
    pub fn get(&self, path: &[String]) -> (r: Option<&V>)
        requires
            self.wf(),
        ensures
            r matches Some(v) ==> self.view().dom().contains(strings_view(path@)) && self.view()[strings_view(path@)] == *v,
            r is None ==> !self.view().dom().contains(strings_view(path@)),
    {
        match self.find(path) {
            Some(i) => {
                proof {
                    self.lemma_view_at(i as int);
                }
                Some(&self.entries[i].1)
            },
            None => None,
        }
    }

    /// Whether a value is cached for `path`.
    pub fn contains(&self, path: &[String]) -> (b: bool)
        requires
            self.wf(),
        ensures
            b == self.view().dom().contains(strings_view(path@)),
    {
        self.find(path).is_some()
    }

    /// Removes and returns the value cached for `path`.
    pub fn remove(&mut self, path: &[String]) -> (r: Option<V>)
        requires
            old(self).wf(),
        ensures
            final(self).wf(),
            final(self).view() == old(self).view().remove(strings_view(path@)),
            r matches Some(v) ==> old(self).view().dom().contains(strings_view(path@)) && old(self).view()[strings_view(path@)] == v,
            r is None ==> !old(self).view().dom().contains(strings_view(path@)),
    {
        let ghost k = strings_view(path@);
        match self.find(path) {
            Some(i) => {
                proof {
                    self.lemma_view_at(i as int);
                }
                let ghost old_self = *self;
                let (_, v) = self.entries.remove(i);
                proof {
                    assert forall|a: int, b: int| 0 <= a < b < self.entries@.len() implies #[trigger] self.key_at(a) != #[trigger] self.key_at(b) by {
                        let oa = if a < i { a } else { a + 1 };
                        let ob = if b < i { b } else { b + 1 };
                        assert(self.key_at(a) == old_self.key_at(oa));
                        assert(self.key_at(b) == old_self.key_at(ob));
                        assert(old_self.key_at(oa) != old_self.key_at(ob));
                    }
                    assert forall|q: PathView| #![auto] self.view().dom().contains(q) == old_self.view().remove(k).dom().contains(q) by {
                        if self.view().dom().contains(q) {
                            let j = choose|j: int| 0 <= j < self.entries@.len() && #[trigger] self.key_at(j) == q;
                            let oj = if j < i { j } else { j + 1 };
                            assert(old_self.key_at(oj) == q);
                            assert(q != k) by {
                                if q == k {
                                    assert(old_self.key_at(oj) == old_self.key_at(i as int));
                                    if oj < i { assert(old_self.key_at(oj) != old_self.key_at(i as int)); }
                                    else { assert(old_self.key_at(i as int) != old_self.key_at(oj)); }
                                }
                            }
                        }
                        if old_self.view().remove(k).dom().contains(q) {
                            let oj = choose|j: int| 0 <= j < old_self.entries@.len() && #[trigger] old_self.key_at(j) == q;
                            assert(oj != i);
                            let j = if oj < i { oj } else { oj - 1 };
                            assert(self.key_at(j) == q);
                        }
                    }
                    assert forall|q: PathView| #[trigger] self.view().dom().contains(q) implies self.view()[q] == old_self.view()[q] by {
                        let j = choose|j: int| 0 <= j < self.entries@.len() && #[trigger] self.key_at(j) == q;
                        self.lemma_view_at(j);
                        let oj = if j < i { j } else { j + 1 };
                        assert(old_self.key_at(oj) == q);
                        old_self.lemma_view_at(oj);
                    }
                    assert(self.view() =~= old_self.view().remove(k));
                }
                Some(v)
            },
            None => {
                proof {
                    assert(!self.view().dom().contains(k));
                    assert(self.view() =~= self.view().remove(k));
                }
                None
            },
        }
    }

    /// Stores `value` for `path`, replacing any value cached for it.
    pub fn insert(&mut self, path: Vec<String>, value: V)
        requires
            old(self).wf(),
        ensures
            final(self).wf(),
            final(self).view() == old(self).view().insert(strings_view(path@), value),
    {
        let ghost k = strings_view(path@);
        let _ = self.remove(&path);
        let ghost mid = *self;
        self.entries.push((path, value));
        proof {
            let n = mid.entries@.len() as int;
            assert(self.key_at(n) == k);
            assert forall|a: int| 0 <= a < n implies #[trigger] self.key_at(a) == mid.key_at(a) by {}
            assert forall|a: int, b: int| 0 <= a < b < self.entries@.len() implies #[trigger] self.key_at(a) != #[trigger] self.key_at(b) by {
                if b < n {
                    assert(mid.key_at(a) != mid.key_at(b));
                } else {
                    assert(!mid.view().dom().contains(k));
                    assert(mid.key_at(a) != k);
                }
            }
            self.lemma_view_at(n);
            assert forall|q: PathView| #![auto] self.view().dom().contains(q) == mid.view().insert(k, value).dom().contains(q) by {
                if self.view().dom().contains(q) {
                    let j = choose|j: int| 0 <= j < self.entries@.len() && #[trigger] self.key_at(j) == q;
                    if j < n {
                        assert(mid.key_at(j) == q);
                    }
                }
                if mid.view().dom().contains(q) {
                    let j = choose|j: int| 0 <= j < mid.entries@.len() && #[trigger] mid.key_at(j) == q;
                    assert(self.key_at(j) == q);
                }
            }
            assert forall|q: PathView| #[trigger] self.view().dom().contains(q) implies self.view()[q] == mid.view().insert(k, value)[q] by {
                let j = choose|j: int| 0 <= j < self.entries@.len() && #[trigger] self.key_at(j) == q;
                self.lemma_view_at(j);
                if j < n {
                    assert(mid.key_at(j) == q);
                    mid.lemma_view_at(j);
                }
            }
            assert(self.view() =~= mid.view().insert(k, value));
        }
    }

    /// Drops every cached value.
    pub fn clear(&mut self)
        ensures
            final(self).wf(),
            final(self).view() == Map::<PathView, V>::empty(),
    {
        self.entries.clear();
        assert(self.view() =~= Map::<PathView, V>::empty());
    }
}

} // verus!
