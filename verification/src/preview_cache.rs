//! The cache of rendered image previews: at most `capacity` previews (and always room for
//! the newest), the least recently used one leaving first.

use vstd::prelude::*;
use crate::text::chars_eq;

verus! {

broadcast use vstd::seq_lib::group_seq_properties;

/// What a rendered preview depends on: the file (its path, length and modification time in
/// nanoseconds) and the size it was rendered for.
pub struct PreviewKey {
    pub path: String,
    pub len: u64,
    pub modified_ns: u128,
    pub width: u16,
    pub max_height: Option<u16>,
}

/// A key as plain values.
pub type KeyView = (Seq<char>, u64, u128, u16, Option<u16>);

impl PreviewKey {
    pub open spec fn view(&self) -> KeyView {
        (self.path@, self.len, self.modified_ns, self.width, self.max_height)
    }

    /// Whether two keys are the same.
    pub fn same(&self, other: &PreviewKey) -> (b: bool)
        ensures
            b == (self.view() == other.view()),
    {
        if self.len != other.len || self.modified_ns != other.modified_ns || self.width != other.width {
            return false;
        }
        let heights_equal = match (self.max_height, other.max_height) {
            (Some(a), Some(b)) => a == b,
            (None, None) => true,
            _ => false,
        };
        if !heights_equal {
            return false;
        }
        let a = crate::text::to_chars(self.path.as_str());
        let b = crate::text::to_chars(other.path.as_str());
        chars_eq(a.as_slice(), b.as_slice())
    }
}

/// The keys of the entries, in order.
pub open spec fn keys_of<V>(entries: Seq<(PreviewKey, V)>) -> Seq<KeyView> {
    entries.map_values(|e: (PreviewKey, V)| e.0.view())
}

/// Position of `k` among `keys`, if present.
pub open spec fn position_of(keys: Seq<KeyView>, k: KeyView) -> Option<int>
    decreases keys.len(),
{
    if keys.len() == 0 {
        None
    } else if keys.last() == k {
        Some(keys.len() - 1)
    } else {
        position_of(keys.drop_last(), k)
    }
}

/// The previews, least recently used first.
pub struct PreviewCache<V> {
    pub entries: Vec<(PreviewKey, V)>,
    pub capacity: usize,
}

impl<V> PreviewCache<V> {
    /// No key is held twice, and at most `capacity` entries are held, or one when the
    /// capacity is 0.
    pub open spec fn wf(&self) -> bool {
        &&& forall|i: int, j: int|
            0 <= i < j < self.entries@.len() ==> #[trigger] self.entries@[i].0.view()
                != #[trigger] self.entries@[j].0.view()
        &&& self.entries@.len() <= (if self.capacity == 0 {
            1
        } else {
            self.capacity as int
        })
    }

    /// The keys, least recently used first.
    pub open spec fn keys(&self) -> Seq<KeyView> {
        keys_of(self.entries@)
    }

    /// An empty cache for `capacity` previews.
    pub fn new(capacity: usize) -> (c: Self)
        ensures
            c.wf(),
            c.entries@.len() == 0,
            c.capacity == capacity,
    {
        PreviewCache { entries: Vec::new(), capacity }
    }

    /// Position of `key`, if held.
    fn find(&self, key: &PreviewKey) -> (r: Option<usize>)
        ensures
            r matches Some(i) ==> i < self.entries@.len() && self.entries@[i as int].0.view() == key.view(),
            r is None ==> forall|i: int| 0 <= i < self.entries@.len() ==> #[trigger] self.entries@[i].0.view() != key.view(),
    {
        let mut i: usize = 0;
        while i < self.entries.len()
            invariant
                i <= self.entries@.len(),
                forall|k: int| 0 <= k < i ==> #[trigger] self.entries@[k].0.view() != key.view(),
            decreases self.entries@.len() - i,
        {
            if self.entries[i].0.same(key) {
                return Some(i);
            }
            i += 1;
        }
        None
    }

    /// Whether `key` is held.
    pub fn contains(&self, key: &PreviewKey) -> (b: bool)
        ensures
            b == exists|i: int| 0 <= i < self.entries@.len() && #[trigger] self.entries@[i].0.view() == key.view(),
    {
        match self.find(key) {
            Some(i) => {
                assert(self.entries@[i as int].0.view() == key.view());
                true
            },
            None => false,
        }
    }

    /// The preview under `key`, without marking it used.
    pub fn peek(&self, key: &PreviewKey) -> (r: Option<&V>)
        ensures
            r matches Some(v) ==> exists|i: int|
                0 <= i < self.entries@.len() && #[trigger] self.entries@[i].0.view() == key.view() && self.entries@[i].1 == *v,
            r is None ==> forall|i: int| 0 <= i < self.entries@.len() ==> #[trigger] self.entries@[i].0.view() != key.view(),
    {
        match self.find(key) {
            Some(i) => Some(&self.entries[i].1),
            None => None,
        }
    }

    /// Marks the preview under `key` as the most recently used; tells whether it is held.
    pub fn touch(&mut self, key: &PreviewKey) -> (found: bool)
        requires
            old(self).wf(),
        ensures
            final(self).wf(),
            final(self).capacity == old(self).capacity,
            found == exists|i: int| 0 <= i < old(self).entries@.len() && #[trigger] old(self).entries@[i].0.view() == key.view(),
            !found ==> final(self).entries@ == old(self).entries@,
            found ==> exists|i: int|
                0 <= i < old(self).entries@.len() && #[trigger] old(self).entries@[i].0.view() == key.view()
                    && final(self).entries@ == old(self).entries@.remove(i).push(old(self).entries@[i]),
    {
        match self.find(key) {
            Some(i) => {
                let ghost before = self.entries@;
                let e = self.entries.remove(i);
                self.entries.push(e);
                proof {
                    assert(self.entries@ == before.remove(i as int).push(before[i as int]));
                    assert forall|a: int, b: int|
                        0 <= a < b < self.entries@.len() implies #[trigger] self.entries@[a].0.view()
                            != #[trigger] self.entries@[b].0.view() by {
                        let ia = if a < i { a } else { a + 1 };
                        let ib = if b == self.entries@.len() - 1 { i as int } else if b < i { b } else { b + 1 };
                        assert(self.entries@[a] == before[ia]);
                        assert(self.entries@[b] == before[ib]);
                        if ia < ib {
                            assert(before[ia].0.view() != before[ib].0.view());
                        } else {
                            assert(before[ib].0.view() != before[ia].0.view());
                        }
                    }
                }
                true
            },
            None => false,
        }
    }

    /// Stores `value` under `key` as the most recently used preview. A key already held
    /// gets the new value; otherwise, when the cache is full, the least recently used
    /// preview leaves first.
    pub fn insert(&mut self, key: PreviewKey, value: V)
        requires
            old(self).wf(),
        ensures
            final(self).wf(),
            final(self).capacity == old(self).capacity,
            final(self).entries@.len() > 0,
            final(self).entries@.last().0.view() == key.view(),
            final(self).entries@.last().1 == value,
            ({
                let olds = old(self).entries@;
                let held = exists|i: int| 0 <= i < olds.len() && #[trigger] olds[i].0.view() == key.view();
                let cap = old(self).capacity;
                &&& held ==> exists|i: int|
                    0 <= i < olds.len() && #[trigger] olds[i].0.view() == key.view() && final(self).entries@.drop_last()
                        == olds.remove(i)
                &&& !held && olds.len() >= cap && olds.len() > 0 ==> final(self).entries@.drop_last() == olds.skip(1)
                &&& !held && (olds.len() < cap || olds.len() == 0) ==> final(self).entries@.drop_last() == olds
            }),
    {
        let ghost olds = self.entries@;
        match self.find(&key) {
            Some(i) => {
                self.entries.remove(i);
                self.entries.push((key, value));
                proof {
                    assert(self.entries@.drop_last() =~= olds.remove(i as int));
                    self.lemma_distinct_after(olds, i as int);
                }
            },
            None => {
                if self.entries.len() >= self.capacity && self.entries.len() > 0 {
                    self.entries.remove(0);
                    proof {
                        assert(self.entries@ =~= olds.skip(1));
                    }
                }
                let ghost mid = self.entries@;
                self.entries.push((key, value));
                proof {
                    assert(self.entries@.drop_last() =~= mid);
                    assert forall|a: int, b: int|
                        0 <= a < b < self.entries@.len() implies #[trigger] self.entries@[a].0.view()
                            != #[trigger] self.entries@[b].0.view() by {
                        if b == self.entries@.len() - 1 {
                            if mid.len() < olds.len() {
                                assert(self.entries@[a] == olds[a + 1]);
                            } else {
                                assert(self.entries@[a] == olds[a]);
                            }
                        } else if mid.len() < olds.len() {
                            assert(self.entries@[a] == olds[a + 1]);
                            assert(self.entries@[b] == olds[b + 1]);
                        } else {
                            assert(self.entries@[a] == olds[a]);
                            assert(self.entries@[b] == olds[b]);
                        }
                    }
                }
            },
        }
    }

    /// The entries stay distinct when entry `i` of `olds` is replaced by a last entry with
    /// the same key.
    proof fn lemma_distinct_after(&self, olds: Seq<(PreviewKey, V)>, i: int)
        requires
            0 <= i < olds.len(),
            forall|a: int, b: int| 0 <= a < b < olds.len() ==> #[trigger] olds[a].0.view() != #[trigger] olds[b].0.view(),
            self.entries@.len() == olds.len(),
            self.entries@.drop_last() == olds.remove(i),
            self.entries@.last().0.view() == olds[i].0.view(),
        ensures
            forall|a: int, b: int|
                0 <= a < b < self.entries@.len() ==> #[trigger] self.entries@[a].0.view() != #[trigger] self.entries@[b].0.view(),
    {
        let s = self.entries@;
        assert forall|a: int, b: int| 0 <= a < b < s.len() implies #[trigger] s[a].0.view() != #[trigger] s[b].0.view() by {
            let ia = if a < i { a } else { a + 1 };
            assert(s[a] == s.drop_last()[a]);
            assert(s[a] == olds[ia]);
            if b == s.len() - 1 {
                if ia < i {
                    assert(olds[ia].0.view() != olds[i].0.view());
                } else {
                    assert(olds[i].0.view() != olds[ia].0.view());
                }
            } else {
                let ib = if b < i { b } else { b + 1 };
                assert(s[b] == s.drop_last()[b]);
                assert(s[b] == olds[ib]);
                assert(olds[ia].0.view() != olds[ib].0.view());
            }
        }
    }
}

/// After storing a preview, it is the one found under its key.
pub proof fn law_peek_after_insert<V>(before: PreviewCache<V>, after: PreviewCache<V>, key: PreviewKey, value: V)
    requires
        before.wf(),
        after.wf(),
        after.entries@.len() > 0,
        after.entries@.last().0.view() == key.view(),
        after.entries@.last().1 == value,
    ensures
        forall|i: int| 0 <= i < after.entries@.len() && #[trigger] after.entries@[i].0.view() == key.view() ==> after.entries@[i].1 == value,
{
    let n = after.entries@.len();
    assert forall|i: int| 0 <= i < n && #[trigger] after.entries@[i].0.view() == key.view() implies after.entries@[i].1 == value by {
        if i < n - 1 {
            assert(after.entries@[i].0.view() != after.entries@[n - 1].0.view());
        }
    }
}

} // verus!
