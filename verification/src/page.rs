//! A page: the entries listed for one path, the filter typed over them and the selection.

use vstd::prelude::*;
use crate::text::{lowercase, to_chars, to_lowercase};

verus! {

broadcast use vstd::seq_lib::group_seq_properties;

/// One listed entry. `key` identifies it within its page; `display_text` is the plain text
/// it is shown with (its `key` when it sets no display); `data` is what the plugin gave.
pub struct PageEntry<T> {
    pub key: String,
    pub display_text: String,
    pub data: T,
}

/// `s` contains `p` as a contiguous run.
pub open spec fn contains_sub(s: Seq<char>, p: Seq<char>) -> bool {
    exists|i: int| 0 <= i && i + p.len() <= s.len() && #[trigger] s.subrange(i, i + p.len()) == p
}

/// The case-insensitive filter test: the lowercased key or display text contains the
/// lowercased filter.
pub open spec fn entry_matches<T>(e: PageEntry<T>, filter: Seq<char>) -> bool {
    contains_sub(lowercase(e.key@), lowercase(filter)) || contains_sub(
        lowercase(e.display_text@),
        lowercase(filter),
    )
}

/// Positions, in order, of the entries of `list` that `filter` keeps.
pub open spec fn filter_indices<T>(list: Seq<PageEntry<T>>, filter: Seq<char>) -> Seq<usize>
    decreases list.len(),
{
    if list.len() == 0 {
        Seq::empty()
    } else {
        let rest = filter_indices(list.drop_last(), filter);
        if filter.len() == 0 || entry_matches(list.last(), filter) {
            rest.push((list.len() - 1) as usize)
        } else {
            rest
        }
    }
}

pub proof fn lemma_filter_indices_bound<T>(list: Seq<PageEntry<T>>, filter: Seq<char>)
    requires
        list.len() <= usize::MAX,
    ensures
        filter_indices(list, filter).len() <= list.len(),
        forall|i: int|
            0 <= i < filter_indices(list, filter).len() ==> #[trigger] filter_indices(list, filter)[i]
                < list.len(),
        forall|i: int, j: int|
            0 <= i < j < filter_indices(list, filter).len() ==> #[trigger] filter_indices(
                list,
                filter,
            )[i] < #[trigger] filter_indices(list, filter)[j],
    decreases list.len(),
{
    if list.len() > 0 {
        lemma_filter_indices_bound(list.drop_last(), filter);
        let rest = filter_indices(list.drop_last(), filter);
        let r = filter_indices(list, filter);
        assert forall|i: int, j: int| 0 <= i < j < r.len() implies #[trigger] r[i] < #[trigger] r[j] by {
            if r == rest {
            } else {
                assert(r == rest.push((list.len() - 1) as usize));
                if j < rest.len() {
                    assert(r[i] == rest[i] && r[j] == rest[j]);
                } else {
                    assert(r[i] == rest[i]);
                    assert(rest[i] < list.drop_last().len());
                }
            }
        }
    }
}

/// `str::contains` for a pattern string.
pub fn str_contains(s: &Vec<char>, p: &Vec<char>) -> (b: bool)
    ensures
        b == contains_sub(s@, p@),
{
    let n = s.len();
    let m = p.len();
    if m > n {
        return false;
    }
    let mut i: usize = 0;
    while i <= n - m
        invariant
            n == s@.len(),
            m == p@.len(),
            m <= n,
            i <= n - m + 1,
            forall|k: int| 0 <= k < i ==> #[trigger] s@.subrange(k, k + m) != p@,
        decreases n - m + 1 - i,
    {
        let mut j: usize = 0;
        let mut ok = true;
        while j < m && ok
            invariant
                n == s@.len(),
                m == p@.len(),
                i + m <= n,
                j <= m,
                ok ==> forall|t: int| 0 <= t < j ==> s@[i + t] == p@[t],
                !ok ==> s@.subrange(i as int, i + m) != p@,
            decreases m - j + (if ok { 1int } else { 0int }),
        {
            if s[i + j] != p[j] {
                ok = false;
                assert(s@.subrange(i as int, i + m)[j as int] != p@[j as int]);
            } else {
                j += 1;
            }
        }
        if ok {
            assert(s@.subrange(i as int, i + m) =~= p@);
            return true;
        }
        if i == n - m {
            assert forall|k: int| 0 <= k && k + p@.len() <= s@.len() implies #[trigger] s@.subrange(k, k + p@.len()) != p@ by {
                assert(k <= i);
            }
            return false;
        }
        i += 1;
    }
    false
}

/// The entries listed for one page.
pub struct Page<T> {
    /// All entries, in the order the plugin gave them.
    pub list: Vec<PageEntry<T>>,
    /// Positions in `list` of the entries shown under the current filter.
    pub filtered: Vec<usize>,
    /// Selected position within `filtered`.
    pub selected: Option<usize>,
    /// The filter typed on this page.
    pub list_filter: String,
}

impl<T> Page<T> {
    /// The shown entries are exactly those that the filter keeps, in list order.
    pub open spec fn wf(&self) -> bool {
        &&& self.filtered@ == filter_indices(self.list@, self.list_filter@)
        &&& self.selected matches Some(i) ==> i < self.filtered@.len()
    }

    /// A page with no entries and no filter.
    pub fn new() -> (p: Page<T>)
        ensures
            p.wf(),
            p.list@.len() == 0,
            p.selected is None,
            p.list_filter@.len() == 0,
    {
        Page { list: Vec::new(), filtered: Vec::new(), selected: None, list_filter: String::new() }
    }

    /// The entry shown at position `i` of the filtered list.
    pub open spec fn shown(&self, i: int) -> PageEntry<T> {
        self.list@[self.filtered@[i] as int]
    }

    /// The selected entry, if any.
    pub open spec fn spec_selected_entry(&self) -> Option<PageEntry<T>> {
        match self.selected {
            Some(i) => if i < self.filtered@.len() {
                Some(self.shown(i as int))
            } else {
                None
            },
            None => None,
        }
    }

    /// The selected entry, if any.
    pub fn selected_entry(&self) -> (r: Option<&PageEntry<T>>)
        requires
            self.wf(),
        ensures
            r matches Some(e) ==> self.spec_selected_entry() == Some(*e),
            r is None ==> self.spec_selected_entry() is None,
    {
        let _n = self.list.len();
        proof {
            lemma_filter_indices_bound(self.list@, self.list_filter@);
        }
        match self.selected {
            Some(i) => {
                if i < self.filtered.len() {
                    Some(&self.list[self.filtered[i]])
                } else {
                    None
                }
            },
            None => None,
        }
    }

    /// Number of shown entries.
    pub fn filtered_len(&self) -> (n: usize)
        ensures
            n == self.filtered@.len(),
    {
        self.filtered.len()
    }

    /// Recomputes the shown entries from the filter and selects the first one.
    pub fn apply_filter(&mut self)
        ensures
            final(self).wf(),
            final(self).list@ == old(self).list@,
            final(self).list_filter@ == old(self).list_filter@,
            final(self).selected == (if final(self).filtered@.len() == 0 {
                None::<usize>
            } else {
                Some(0usize)
            }),
    {
        let lowered = to_lowercase(self.list_filter.as_str());
        let f = to_chars(lowered.as_str());
        let empty_filter = self.list_filter.as_str().is_empty();
        let mut out: Vec<usize> = Vec::new();
        let mut i: usize = 0;
        while i < self.list.len()
            invariant
                i <= self.list@.len(),
                f@ == lowercase(self.list_filter@),
                empty_filter == (self.list_filter@.len() == 0),
                out@ == filter_indices(self.list@.take(i as int), self.list_filter@),
            decreases self.list@.len() - i,
        {
            let keep = if empty_filter {
                true
            } else {
                let e = &self.list[i];
                let k = to_lowercase(e.key.as_str());
                let kc = to_chars(k.as_str());
                if str_contains(&kc, &f) {
                    true
                } else {
                    let d = to_lowercase(e.display_text.as_str());
                    let dc = to_chars(d.as_str());
                    str_contains(&dc, &f)
                }
            };
            proof {
                let pre = self.list@.take(i as int);
                let post = self.list@.take(i + 1);
                assert(post.drop_last() =~= pre);
                assert(post.last() == self.list@[i as int]);
            }
            if keep {
                out.push(i);
            }
            i += 1;
        }
        proof {
            assert(self.list@.take(self.list@.len() as int) =~= self.list@);
        }
        self.filtered = out;
        if self.filtered.len() == 0 {
            self.selected = None;
        } else {
            self.selected = Some(0);
        }
    }
}

} // verus!
