//! Key bindings and the path patterns that scope them to pages (`*` matches one path
//! segment, `**` any number of segments).

use vstd::prelude::*;
use crate::keys::KeySequence;
use crate::priority::KeymapPathPriority;

verus! {

broadcast use vstd::seq_lib::group_seq_properties;

/// Which interaction the application is in.
#[derive(Debug, Clone, Copy, PartialEq, Eq, Structural)]
pub enum Mode {
    /// Browsing the entry list.
    Main,
    /// An input dialog has the keyboard.
    Input,
}

/// How one pattern segment matches path segments.
#[derive(Debug, Clone, Copy, PartialEq, Eq, Structural)]
pub enum SegmentKind {
    Exact,
    Star,
    GlobStar,
}

pub open spec fn seg_kind(s: Seq<char>) -> SegmentKind {
    if s == seq!['*'] {
        SegmentKind::Star
    } else if s == seq!['*', '*'] {
        SegmentKind::GlobStar
    } else {
        SegmentKind::Exact
    }
}

/// Number of segments of `pat` of the given kind.
pub open spec fn count_kind(pat: Seq<Seq<char>>, k: SegmentKind) -> nat
    decreases pat.len(),
{
    if pat.len() == 0 {
        0
    } else {
        count_kind(pat.drop_last(), k) + if seg_kind(pat.last()) == k {
            1nat
        } else {
            0nat
        }
    }
}

pub open spec fn priority_of(pat: Seq<Seq<char>>) -> KeymapPathPriority {
    KeymapPathPriority {
        globstar_count: count_kind(pat, SegmentKind::GlobStar) as usize,
        star_count: count_kind(pat, SegmentKind::Star) as usize,
        exact_count: count_kind(pat, SegmentKind::Exact) as usize,
        len: pat.len() as usize,
    }
}

/// The pattern segments from `pi` on match the path segments from `qi` on. A `**`
/// segment matches here when the rest of the pattern matches here, or when it can
/// absorb one more path segment.
pub open spec fn matches_from(pat: Seq<Seq<char>>, pi: int, path: Seq<Seq<char>>, qi: int) -> bool
    decreases pat.len() - pi, path.len() - qi,
{
    if pi >= pat.len() || pi < 0 {
        qi == path.len()
    } else if seg_kind(pat[pi]) == SegmentKind::Star {
        0 <= qi < path.len() && matches_from(pat, pi + 1, path, qi + 1)
    } else if seg_kind(pat[pi]) == SegmentKind::GlobStar {
        matches_from(pat, pi + 1, path, qi) || (0 <= qi < path.len() && matches_from(
            pat,
            pi,
            path,
            qi + 1,
        ))
    } else {
        0 <= qi < path.len() && path[qi] == pat[pi] && matches_from(pat, pi + 1, path, qi + 1)
    }
}

/// The whole pattern matches the whole path.
pub open spec fn pattern_matches(pat: Seq<Seq<char>>, path: Seq<Seq<char>>) -> bool {
    matches_from(pat, 0, path, 0)
}

/// The character sequences of a list of strings.
pub open spec fn strings_view(v: Seq<String>) -> Seq<Seq<char>> {
    v.map_values(|s: String| s@)
}

pub proof fn lemma_count_bound(pat: Seq<Seq<char>>, k: SegmentKind)
    ensures
        count_kind(pat, k) <= pat.len(),
    decreases pat.len(),
{
    if pat.len() > 0 {
        lemma_count_bound(pat.drop_last(), k);
    }
}

/// A path pattern such as `["mail", "*"]` or `["docker", "**"]`.
#[derive(Debug)]
pub struct KeymapPathPattern {
    raw: Vec<String>,
    segments: Vec<SegmentKind>,
    priority: KeymapPathPriority,
}

impl View for KeymapPathPattern {
    type V = Seq<Seq<char>>;

    closed spec fn view(&self) -> Seq<Seq<char>> {
        strings_view(self.raw@)
    }
}

impl KeymapPathPattern {
    #[verifier::type_invariant]
    closed spec fn inv(self) -> bool {
        &&& self.segments@.len() == self.raw@.len()
        &&& forall|i: int|
            0 <= i < self.raw@.len() ==> #[trigger] self.segments@[i] == seg_kind(self.raw@[i]@)
        &&& self.priority == priority_of(strings_view(self.raw@))
    }

    /// A copy of the pattern.
    pub fn duplicate(&self) -> (p: KeymapPathPattern)
        ensures
            p@ == self@,
    {
        proof {
            use_type_invariant(self);
        }
        let raw = self.raw.clone();
        proof {
            assert(strings_view(raw@) =~= strings_view(self.raw@));
        }
        let segments = self.segments.clone();
        assert(segments@ =~= self.segments@);
        KeymapPathPattern { raw, segments, priority: self.priority }
    }

    /// Builds a pattern from its segments.
    pub fn new(raw: Vec<String>) -> (p: KeymapPathPattern)
        ensures
            p@ == strings_view(raw@),
    {
        Self::from_segments(raw)
    }

    /// Builds a pattern from `"/a/*/b"` notation; empty segments are dropped.
    pub fn from_path_str(raw: &str) -> (p: KeymapPathPattern)
        ensures
            p@ == split_segments(raw@),
    {
        let segs = split_path(raw);
        Self::from_segments(segs)
    }

    fn from_segments(raw: Vec<String>) -> (p: KeymapPathPattern)
        ensures
            p@ == strings_view(raw@),
    {
        let mut segments: Vec<SegmentKind> = Vec::new();
        let mut exact_count: usize = 0;
        let mut star_count: usize = 0;
        let mut globstar_count: usize = 0;
        let mut i: usize = 0;
        while i < raw.len()
            invariant
                i <= raw@.len(),
                segments@.len() == i,
                forall|j: int| 0 <= j < i ==> #[trigger] segments@[j] == seg_kind(raw@[j]@),
                exact_count == count_kind(strings_view(raw@.take(i as int)), SegmentKind::Exact),
                star_count == count_kind(strings_view(raw@.take(i as int)), SegmentKind::Star),
                globstar_count == count_kind(
                    strings_view(raw@.take(i as int)),
                    SegmentKind::GlobStar,
                ),
            decreases raw@.len() - i,
        {
            let k = segment_kind(&raw[i]);
            proof {
                let pre = strings_view(raw@.take(i as int));
                let post = strings_view(raw@.take(i + 1));
                assert(post.drop_last() =~= pre);
                assert(post.last() == raw@[i as int]@);
                lemma_count_bound(pre, SegmentKind::Exact);
                lemma_count_bound(pre, SegmentKind::Star);
                lemma_count_bound(pre, SegmentKind::GlobStar);
            }
            match k {
                SegmentKind::Exact => {
                    exact_count += 1;
                },
                SegmentKind::Star => {
                    star_count += 1;
                },
                SegmentKind::GlobStar => {
                    globstar_count += 1;
                },
            }
            segments.push(k);
            i += 1;
        }
        proof {
            assert(raw@.take(raw@.len() as int) =~= raw@);
        }
        let len = raw.len();
        KeymapPathPattern {
            priority: KeymapPathPriority { globstar_count, star_count, exact_count, len },
            raw,
            segments,
        }
    }

    /// The segments the pattern was built from.
    pub fn raw(&self) -> (r: &Vec<String>)
        ensures
            strings_view(r@) == self@,
    {
        &self.raw
    }

    /// How specific the pattern is.
    pub fn priority(&self) -> (p: KeymapPathPriority)
        ensures
            p == priority_of(self@),
    {
        proof {
            use_type_invariant(self);
        }
        self.priority
    }

    /// The pattern matches the whole of `path`.
    pub fn matches(&self, path: &[String]) -> (b: bool)
        ensures
            b == pattern_matches(self@, strings_view(path@)),
    {
        self.matches_from(0, 0, path)
    }

    fn matches_from(&self, pattern_idx: usize, path_idx: usize, path: &[String]) -> (b: bool)
        requires
            pattern_idx <= self@.len(),
            path_idx <= path@.len(),
        ensures
            b == matches_from(self@, pattern_idx as int, strings_view(path@), path_idx as int),
        decreases self@.len() - pattern_idx,
    {
        proof {
            use_type_invariant(self);
        }
        let ghost pv = strings_view(path@);
        let ghost pat = self@;
        assert(pat.len() == self.raw@.len());
        let seglen = self.segments.len();
        if pattern_idx == seglen {
            return path_idx == path.len();
        }
        proof {
            assert(pat[pattern_idx as int] == self.raw@[pattern_idx as int]@);
            assert(self.segments@[pattern_idx as int] == seg_kind(pat[pattern_idx as int]));
        }
        match self.segments[pattern_idx] {
            SegmentKind::Exact => {
                if path_idx < path.len() && path[path_idx] == self.raw[pattern_idx] {
                    assert(pv[path_idx as int] == path@[path_idx as int]@);
                    self.matches_from(pattern_idx + 1, path_idx + 1, path)
                } else {
                    proof {
                        if path_idx < path@.len() {
                            assert(pv[path_idx as int] == path@[path_idx as int]@);
                        }
                    }
                    false
                }
            },
            SegmentKind::Star => {
                path_idx < path.len() && self.matches_from(pattern_idx + 1, path_idx + 1, path)
            },
            SegmentKind::GlobStar => {
                let n = path.len();
                let mut idx = path_idx;
                loop
                    invariant
                        path_idx <= idx <= n,
                        n == path@.len(),
                        pattern_idx < seglen,
                        seglen == pat.len(),
                        pat == self@,
                        pv == strings_view(path@),
                        pv.len() == n,
                        seg_kind(pat[pattern_idx as int]) == SegmentKind::GlobStar,
                        matches_from(pat, pattern_idx as int, pv, path_idx as int)
                            == matches_from(pat, pattern_idx as int, pv, idx as int),
                    decreases n - idx,
                {
                    if self.matches_from(pattern_idx + 1, idx, path) {
                        return true;
                    }
                    if idx == n {
                        return false;
                    }
                    idx += 1;
                }
            },
        }
    }

    /// Both patterns have the same segments.
    pub fn same_pattern(&self, other: &KeymapPathPattern) -> (b: bool)
        ensures
            b == (self@ == other@),
    {
        strings_eq(&self.raw, &other.raw)
    }
}

/// The segment kind of one pattern segment.
fn segment_kind(s: &String) -> (k: SegmentKind)
    ensures
        k == seg_kind(s@),
{
    let n = s.as_str().unicode_len();
    if n == 1 && s.as_str().get_char(0) == '*' {
        assert(s@ =~= seq!['*']);
        SegmentKind::Star
    } else if n == 2 && s.as_str().get_char(0) == '*' && s.as_str().get_char(1) == '*' {
        assert(s@ =~= seq!['*', '*']);
        SegmentKind::GlobStar
    } else {
        SegmentKind::Exact
    }
}

/// Element-wise equality of two string lists.
pub fn strings_eq(a: &[String], b: &[String]) -> (r: bool)
    ensures
        r == (strings_view(a@) == strings_view(b@)),
{
    if a.len() != b.len() {
        assert(strings_view(a@).len() != strings_view(b@).len());
        return false;
    }
    let mut i: usize = 0;
    while i < a.len()
        invariant
            a@.len() == b@.len(),
            i <= a@.len(),
            forall|j: int| 0 <= j < i ==> a@[j]@ == b@[j]@,
        decreases a@.len() - i,
    {
        if a[i] != b[i] {
            assert(strings_view(a@)[i as int] != strings_view(b@)[i as int]);
            return false;
        }
        i += 1;
    }
    assert(strings_view(a@) =~= strings_view(b@));
    true
}

/// A copy of a path.
pub fn clone_path(p: &[String]) -> (r: Vec<String>)
    ensures
        strings_view(r@) == strings_view(p@),
{
    let mut r: Vec<String> = Vec::new();
    let mut i: usize = 0;
    while i < p.len()
        invariant
            i <= p@.len(),
            strings_view(r@) == strings_view(p@.take(i as int)),
        decreases p@.len() - i,
    {
        r.push(p[i].clone());
        assert(strings_view(p@.take(i + 1)) =~= strings_view(p@.take(i as int)).push(p@[i as int]@));
        assert(strings_view(r@) =~= strings_view(p@.take(i as int)).push(p@[i as int]@));
        i += 1;
    }
    assert(p@.take(p@.len() as int) =~= p@);
    r
}

/// Non-empty `/`-separated segments of `s`.
pub open spec fn split_segments(s: Seq<char>) -> Seq<Seq<char>>
    decreases s.len(),
{
    split_acc(s, 0, 0)
}

/// Segments of `s[start..]`, where the current segment began at `seg_start`.
pub open spec fn split_acc(s: Seq<char>, seg_start: int, i: int) -> Seq<Seq<char>>
    decreases s.len() - i,
{
    if i >= s.len() || i < 0 || seg_start < 0 || seg_start > i {
        if 0 <= seg_start < s.len() {
            seq![s.subrange(seg_start, s.len() as int)]
        } else {
            Seq::empty()
        }
    } else if s[i] == '/' {
        if seg_start < i {
            seq![s.subrange(seg_start, i)] + split_acc(s, i + 1, i + 1)
        } else {
            split_acc(s, i + 1, i + 1)
        }
    } else {
        split_acc(s, seg_start, i + 1)
    }
}

/// `raw.split('/').filter(|s| !s.is_empty())`.
pub fn split_path(raw: &str) -> (r: Vec<String>)
    ensures
        strings_view(r@) == split_segments(raw@),
{
    let chars = crate::text::to_chars(raw);
    let n = chars.len();
    let mut out: Vec<String> = Vec::new();
    let mut seg_start: usize = 0;
    let mut i: usize = 0;
    while i < n
        invariant
            n == chars@.len(),
            chars@ == raw@,
            seg_start <= i <= n,
            split_segments(raw@) == strings_view(out@) + split_acc(raw@, seg_start as int, i as int),
        decreases n - i,
    {
        if chars[i] == '/' {
            if seg_start < i {
                let seg = crate::text::sub_chars(&chars, seg_start, i);
                let s = crate::text::from_chars(seg.as_slice());
                proof {
                    assert(strings_view(out@.push(s)) =~= strings_view(out@).push(s@));
                    assert(strings_view(out@).push(s@) + split_acc(raw@, i + 1, i + 1) =~= strings_view(out@) + (seq![s@] + split_acc(raw@, i + 1, i + 1)));
                }
                out.push(s);
            }
            seg_start = i + 1;
        }
        i += 1;
    }
    if seg_start < n {
        let seg = crate::text::sub_chars(&chars, seg_start, n);
        let s = crate::text::from_chars(seg.as_slice());
        proof {
            assert(strings_view(out@.push(s)) =~= strings_view(out@).push(s@));
            assert(strings_view(out@) + seq![s@] =~= strings_view(out@).push(s@));
        }
        out.push(s);
    } else {
        assert(strings_view(out@) + Seq::<Seq<char>>::empty() =~= strings_view(out@));
    }
    out
}

/// A key binding: in `mode`, typing `key_sequence` runs `callback`; with a `path`, the
/// binding applies only on pages whose path the pattern matches.
pub struct Keymap<F> {
    pub mode: Mode,
    pub raw_key: String,
    pub key_sequence: KeySequence,
    pub callback: F,
    pub desc: Option<String>,
    pub path: Option<KeymapPathPattern>,
}

} // verus!

