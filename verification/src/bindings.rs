//! Resolving key presses to bindings. A binding of the hovered entry wins over a binding of
//! the page (the most specific path pattern first), which wins over a global binding; a key
//! that could still complete a longer binding waits for the next key.

use vstd::prelude::*;
use crate::keymap::{pattern_matches, priority_of, Keymap, KeymapPathPattern, Mode};
use crate::keys::{spec_all_match, spec_prefix_match, KeyEvent, KeySequence};
use crate::path_cache::PathView;
use crate::priority::KeymapPathPriority;
use crate::state::State;
use crate::text::to_chars;

verus! {

broadcast use vstd::seq_lib::group_seq_properties;

/// A binding that a page entry carries: typing `key_sequence` (written `key`) on the entry
/// runs `callback`.
pub struct EntryKeymap<F> {
    pub key: String,
    pub key_sequence: KeySequence,
    pub callback: F,
    pub desc: Option<String>,
}

/// The binding a key press resolved to: one of the hovered entry's, or one of the state's
/// `keymap_config`, by position.
#[derive(Debug, Clone, Copy, PartialEq, Eq, Structural)]
pub enum KeyHit {
    Entry(usize),
    Config(usize),
}

/// The pattern of an optional path, as segments.
pub open spec fn pattern_of(p: Option<KeymapPathPattern>) -> Option<PathView> {
    match p {
        Some(x) => Some(x@),
        None => None,
    }
}

/// Two bindings are for the same mode, keys and path pattern.
pub open spec fn same_binding<F>(a: Keymap<F>, b: Keymap<F>) -> bool {
    &&& a.mode == b.mode
    &&& a.key_sequence.0@ == b.key_sequence.0@
    &&& pattern_of(a.path) == pattern_of(b.path)
}

/// The bindings of `cfg` other than those for the same mode, keys and path as `k`.
pub open spec fn drop_same<F>(cfg: Seq<Keymap<F>>, k: Keymap<F>) -> Seq<Keymap<F>>
    decreases cfg.len(),
{
    if cfg.len() == 0 {
        cfg
    } else {
        let rest = drop_same(cfg.drop_last(), k);
        if same_binding(cfg.last(), k) {
            rest
        } else {
            rest.push(cfg.last())
        }
    }
}

pub proof fn lemma_drop_same<F>(cfg: Seq<Keymap<F>>, k: Keymap<F>)
    ensures
        forall|i: int| 0 <= i < drop_same(cfg, k).len() ==> !same_binding(#[trigger] drop_same(cfg, k)[i], k),
    decreases cfg.len(),
{
    if cfg.len() > 0 {
        lemma_drop_same(cfg.drop_last(), k);
        let rest = drop_same(cfg.drop_last(), k);
        let r = drop_same(cfg, k);
        assert forall|i: int| 0 <= i < r.len() implies !same_binding(#[trigger] r[i], k) by {
            if i < rest.len() {
                assert(r[i] == rest[i]);
            }
        }
    }
}

/// Positions, in order, of the entry bindings that `buf` could still complete.
pub open spec fn entry_hits<F>(ek: Seq<EntryKeymap<F>>, buf: Seq<KeyEvent>) -> Seq<usize>
    decreases ek.len(),
{
    if ek.len() == 0 {
        Seq::empty()
    } else {
        let rest = entry_hits(ek.drop_last(), buf);
        if spec_prefix_match(ek.last().key_sequence.0@, buf) {
            rest.push((ek.len() - 1) as usize)
        } else {
            rest
        }
    }
}

/// A global binding (one without a path) of `mode` that `buf` could still complete.
pub open spec fn global_hit<F>(k: Keymap<F>, mode: Mode, buf: Seq<KeyEvent>) -> bool {
    k.mode == mode && k.path is None && spec_prefix_match(k.key_sequence.0@, buf)
}

/// Positions, in order, of the global bindings of `cfg` that `buf` could still complete.
pub open spec fn global_hits<F>(cfg: Seq<Keymap<F>>, mode: Mode, buf: Seq<KeyEvent>) -> Seq<usize>
    decreases cfg.len(),
{
    if cfg.len() == 0 {
        Seq::empty()
    } else {
        let rest = global_hits(cfg.drop_last(), mode, buf);
        if global_hit(cfg.last(), mode, buf) {
            rest.push((cfg.len() - 1) as usize)
        } else {
            rest
        }
    }
}

/// A page binding of `mode` whose pattern matches `cur` and that `buf` could still complete.
pub open spec fn page_hit<F>(k: Keymap<F>, mode: Mode, cur: PathView, buf: Seq<KeyEvent>) -> bool {
    &&& k.mode == mode
    &&& k.path matches Some(p) && pattern_matches(p@, cur)
    &&& spec_prefix_match(k.key_sequence.0@, buf)
}

/// The specificity of a page binding's pattern.
pub open spec fn binding_priority<F>(k: Keymap<F>) -> KeymapPathPriority {
    match k.path {
        Some(p) => priority_of(p@),
        None => priority_of(Seq::empty()),
    }
}

/// The most specific pattern among the page bindings that `buf` could still complete.
pub open spec fn best_priority<F>(cfg: Seq<Keymap<F>>, mode: Mode, cur: PathView, buf: Seq<KeyEvent>) -> Option<
    KeymapPathPriority,
>
    decreases cfg.len(),
{
    if cfg.len() == 0 {
        None
    } else {
        let rest = best_priority(cfg.drop_last(), mode, cur, buf);
        if page_hit(cfg.last(), mode, cur, buf) {
            let p = binding_priority(cfg.last());
            match rest {
                Some(q) => if p.spec_precedes(q) {
                    Some(p)
                } else {
                    Some(q)
                },
                None => Some(p),
            }
        } else {
            rest
        }
    }
}

/// Binding `i` is a page candidate: a page hit of the best specificity, and the last one
/// added for its keys.
pub open spec fn page_cand<F>(
    cfg: Seq<Keymap<F>>,
    i: int,
    mode: Mode,
    cur: PathView,
    buf: Seq<KeyEvent>,
    best: KeymapPathPriority,
) -> bool {
    &&& page_hit(cfg[i], mode, cur, buf)
    &&& binding_priority(cfg[i]) == best
    &&& forall|j: int|
        i < j < cfg.len() && page_hit(#[trigger] cfg[j], mode, cur, buf) && binding_priority(cfg[j])
            == best ==> cfg[j].key_sequence.0@ != cfg[i].key_sequence.0@
}

/// Positions from `lo` on, in order, of the page candidates.
pub open spec fn page_cands_from<F>(
    cfg: Seq<Keymap<F>>,
    lo: int,
    mode: Mode,
    cur: PathView,
    buf: Seq<KeyEvent>,
    best: KeymapPathPriority,
) -> Seq<usize>
    decreases cfg.len() - lo,
{
    if lo < 0 || lo >= cfg.len() {
        Seq::empty()
    } else {
        let rest = page_cands_from(cfg, lo + 1, mode, cur, buf, best);
        if page_cand(cfg, lo, mode, cur, buf, best) {
            seq![lo as usize] + rest
        } else {
            rest
        }
    }
}

/// The page candidates for the typed keys `buf`.
pub open spec fn page_hits<F>(cfg: Seq<Keymap<F>>, mode: Mode, cur: PathView, buf: Seq<KeyEvent>) -> Seq<
    usize,
> {
    match best_priority(cfg, mode, cur, buf) {
        Some(best) => page_cands_from(cfg, 0, mode, cur, buf, best),
        None => Seq::empty(),
    }
}

/// What a key press comes to, given the candidates of the tier that decides it: no candidate
/// drops the typed keys; one candidate that the keys complete fires and drops them; otherwise
/// the keys wait for more.
pub open spec fn resolve(
    cands: Seq<usize>,
    complete: bool,
    hit: KeyHit,
    buf: Seq<KeyEvent>,
) -> (Option<KeyHit>, Seq<KeyEvent>) {
    if cands.len() == 0 {
        (None, Seq::empty())
    } else if cands.len() == 1 && complete {
        (Some(hit), Seq::empty())
    } else {
        (None, buf)
    }
}

impl<T, F, P, M, V> State<T, F, P, M, V> {
    /// The entry bindings that take part: those of the hovered entry, in main mode.
    pub open spec fn entry_tier(&self, ek: Seq<EntryKeymap<F>>, buf: Seq<KeyEvent>) -> Seq<usize> {
        if self.current_mode == Mode::Main && self.spec_hovered() is Some {
            entry_hits(ek, buf)
        } else {
            Seq::empty()
        }
    }

    /// The hit and the typed keys left after pressing `event`, the hovered entry carrying
    /// the bindings `ek`. Entry bindings decide when any can still match, else page
    /// bindings, else global ones.
    pub open spec fn tap_outcome(&self, event: KeyEvent, ek: Seq<EntryKeymap<F>>) -> (
        Option<KeyHit>,
        Seq<KeyEvent>,
    ) {
        let buf = self.last_key_event_buffer@.push(event);
        let cfg = self.keymap_config@;
        let ec = self.entry_tier(ek, buf);
        let pc = page_hits(cfg, self.current_mode, self.path(), buf);
        let gc = global_hits(cfg, self.current_mode, buf);
        if ec.len() > 0 {
            resolve(
                ec,
                spec_all_match(ek[ec[0] as int].key_sequence.0@, buf),
                KeyHit::Entry(ec[0]),
                buf,
            )
        } else if pc.len() > 0 {
            resolve(
                pc,
                spec_all_match(cfg[pc[0] as int].key_sequence.0@, buf),
                KeyHit::Config(pc[0]),
                buf,
            )
        } else {
            resolve(
                gc,
                gc.len() > 0 && spec_all_match(cfg[gc[0] as int].key_sequence.0@, buf),
                KeyHit::Config(if gc.len() > 0 {
                    gc[0]
                } else {
                    0
                }),
                buf,
            )
        }
    }

    /// Adds a binding, replacing any binding for the same mode, keys and path.
    pub fn add_keymap(&mut self, keymap: Keymap<F>)
        requires
            old(self).wf(),
        ensures
            final(self).wf(),
            final(self).keymap_config@ == drop_same(old(self).keymap_config@, keymap).push(keymap),
            forall|i: int|
                0 <= i < final(self).keymap_config@.len() - 1 ==> !same_binding(
                    #[trigger] final(self).keymap_config@[i],
                    keymap,
                ),
            final(self).same_navigation(old(self)),
            final(self).same_previews(old(self)),
            final(self).current_mode == old(self).current_mode,
            final(self).last_key_event_buffer == old(self).last_key_event_buffer,
            final(self).input_dialog == old(self).input_dialog,
    {
        let mut rest: Vec<Keymap<F>> = Vec::new();
        std::mem::swap(&mut rest, &mut self.keymap_config);
        let ghost orig = rest@;
        let n = rest.len();
        let mut i: usize = 0;
        while rest.len() > 0
            invariant
                self.wf(),
                rest@ == orig.skip(i as int),
                i <= orig.len(),
                n == orig.len(),
                self.keymap_config@ == drop_same(orig.take(i as int), keymap),
                self.same_navigation(old(self)),
                self.same_previews(old(self)),
                self.current_mode == old(self).current_mode,
                self.last_key_event_buffer == old(self).last_key_event_buffer,
                self.input_dialog == old(self).input_dialog,
            decreases rest@.len(),
        {
            let item = rest.remove(0);
            proof {
                assert(orig.take(i + 1).drop_last() =~= orig.take(i as int));
                assert(orig.take(i + 1).last() == item);
                assert(rest@ =~= orig.skip(i + 1));
            }
            if !same_keymap(&item, &keymap) {
                self.keymap_config.push(item);
            }
            i += 1;
        }
        proof {
            assert(orig.take(i as int) =~= orig);
            lemma_drop_same(orig, keymap);
        }
        self.keymap_config.push(keymap);
    }
}

impl<T, F, P, M, V> State<T, F, P, M, V> {
    /// Records the key press `event` and resolves the typed keys against the bindings; the
    /// hovered entry carries the bindings `entry_keymaps`. Returns the binding to run, if
    /// any (see `tap_outcome`).
    pub fn tap_key(&mut self, event: KeyEvent, entry_keymaps: &[EntryKeymap<F>]) -> (r: Option<KeyHit>)
        requires
            old(self).wf(),
        ensures
            final(self).wf(),
            (r, final(self).last_key_event_buffer@) == old(self).tap_outcome(event, entry_keymaps@),
            final(self).same_navigation(old(self)),
            final(self).same_previews(old(self)),
            final(self).current_mode == old(self).current_mode,
            final(self).keymap_config == old(self).keymap_config,
            final(self).input_dialog == old(self).input_dialog,
            final(self).confirm_dialog == old(self).confirm_dialog,
            final(self).select_dialog == old(self).select_dialog,
    {
        self.last_key_event_buffer.push(event);
        let ec = self.entry_candidates(entry_keymaps);
        if ec.len() > 0 {
            let complete = entry_keymaps[ec[0]].key_sequence.all_match(
                self.last_key_event_buffer.as_slice(),
            );
            return self.finish_tap(ec.len(), complete, KeyHit::Entry(ec[0]));
        }
        let pc = self.page_candidates();
        if pc.len() > 0 {
            let complete = self.keymap_config[pc[0]].key_sequence.all_match(
                self.last_key_event_buffer.as_slice(),
            );
            return self.finish_tap(pc.len(), complete, KeyHit::Config(pc[0]));
        }
        let gc = self.global_candidates();
        let complete = gc.len() > 0 && self.keymap_config[gc[0]].key_sequence.all_match(
            self.last_key_event_buffer.as_slice(),
        );
        let first = if gc.len() > 0 {
            gc[0]
        } else {
            0
        };
        self.finish_tap(gc.len(), complete, KeyHit::Config(first))
    }

    fn finish_tap(&mut self, n: usize, complete: bool, hit: KeyHit) -> (r: Option<KeyHit>)
        requires
            old(self).wf(),
        ensures
            final(self).wf(),
            (r, final(self).last_key_event_buffer@) == (if n == 0 {
                (None::<KeyHit>, Seq::<KeyEvent>::empty())
            } else if n == 1 && complete {
                (Some(hit), Seq::<KeyEvent>::empty())
            } else {
                (None::<KeyHit>, old(self).last_key_event_buffer@)
            }),
            final(self).same_navigation(old(self)),
            final(self).same_previews(old(self)),
            final(self).current_mode == old(self).current_mode,
            final(self).keymap_config == old(self).keymap_config,
            final(self).input_dialog == old(self).input_dialog,
            final(self).confirm_dialog == old(self).confirm_dialog,
            final(self).select_dialog == old(self).select_dialog,
    {
        if n == 0 {
            self.last_key_event_buffer.clear();
            None
        } else if n == 1 && complete {
            self.last_key_event_buffer.clear();
            Some(hit)
        } else {
            None
        }
    }

    /// Positions of the hovered entry's bindings that the typed keys could still complete.
    fn entry_candidates(&self, ek: &[EntryKeymap<F>]) -> (r: Vec<usize>)
        requires
            self.wf(),
        ensures
            r@ == self.entry_tier(ek@, self.last_key_event_buffer@),
            forall|i: int| 0 <= i < r@.len() ==> #[trigger] r@[i] < ek@.len(),
    {
        let mut r: Vec<usize> = Vec::new();
        if self.current_mode != Mode::Main || self.hovered().is_none() {
            return r;
        }
        let n = ek.len();
        let mut i: usize = 0;
        while i < n
            invariant
                n == ek@.len(),
                i <= n,
                r@ == entry_hits(ek@.take(i as int), self.last_key_event_buffer@),
                forall|k: int| 0 <= k < r@.len() ==> #[trigger] r@[k] < i,
            decreases n - i,
        {
            proof {
                assert(ek@.take(i + 1).drop_last() =~= ek@.take(i as int));
                assert(ek@.take(i + 1).last() == ek@[i as int]);
            }
            if ek[i].key_sequence.prefix_match(self.last_key_event_buffer.as_slice()) {
                r.push(i);
            }
            i += 1;
        }
        proof {
            assert(ek@.take(n as int) =~= ek@);
        }
        r
    }

    /// Positions of the global bindings that the typed keys could still complete.
    fn global_candidates(&self) -> (r: Vec<usize>)
        ensures
            r@ == global_hits(self.keymap_config@, self.current_mode, self.last_key_event_buffer@),
            forall|i: int| 0 <= i < r@.len() ==> #[trigger] r@[i] < self.keymap_config@.len(),
    {
        let cfg = &self.keymap_config;
        let n = cfg.len();
        let mut r: Vec<usize> = Vec::new();
        let mut i: usize = 0;
        while i < n
            invariant
                n == cfg@.len(),
                i <= n,
                r@ == global_hits(cfg@.take(i as int), self.current_mode, self.last_key_event_buffer@),
                forall|k: int| 0 <= k < r@.len() ==> #[trigger] r@[k] < i,
            decreases n - i,
        {
            proof {
                assert(cfg@.take(i + 1).drop_last() =~= cfg@.take(i as int));
                assert(cfg@.take(i + 1).last() == cfg@[i as int]);
            }
            let k = &cfg[i];
            if k.mode == self.current_mode && k.path.is_none() && k.key_sequence.prefix_match(
                self.last_key_event_buffer.as_slice(),
            ) {
                r.push(i);
            }
            i += 1;
        }
        proof {
            assert(cfg@.take(n as int) =~= cfg@);
        }
        r
    }

    /// Binding `k` is a page hit for the current mode, path and typed keys.
    fn is_page_hit(&self, k: &Keymap<F>) -> (b: bool)
        ensures
            b == page_hit(*k, self.current_mode, self.path(), self.last_key_event_buffer@),
    {
        if k.mode != self.current_mode {
            return false;
        }
        let matches = match &k.path {
            Some(p) => p.matches(self.current_path.as_slice()),
            None => false,
        };
        matches && k.key_sequence.prefix_match(self.last_key_event_buffer.as_slice())
    }

    /// The most specific pattern among the page hits.
    fn best_page_priority(&self) -> (r: Option<KeymapPathPriority>)
        ensures
            r == best_priority(
                self.keymap_config@,
                self.current_mode,
                self.path(),
                self.last_key_event_buffer@,
            ),
    {
        let cfg = &self.keymap_config;
        let n = cfg.len();
        let mut best: Option<KeymapPathPriority> = None;
        let mut i: usize = 0;
        while i < n
            invariant
                n == cfg@.len(),
                i <= n,
                best == best_priority(
                    cfg@.take(i as int),
                    self.current_mode,
                    self.path(),
                    self.last_key_event_buffer@,
                ),
            decreases n - i,
        {
            proof {
                assert(cfg@.take(i + 1).drop_last() =~= cfg@.take(i as int));
                assert(cfg@.take(i + 1).last() == cfg@[i as int]);
            }
            let k = &cfg[i];
            if self.is_page_hit(k) {
                let p = match &k.path {
                    Some(pat) => pat.priority(),
                    None => best.unwrap(),
                };
                best = match best {
                    Some(q) => if p.precedes(&q) {
                        Some(p)
                    } else {
                        Some(q)
                    },
                    None => Some(p),
                };
            }
            i += 1;
        }
        proof {
            assert(cfg@.take(n as int) =~= cfg@);
        }
        best
    }

    /// The page candidates: the latest page hit of the best specificity for each key
    /// sequence, in order.
    fn page_candidates(&self) -> (r: Vec<usize>)
        ensures
            r@ == page_hits(self.keymap_config@, self.current_mode, self.path(), self.last_key_event_buffer@),
            forall|i: int| 0 <= i < r@.len() ==> #[trigger] r@[i] < self.keymap_config@.len(),
    {
        let best = match self.best_page_priority() {
            Some(b) => b,
            None => {
                return Vec::new();
            },
        };
        let cfg = &self.keymap_config;
        let ghost mode = self.current_mode;
        let ghost cur = self.path();
        let ghost buf = self.last_key_event_buffer@;
        let n = cfg.len();
        let mut cands: Vec<usize> = Vec::new();
        let mut i: usize = n;
        proof {
            reveal(cands_ok);
            reveal(represented);
        }
        while i > 0
            invariant
                n == cfg@.len(),
                i <= n,
                mode == self.current_mode,
                cur == self.path(),
                buf == self.last_key_event_buffer@,
                cands@ == page_cands_from(cfg@, i as int, mode, cur, buf, best),
                cands_ok(cfg@, cands@, i as int, mode, cur, buf, best),
                represented(cfg@, cands@, i as int, mode, cur, buf, best),
                forall|x: int| 0 <= x < cands@.len() ==> #[trigger] cands@[x] < n,
            decreases i,
        {
            i -= 1;
            let k = &cfg[i];
            let hit = self.is_page_hit(k) && match &k.path {
                Some(p) => p.priority() == best,
                None => false,
            };
            let ghost old_cands = cands@;
            proof {
                lemma_page_cand_step(cfg@, i as int, mode, cur, buf, best, old_cands);
            }
            let mut joined = false;
            if hit {
                let dup = cands_have_keys(cfg, &cands, &k.key_sequence);
                if !dup {
                    cands.insert(0, i);
                    joined = true;
                    proof {
                        assert(cands@ =~= seq![i] + old_cands);
                    }
                }
            }
            proof {
                lemma_cands_step(cfg@, i as int, mode, cur, buf, best, old_cands, cands@, joined);
                reveal(cands_ok);
            }
        }
        cands
    }
}

/// Where a binding offered for display comes from.
#[derive(Debug, Clone, Copy, PartialEq, Eq, Structural)]
pub enum KeymapSource {
    Entry,
    Page,
    Global,
}

impl KeymapSource {
    /// The source's name: `entry`, `page` or `global`.
    pub fn as_str(&self) -> (s: &'static str)
        ensures
            s@ == match *self {
                KeymapSource::Entry => seq!['e', 'n', 't', 'r', 'y'],
                KeymapSource::Page => seq!['p', 'a', 'g', 'e'],
                KeymapSource::Global => seq!['g', 'l', 'o', 'b', 'a', 'l'],
            },
    {
        proof {
            reveal_strlit("entry");
            reveal_strlit("page");
            reveal_strlit("global");
        }
        match self {
            KeymapSource::Entry => "entry",
            KeymapSource::Page => "page",
            KeymapSource::Global => "global",
        }
    }
}

/// A binding in force on the current page, as offered for display.
pub struct AvailableKeymap {
    pub key: String,
    pub desc: Option<String>,
    pub source: KeymapSource,
    /// The binding itself.
    pub origin: KeyHit,
    pub path_priority: Option<KeymapPathPriority>,
}

/// An offered binding as plain values: source, pattern specificity, keys as written,
/// description and the binding.
pub type Listed = (KeymapSource, Option<KeymapPathPriority>, Seq<char>, Option<Seq<char>>, KeyHit);

/// The optional string as characters.
pub open spec fn opt_chars(s: Option<String>) -> Option<Seq<char>> {
    match s {
        Some(x) => Some(x@),
        None => None,
    }
}

pub open spec fn listed(a: AvailableKeymap) -> Listed {
    (a.source, a.path_priority, a.key@, opt_chars(a.desc), a.origin)
}

/// Entry bindings come first, then page bindings, then global ones.
pub open spec fn source_rank(s: KeymapSource) -> int {
    match s {
        KeymapSource::Entry => 0,
        KeymapSource::Page => 1,
        KeymapSource::Global => 2,
    }
}

/// Lexicographic order of strings from position `i` on, by code point.
pub open spec fn str_lt_from(a: Seq<char>, b: Seq<char>, i: int) -> bool
    decreases a.len() - i,
{
    if i < 0 || i >= a.len() {
        0 <= i < b.len()
    } else if i >= b.len() {
        false
    } else if a[i] != b[i] {
        (a[i] as u32) < (b[i] as u32)
    } else {
        str_lt_from(a, b, i + 1)
    }
}

/// `a` sorts before `b` (the order of `str`).
pub open spec fn str_lt(a: Seq<char>, b: Seq<char>) -> bool {
    str_lt_from(a, b, 0)
}

/// No description sorts before any; descriptions sort as strings.
pub open spec fn opt_str_lt(a: Option<Seq<char>>, b: Option<Seq<char>>) -> bool {
    match (a, b) {
        (None, Some(_)) => true,
        (Some(x), Some(y)) => str_lt(x, y),
        _ => false,
    }
}

/// No pattern sorts before any; patterns sort by specificity.
pub open spec fn pri_lt(a: Option<KeymapPathPriority>, b: Option<KeymapPathPriority>) -> bool {
    match (a, b) {
        (None, Some(_)) => true,
        (Some(x), Some(y)) => x.spec_precedes(y),
        _ => false,
    }
}

/// What offered bindings are sorted by.
pub open spec fn sort_key(x: Listed) -> (int, Option<KeymapPathPriority>, Seq<char>, Option<Seq<char>>) {
    (source_rank(x.0), x.1, x.2, x.3)
}

/// Offered binding `x` sorts before `y`: by source, then specificity, then keys, then
/// description.
pub open spec fn listed_lt(x: Listed, y: Listed) -> bool {
    let (a, b) = (sort_key(x), sort_key(y));
    ||| a.0 < b.0
    ||| a.0 == b.0 && pri_lt(a.1, b.1)
    ||| a.0 == b.0 && a.1 == b.1 && str_lt(a.2, b.2)
    ||| a.0 == b.0 && a.1 == b.1 && a.2 == b.2 && opt_str_lt(a.3, b.3)
}

/// The position of a binding in the unsorted listing: entry bindings first, then the
/// state's bindings.
pub open spec fn hit_pos(h: KeyHit, n_entries: int) -> int {
    match h {
        KeyHit::Entry(i) => i as int,
        KeyHit::Config(j) => n_entries + j,
    }
}

/// The offered bindings of the state's `keymap_config` for `mode` on `cur`, in order.
pub open spec fn config_listing<F>(cfg: Seq<Keymap<F>>, mode: Mode, cur: PathView) -> Seq<Listed>
    decreases cfg.len(),
{
    if cfg.len() == 0 {
        Seq::empty()
    } else {
        let rest = config_listing(cfg.drop_last(), mode, cur);
        let k = cfg.last();
        if k.mode == mode && (k.path is None || pattern_matches(pattern_of(k.path)->Some_0, cur)) {
            rest.push(
                (
                    if k.path is Some {
                        KeymapSource::Page
                    } else {
                        KeymapSource::Global
                    },
                    if k.path is Some {
                        Some(binding_priority(k))
                    } else {
                        None
                    },
                    k.raw_key@,
                    opt_chars(k.desc),
                    KeyHit::Config((cfg.len() - 1) as usize),
                ),
            )
        } else {
            rest
        }
    }
}

/// The offered bindings of an entry, in order.
pub open spec fn entry_listing<F>(ek: Seq<EntryKeymap<F>>) -> Seq<Listed> {
    Seq::new(
        ek.len(),
        |i: int|
            (
                KeymapSource::Entry,
                None::<KeymapPathPriority>,
                ek[i].key@,
                opt_chars(ek[i].desc),
                KeyHit::Entry(i as usize),
            ),
    )
}

/// `x` is an element of `l`.
pub open spec fn occurs(x: Listed, l: Seq<Listed>) -> bool {
    exists|j: int| 0 <= j < l.len() && #[trigger] l[j] == x
}

/// `r` and `l` have the same length and elements.
pub open spec fn same_elements(r: Seq<Listed>, l: Seq<Listed>) -> bool {
    &&& r.len() == l.len()
    &&& forall|i: int| 0 <= i < r.len() ==> occurs(#[trigger] r[i], l)
    &&& forall|j: int| 0 <= j < l.len() ==> occurs(#[trigger] l[j], r)
}

/// No element of `r` sorts before an earlier one.
pub open spec fn listed_sorted(r: Seq<Listed>) -> bool {
    forall|i: int, j: int| 0 <= i < j < r.len() ==> !listed_lt(#[trigger] r[j], #[trigger] r[i])
}

/// Elements of `r` that sort alike keep their order in the listing.
pub open spec fn listed_stable(r: Seq<Listed>, n_entries: int) -> bool {
    forall|i: int, j: int|
        0 <= i < j < r.len() && sort_key(#[trigger] r[i]) == sort_key(#[trigger] r[j]) ==> hit_pos(
            r[i].4,
            n_entries,
        ) < hit_pos(r[j].4, n_entries)
}

/// `r` is `l` sorted by `listed_lt`, bindings that sort alike keeping their order in `l`.
pub open spec fn sorted_listing(r: Seq<Listed>, l: Seq<Listed>, n_entries: int) -> bool {
    &&& same_elements(r, l)
    &&& listed_sorted(r)
    &&& listed_stable(r, n_entries)
}

pub proof fn lemma_str_lt_from_trans(a: Seq<char>, b: Seq<char>, c: Seq<char>, i: int)
    requires
        0 <= i,
        str_lt_from(a, b, i),
        str_lt_from(b, c, i),
    ensures
        str_lt_from(a, c, i),
    decreases a.len() - i,
{
    if i < a.len() && i < b.len() && i < c.len() && a[i] == b[i] && b[i] == c[i] {
        lemma_str_lt_from_trans(a, b, c, i + 1);
    }
}

pub proof fn lemma_str_lt_from_irrefl(a: Seq<char>, i: int)
    requires
        0 <= i,
    ensures
        !str_lt_from(a, a, i),
    decreases a.len() - i,
{
    if i < a.len() {
        lemma_str_lt_from_irrefl(a, i + 1);
    }
}

/// `listed_lt` is a strict order.
pub proof fn lemma_listed_lt_order(x: Listed, y: Listed, z: Listed)
    ensures
        !listed_lt(x, x),
        listed_lt(x, y) && listed_lt(y, z) ==> listed_lt(x, z),
{
    lemma_str_lt_from_irrefl(x.2, 0);
    if let Some(d) = x.3 {
        lemma_str_lt_from_irrefl(d, 0);
    }
    if listed_lt(x, y) && listed_lt(y, z) {
        if str_lt(x.2, y.2) && str_lt(y.2, z.2) {
            lemma_str_lt_from_trans(x.2, y.2, z.2, 0);
        }
        if let (Some(a), Some(b), Some(c)) = (x.3, y.3, z.3) {
            if str_lt(a, b) && str_lt(b, c) {
                lemma_str_lt_from_trans(a, b, c, 0);
            }
        }
    }
}

proof fn lemma_insert_members(r: Seq<Listed>, l: Seq<Listed>, x: Listed, k: int)
    requires
        same_elements(r, l),
        0 <= k <= r.len(),
    ensures
        same_elements(r.insert(k, x), l.push(x)),
{
    let r2 = r.insert(k, x);
    let l2 = l.push(x);
    assert(r2.len() == l2.len());
    assert forall|i: int| 0 <= i < r2.len() implies occurs(#[trigger] r2[i], l2) by {
        if i == k {
            assert(l2[l.len() as int] == r2[i]);
        } else {
            let i0 = if i < k { i } else { i - 1 };
            assert(r2[i] == r[i0]);
            assert(occurs(r[i0], l));
            let j = choose|j: int| 0 <= j < l.len() && #[trigger] l[j] == r[i0];
            assert(l2[j] == r2[i]);
        }
    }
    assert forall|j: int| 0 <= j < l2.len() implies occurs(#[trigger] l2[j], r2) by {
        if j == l.len() {
            assert(r2[k] == l2[j]);
        } else {
            assert(l2[j] == l[j]);
            assert(occurs(l[j], r));
            let i0 = choose|i: int| 0 <= i < r.len() && #[trigger] r[i] == l[j];
            let i = if i0 < k { i0 } else { i0 + 1 };
            assert(r2[i] == r[i0]);
        }
    }
}

/// Inserting `x` before the first element that sorts after it keeps the listing sorted.
proof fn lemma_insert_order(r: Seq<Listed>, x: Listed, k: int)
    requires
        listed_sorted(r),
        0 <= k <= r.len(),
        forall|a: int| 0 <= a < k ==> !listed_lt(x, #[trigger] r[a]),
        k < r.len() ==> listed_lt(x, r[k]),
    ensures
        listed_sorted(r.insert(k, x)),
{
    let r2 = r.insert(k, x);
    assert forall|i: int, j: int| 0 <= i < j < r2.len() implies !listed_lt(#[trigger] r2[j], #[trigger] r2[i]) by {
        if i == k {
            let j0 = j - 1;
            assert(r2[j] == r[j0]);
            lemma_listed_lt_order(r[j0], x, r[k]);
            lemma_listed_lt_order(r[k], x, r[k]);
            if j0 > k {
                assert(!listed_lt(r[j0], r[k]));
            }
        } else if j == k {
            assert(r2[i] == r[i]);
        } else {
            let i0 = if i < k { i } else { i - 1 };
            let j0 = if j < k { j } else { j - 1 };
            assert(r2[i] == r[i0] && r2[j] == r[j0]);
        }
    }
}

/// Inserting `x` there also keeps alike elements in listing order, when `x` comes after
/// everything listed so far.
#[verifier::rlimit(50)]
proof fn lemma_insert_stable(r: Seq<Listed>, l: Seq<Listed>, n: int, x: Listed, k: int)
    requires
        same_elements(r, l),
        listed_sorted(r),
        listed_stable(r, n),
        0 <= k <= r.len(),
        k < r.len() ==> listed_lt(x, r[k]),
        forall|j: int| 0 <= j < l.len() ==> hit_pos(#[trigger] l[j].4, n) < hit_pos(x.4, n),
    ensures
        listed_stable(r.insert(k, x), n),
{
    let r2 = r.insert(k, x);
    assert forall|a: int| 0 <= a < r.len() implies hit_pos(#[trigger] r[a].4, n) < hit_pos(x.4, n) by {
        assert(occurs(r[a], l));
        let j = choose|j: int| 0 <= j < l.len() && #[trigger] l[j] == r[a];
    }
    assert forall|i: int, j: int|
        0 <= i < j < r2.len() && sort_key(#[trigger] r2[i]) == sort_key(#[trigger] r2[j]) implies hit_pos(
        r2[i].4,
        n,
    ) < hit_pos(r2[j].4, n) by {
        if i == k {
            let j0 = j - 1;
            assert(r2[j] == r[j0]);
            assert(listed_lt(r[j0], r[k]));
            lemma_listed_lt_order(r[k], x, r[k]);
            if j0 > k {
                assert(!listed_lt(r[j0], r[k]));
            }
        } else if j == k {
            assert(r2[i] == r[i]);
        } else {
            let i0 = if i < k { i } else { i - 1 };
            let j0 = if j < k { j } else { j - 1 };
            assert(r2[i] == r[i0] && r2[j] == r[j0]);
        }
    }
}

/// Lexicographic comparison of two strings by code point (the order of `str`).
pub fn str_less(a: &String, b: &String) -> (r: bool)
    ensures
        r == str_lt(a@, b@),
{
    let x = to_chars(a.as_str());
    let y = to_chars(b.as_str());
    let mut i: usize = 0;
    while i < x.len() && i < y.len() && x[i] == y[i]
        invariant
            x@ == a@,
            y@ == b@,
            i <= x@.len(),
            i <= y@.len(),
            str_lt_from(a@, b@, 0) == str_lt_from(a@, b@, i as int),
        decreases x@.len() - i,
    {
        i += 1;
    }
    if i >= x.len() {
        i < y.len()
    } else if i >= y.len() {
        false
    } else {
        (x[i] as u32) < (y[i] as u32)
    }
}

/// `a` sorts before `b` (see `listed_lt`).
fn listed_less(a: &AvailableKeymap, b: &AvailableKeymap) -> (r: bool)
    ensures
        r == listed_lt(listed(*a), listed(*b)),
{
    let ra = rank(a.source);
    let rb = rank(b.source);
    if ra != rb {
        return ra < rb;
    }
    let pl = match (&a.path_priority, &b.path_priority) {
        (None, Some(_)) => true,
        (Some(x), Some(y)) => x.precedes(y),
        _ => false,
    };
    if pl {
        return true;
    }
    if a.path_priority != b.path_priority {
        return false;
    }
    if str_less(&a.key, &b.key) {
        return true;
    }
    if a.key != b.key {
        return false;
    }
    match (&a.desc, &b.desc) {
        (None, Some(_)) => true,
        (Some(x), Some(y)) => str_less(x, y),
        _ => false,
    }
}

fn rank(s: KeymapSource) -> (r: u8)
    ensures
        r as int == source_rank(s),
{
    match s {
        KeymapSource::Entry => 0,
        KeymapSource::Page => 1,
        KeymapSource::Global => 2,
    }
}

/// The offered bindings as plain values.
pub open spec fn listed_view(v: Seq<AvailableKeymap>) -> Seq<Listed> {
    v.map_values(|a: AvailableKeymap| listed(a))
}

/// Inserts `item` after the elements that do not sort after it.
fn insert_listed(out: &mut Vec<AvailableKeymap>, item: AvailableKeymap, Ghost(l): Ghost<Seq<Listed>>, Ghost(n): Ghost<int>)
    requires
        sorted_listing(listed_view(old(out)@), l, n),
        forall|j: int| 0 <= j < l.len() ==> hit_pos(#[trigger] l[j].4, n) < hit_pos(item.origin, n),
    ensures
        sorted_listing(listed_view(final(out)@), l.push(listed(item)), n),
{
    let ghost r = listed_view(out@);
    let mut k: usize = 0;
    while k < out.len() && !listed_less(&item, &out[k])
        invariant
            k <= out@.len(),
            r == listed_view(out@),
            forall|a: int| 0 <= a < k ==> !listed_lt(listed(item), #[trigger] r[a]),
        decreases out@.len() - k,
    {
        k += 1;
    }
    proof {
        lemma_insert_members(r, l, listed(item), k as int);
        lemma_insert_order(r, listed(item), k as int);
        lemma_insert_stable(r, l, n, listed(item), k as int);
    }
    out.insert(k, item);
    proof {
        assert(listed_view(out@) =~= r.insert(k as int, listed(item)));
    }
}

/// A copy of an optional string.
fn copy_opt(s: &Option<String>) -> (r: Option<String>)
    ensures
        opt_chars(r) == opt_chars(*s),
{
    match s {
        Some(x) => Some(x.clone()),
        None => None,
    }
}

impl<T, F, P, M, V> State<T, F, P, M, V> {
    /// The bindings in force, unsorted: the hovered entry's (in main mode), then those of
    /// `keymap_config` for the current mode whose pattern (if any) matches the current path.
    pub open spec fn listing(&self, ek: Seq<EntryKeymap<F>>) -> Seq<Listed> {
        (if self.current_mode == Mode::Main && self.spec_hovered() is Some {
            entry_listing(ek)
        } else {
            Seq::empty()
        }) + config_listing(self.keymap_config@, self.current_mode, self.path())
    }

    /// The bindings in force on the current page, the hovered entry carrying `entry_keymaps`,
    /// sorted by `listed_lt` (bindings that sort alike keep their listing order).
    pub fn available_keymaps(&self, entry_keymaps: &[EntryKeymap<F>]) -> (r: Vec<AvailableKeymap>)
        requires
            self.wf(),
        ensures
            sorted_listing(listed_view(r@), self.listing(entry_keymaps@), entry_keymaps@.len() as int),
    {
        let n = entry_keymaps.len();
        let ghost ng = n as int;
        let mut out: Vec<AvailableKeymap> = Vec::new();
        let ghost mut l: Seq<Listed> = Seq::empty();
        let with_entries = self.current_mode == Mode::Main && self.hovered().is_some();
        if with_entries {
            let mut i: usize = 0;
            while i < n
                invariant
                    n == entry_keymaps@.len(),
                    ng == n,
                    i <= n,
                    l == entry_listing(entry_keymaps@).take(i as int),
                    sorted_listing(listed_view(out@), l, ng),
                    forall|t: int| 0 <= t < l.len() ==> hit_pos(#[trigger] l[t].4, ng) < i,
                decreases n - i,
            {
                let e = &entry_keymaps[i];
                let item = AvailableKeymap {
                    key: e.key.clone(),
                    desc: copy_opt(&e.desc),
                    source: KeymapSource::Entry,
                    origin: KeyHit::Entry(i),
                    path_priority: None,
                };
                proof {
                    assert(listed(item) == entry_listing(entry_keymaps@)[i as int]);
                }
                insert_listed(&mut out, item, Ghost(l), Ghost(ng));
                proof {
                    assert(entry_listing(entry_keymaps@).take(i + 1) =~= l.push(listed(item)));
                    l = l.push(listed(item));
                }
                i += 1;
            }
            proof {
                assert(entry_listing(entry_keymaps@).take(n as int) =~= entry_listing(entry_keymaps@));
            }
        }
        let ghost head = l;
        proof {
            assert(head =~= (if with_entries { entry_listing(entry_keymaps@) } else { Seq::<Listed>::empty() }));
        }
        let cfg = &self.keymap_config;
        let m = cfg.len();
        let mut j: usize = 0;
        while j < m
            invariant
                n == entry_keymaps@.len(),
                ng == n,
                m == cfg@.len(),
                j <= m,
                head.len() <= n,
                forall|t: int| 0 <= t < head.len() ==> hit_pos(#[trigger] head[t].4, ng) < ng,
                l == head + config_listing(cfg@.take(j as int), self.current_mode, self.path()),
                sorted_listing(listed_view(out@), l, ng),
                forall|t: int| 0 <= t < l.len() ==> hit_pos(#[trigger] l[t].4, ng) < ng + j,
            decreases m - j,
        {
            proof {
                assert(cfg@.take(j + 1).drop_last() =~= cfg@.take(j as int));
                assert(cfg@.take(j + 1).last() == cfg@[j as int]);
            }
            let k = &cfg[j];
            let shown = k.mode == self.current_mode && match &k.path {
                Some(p) => p.matches(self.current_path.as_slice()),
                None => true,
            };
            if shown {
                let (source, pri) = match &k.path {
                    Some(p) => (KeymapSource::Page, Some(p.priority())),
                    None => (KeymapSource::Global, None),
                };
                let item = AvailableKeymap {
                    key: k.raw_key.clone(),
                    desc: copy_opt(&k.desc),
                    source,
                    origin: KeyHit::Config(j),
                    path_priority: pri,
                };
                insert_listed(&mut out, item, Ghost(l), Ghost(ng));
                proof {
                    let tail = config_listing(cfg@.take(j as int), self.current_mode, self.path());
                    assert(config_listing(cfg@.take(j + 1), self.current_mode, self.path()) == tail.push(listed(item)));
                    assert(head + tail.push(listed(item)) =~= (head + tail).push(listed(item)));
                    l = l.push(listed(item));
                }
            }
            j += 1;
        }
        proof {
            assert(cfg@.take(m as int) =~= cfg@);
        }
        out
    }
}

/// The keys of binding `i`.
spec fn key_of<F>(cfg: Seq<Keymap<F>>, i: int) -> Seq<KeyEvent> {
    cfg[i].key_sequence.0@
}

/// Some candidate in `cands` is bound to the keys `ks`.
#[verifier::opaque]
spec fn cands_keyed<F>(cfg: Seq<Keymap<F>>, cands: Seq<usize>, ks: Seq<KeyEvent>) -> bool {
    exists|x: int| 0 <= x < cands.len() && #[trigger] key_of(cfg, cands[x] as int) == ks
}

/// Every best page hit from `lo` on has a candidate bound to its keys.
#[verifier::opaque]
spec fn represented<F>(
    cfg: Seq<Keymap<F>>,
    cands: Seq<usize>,
    lo: int,
    mode: Mode,
    cur: PathView,
    buf: Seq<KeyEvent>,
    best: KeymapPathPriority,
) -> bool {
    forall|j: int|
        lo <= j < cfg.len() && page_hit(#[trigger] cfg[j], mode, cur, buf) && binding_priority(cfg[j])
            == best ==> cands_keyed(cfg, cands, key_of(cfg, j))
}

/// The candidates are best page hits from `lo` on.
#[verifier::opaque]
spec fn cands_ok<F>(
    cfg: Seq<Keymap<F>>,
    cands: Seq<usize>,
    lo: int,
    mode: Mode,
    cur: PathView,
    buf: Seq<KeyEvent>,
    best: KeymapPathPriority,
) -> bool {
    forall|c: int|
        0 <= c < cands.len() ==> lo <= #[trigger] cands[c] < cfg.len() && page_hit(
            cfg[cands[c] as int],
            mode,
            cur,
            buf,
        ) && binding_priority(cfg[cands[c] as int]) == best
}

/// Some candidate in `cands` is bound to the keys `ks`.
fn cands_have_keys<F>(cfg: &Vec<Keymap<F>>, cands: &Vec<usize>, ks: &KeySequence) -> (r: bool)
    requires
        forall|x: int| 0 <= x < cands@.len() ==> #[trigger] cands@[x] < cfg@.len(),
    ensures
        r == cands_keyed(cfg@, cands@, ks.0@),
{
    reveal(cands_keyed);
    let mut c: usize = 0;
    while c < cands.len()
        invariant
            c <= cands@.len(),
            forall|x: int| 0 <= x < cands@.len() ==> #[trigger] cands@[x] < cfg@.len(),
            forall|x: int| 0 <= x < c ==> #[trigger] key_of(cfg@, cands@[x] as int) != ks.0@,
        decreases cands@.len() - c,
    {
        if cfg[cands[c]].key_sequence.same_keys(ks) {
            proof {
                reveal(cands_keyed);
                assert(key_of(cfg@, cands@[c as int] as int) == ks.0@);
                assert(exists|x: int| 0 <= x < cands@.len() && #[trigger] key_of(cfg@, cands@[x] as int) == ks.0@);
            }
            return true;
        }
        c += 1;
    }
    proof {
        reveal(cands_keyed);
    }
    false
}

/// Candidates after `i` that stand for every later best hit's keys decide whether `i` is a
/// page candidate: it is one exactly when it is a best hit whose keys none of them has.
proof fn lemma_page_cand_step<F>(
    cfg: Seq<Keymap<F>>,
    i: int,
    mode: Mode,
    cur: PathView,
    buf: Seq<KeyEvent>,
    best: KeymapPathPriority,
    cands: Seq<usize>,
)
    requires
        0 <= i < cfg.len(),
        cands_ok(cfg, cands, i + 1, mode, cur, buf, best),
        represented(cfg, cands, i + 1, mode, cur, buf, best),
    ensures
        page_cand(cfg, i, mode, cur, buf, best) == (page_hit(cfg[i], mode, cur, buf) && binding_priority(
            cfg[i],
        ) == best && !cands_keyed(cfg, cands, key_of(cfg, i))),
{
    reveal(cands_keyed);
    reveal(represented);
    reveal(cands_ok);
    if cands_keyed(cfg, cands, key_of(cfg, i)) {
        let x = choose|x: int| 0 <= x < cands.len() && #[trigger] key_of(cfg, cands[x] as int) == key_of(cfg, i);
        let j = cands[x] as int;
        assert(page_hit(cfg[j], mode, cur, buf));
    } else if page_hit(cfg[i], mode, cur, buf) && binding_priority(cfg[i]) == best {
        assert forall|j: int|
            i < j < cfg.len() && page_hit(#[trigger] cfg[j], mode, cur, buf) && binding_priority(cfg[j])
                == best implies cfg[j].key_sequence.0@ != cfg[i].key_sequence.0@ by {
            assert(cands_keyed(cfg, cands, key_of(cfg, j)));
            let x = choose|x: int| 0 <= x < cands.len() && #[trigger] key_of(cfg, cands[x] as int) == key_of(cfg, j);
        }
    }
}

/// Moving the bound of both invariants down by one binding: when `i` joins the candidates in
/// front, or when `i` is no best hit or is already represented.
proof fn lemma_cands_step<F>(
    cfg: Seq<Keymap<F>>,
    i: int,
    mode: Mode,
    cur: PathView,
    buf: Seq<KeyEvent>,
    best: KeymapPathPriority,
    old_cands: Seq<usize>,
    cands: Seq<usize>,
    joined: bool,
)
    requires
        0 <= i < cfg.len(),
        cfg.len() <= usize::MAX,
        cands_ok(cfg, old_cands, i + 1, mode, cur, buf, best),
        represented(cfg, old_cands, i + 1, mode, cur, buf, best),
        joined ==> cands == seq![i as usize] + old_cands && page_hit(cfg[i], mode, cur, buf)
            && binding_priority(cfg[i]) == best,
        !joined ==> cands == old_cands && (page_hit(cfg[i], mode, cur, buf) && binding_priority(cfg[i])
            == best ==> cands_keyed(cfg, old_cands, key_of(cfg, i))),
    ensures
        cands_ok(cfg, cands, i, mode, cur, buf, best),
        represented(cfg, cands, i, mode, cur, buf, best),
{
    reveal(cands_keyed);
    reveal(represented);
    reveal(cands_ok);
    if joined {
        assert(cands.len() == old_cands.len() + 1);
        assert(cands[0] == i as usize);
        assert forall|c: int| 0 < c < cands.len() implies #[trigger] cands[c] == old_cands[c - 1] by {}
        assert forall|j: int|
            i <= j < cfg.len() && page_hit(#[trigger] cfg[j], mode, cur, buf) && binding_priority(cfg[j])
                == best implies cands_keyed(cfg, cands, key_of(cfg, j)) by {
            if j == i {
                assert(key_of(cfg, cands[0] as int) == key_of(cfg, i));
                assert(0 <= 0 < cands.len());
            } else {
                assert(cands_keyed(cfg, old_cands, key_of(cfg, j)));
                let x = choose|x: int|
                    0 <= x < old_cands.len() && #[trigger] key_of(cfg, old_cands[x] as int) == key_of(cfg, j);
                assert(cands[x + 1] == old_cands[x]);
                assert(key_of(cfg, cands[x + 1] as int) == key_of(cfg, j));
            }
        }
        assert forall|c: int| 0 <= c < cands.len() implies i <= #[trigger] cands[c] < cfg.len() && page_hit(
            cfg[cands[c] as int],
            mode,
            cur,
            buf,
        ) && binding_priority(cfg[cands[c] as int]) == best by {
            if c > 0 {
                assert(cands[c] == old_cands[c - 1]);
            }
        }
    }
}

/// Two bindings are for the same mode, keys and path pattern.
fn same_keymap<F>(a: &Keymap<F>, b: &Keymap<F>) -> (r: bool)
    ensures
        r == same_binding(*a, *b),
{
    if a.mode != b.mode {
        return false;
    }
    if !a.key_sequence.same_keys(&b.key_sequence) {
        return false;
    }
    match (&a.path, &b.path) {
        (Some(x), Some(y)) => x.same_pattern(y),
        (None, None) => true,
        _ => false,
    }
}

} // verus!

verus! {

/// Every position that `page_cands_from` lists is a page candidate.
pub proof fn lemma_page_cands_are_cands<F>(
    cfg: Seq<Keymap<F>>,
    lo: int,
    mode: Mode,
    cur: PathView,
    buf: Seq<KeyEvent>,
    best: KeymapPathPriority,
)
    requires
        cfg.len() <= usize::MAX,
    ensures
        forall|k: int|
            0 <= k < page_cands_from(cfg, lo, mode, cur, buf, best).len() ==> {
                let i = #[trigger] page_cands_from(cfg, lo, mode, cur, buf, best)[k] as int;
                &&& lo <= i < cfg.len()
                &&& page_cand(cfg, i, mode, cur, buf, best)
            },
    decreases cfg.len() - lo,
{
    if !(lo < 0 || lo >= cfg.len()) {
        lemma_page_cands_are_cands(cfg, lo + 1, mode, cur, buf, best);
        let rest = page_cands_from(cfg, lo + 1, mode, cur, buf, best);
        let all = page_cands_from(cfg, lo, mode, cur, buf, best);
        assert forall|k: int| 0 <= k < all.len() implies {
            let i = #[trigger] all[k] as int;
            &&& lo <= i < cfg.len()
            &&& page_cand(cfg, i, mode, cur, buf, best)
        } by {
            if page_cand(cfg, lo, mode, cur, buf, best) {
                assert(all == seq![lo as usize] + rest);
                if k > 0 {
                    assert(all[k] == rest[k - 1]);
                }
            } else {
                assert(all == rest);
            }
        }
    }
}

impl<T, F, P, M, V> State<T, F, P, M, V> {
    /// While a binding of the hovered entry can still match the typed keys, no binding of
    /// the configuration runs.
    pub proof fn law_entry_bindings_shadow_config(&self, event: KeyEvent, ek: Seq<EntryKeymap<F>>)
        requires
            self.entry_tier(ek, self.last_key_event_buffer@.push(event)).len() > 0,
        ensures
            !(self.tap_outcome(event, ek).0 matches Some(KeyHit::Config(_))),
    {
    }

    /// When no entry binding is in play but a page binding can still match, the binding that
    /// runs (if any) is a page binding of the current mode, of the most specific pattern among
    /// those that can still match, and matching the current page: global bindings wait.
    pub proof fn law_page_bindings_shadow_global(&self, event: KeyEvent, ek: Seq<EntryKeymap<F>>)
        requires
            self.keymap_config@.len() <= usize::MAX,
            self.entry_tier(ek, self.last_key_event_buffer@.push(event)).len() == 0,
            page_hits(
                self.keymap_config@,
                self.current_mode,
                self.path(),
                self.last_key_event_buffer@.push(event),
            ).len() > 0,
        ensures
            self.tap_outcome(event, ek).0 matches Some(hit) ==> ({
                let buf = self.last_key_event_buffer@.push(event);
                let cfg = self.keymap_config@;
                &&& hit matches KeyHit::Config(i)
                &&& 0 <= hit->Config_0 < cfg.len()
                &&& page_hit(cfg[hit->Config_0 as int], self.current_mode, self.path(), buf)
                &&& best_priority(cfg, self.current_mode, self.path(), buf) == Some(
                    binding_priority(cfg[hit->Config_0 as int]),
                )
            }),
    {
        let buf = self.last_key_event_buffer@.push(event);
        let cfg = self.keymap_config@;
        match best_priority(cfg, self.current_mode, self.path(), buf) {
            Some(best) => {
                lemma_page_cands_are_cands(cfg, 0, self.current_mode, self.path(), buf, best);
                let pc = page_hits(cfg, self.current_mode, self.path(), buf);
                assert(pc[0] as int >= 0);
                assert(page_cand(cfg, pc[0] as int, self.current_mode, self.path(), buf, best));
            },
            None => {},
        }
    }
}

} // verus!
