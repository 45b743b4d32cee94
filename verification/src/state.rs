//! The application state: tabs, the current page and its path, cached pages and previews,
//! the navigation history, key bindings, notifications and the open dialogs.
//!
//! The state is generic over what the embedding application attaches to it: `T` is the
//! data behind a page entry, `F` a callback, `P` a rendered preview, `M` a notification
//! message and `V` the value behind a selection option.

use vstd::prelude::*;
use vstd::string::*;
use crate::dialogs::{ConfirmButton, ConfirmDialog, InputDialog, SelectDialog};
use crate::edit::{cursor_to_end_at, insert_at, remove_at};
use crate::text::{byte_len, byte_offset, char_index, utf8_width};
use crate::keys::KeyEvent;
use crate::keymap::{clone_path, strings_eq, strings_view, Keymap, Mode};
use crate::page::{filter_indices, lemma_filter_indices_bound, Page, PageEntry};
use crate::path_cache::{PathCache, PathView};

verus! {

broadcast use vstd::seq_lib::group_seq_properties;

/// A notification shown until `expiry` (milliseconds on the application's clock).
pub struct NotificationItem<M> {
    pub id: u64,
    pub message: M,
    pub expiry: u64,
}

/// How long a notification stays, in milliseconds.
pub const NOTIFICATION_MILLIS: u64 = 3000;

/// A page stored with its entries, filter and selection, or none.
pub open spec fn page_ok<T>(p: Option<Page<T>>) -> bool {
    p matches Some(pg) ==> pg.wf()
}

/// Every cached page is well formed and no path is cached twice.
pub open spec fn pages_ok<T>(c: PathCache<Page<T>>) -> bool {
    &&& c.wf()
    &&& forall|k: PathView| #[trigger] c.view().dom().contains(k) ==> c.view()[k].wf()
}

/// The selection after a page's entries are replaced: an old selection is kept while in
/// range, else moved to the last shown entry; without one the first entry is selected.
pub open spec fn restored_selection(old: Option<usize>, count: nat) -> Option<usize> {
    if count == 0 {
        None
    } else {
        match old {
            Some(i) => if i < count {
                Some(i)
            } else {
                Some((count - 1) as usize)
            },
            None => Some(0usize),
        }
    }
}

/// `new` is the page `old` (or a fresh page) with its entries replaced by `entries`.
pub open spec fn entries_set<T>(old: Option<Page<T>>, entries: Seq<PageEntry<T>>, new: Page<T>) -> bool {
    let filter = match old {
        Some(p) => p.list_filter@,
        None => Seq::<char>::empty(),
    };
    let sel = match old {
        Some(p) => p.selected,
        None => None,
    };
    &&& new.wf()
    &&& new.list@ == entries
    &&& new.list_filter@ == filter
    &&& new.selected == restored_selection(sel, new.filtered@.len())
}

/// `i` is the first shown position of `pg` whose entry has key `key`.
pub open spec fn first_shown_with_key<T>(pg: Page<T>, key: Seq<char>, i: int) -> bool {
    &&& 0 <= i < pg.filtered@.len()
    &&& pg.shown(i).key@ == key
    &&& forall|j: int| 0 <= j < i ==> #[trigger] pg.shown(j).key@ != key
}

/// The entry of `page` shown at its selection.
pub open spec fn hovered_of<T>(page: Option<Page<T>>) -> Option<PageEntry<T>> {
    match page {
        Some(p) => p.spec_selected_entry(),
        None => None,
    }
}

/// Pops `h` down to its most recent entry other than `cur`: what is left, and that entry.
pub open spec fn pop_until(h: Seq<PathView>, cur: PathView) -> (Seq<PathView>, Option<PathView>)
    decreases h.len(),
{
    if h.len() == 0 {
        (h, None)
    } else if h.last() != cur {
        (h.drop_last(), Some(h.last()))
    } else {
        pop_until(h.drop_last(), cur)
    }
}

/// Where a cursor at `current` among `len` shown entries lands after scrolling by `amount`:
/// it stops at either end, except that a single step past an end wraps to the other end.
pub open spec fn scrolled(current: int, len: int, amount: int) -> int {
    if amount > 0 {
        if amount == 1 && current == len - 1 {
            0
        } else if current + amount < len - 1 {
            current + amount
        } else {
            len - 1
        }
    } else {
        if amount == -1 && current == 0 {
            len - 1
        } else if current + amount > 0 {
            current + amount
        } else {
            0
        }
    }
}

/// Scrolling keeps the cursor on a shown entry. A single step down from the last entry
/// lands on the first and a single step up from the first lands on the last; any other
/// move goes `amount` entries on and stops at the first or last entry.
pub proof fn law_scroll_wraps_single_steps(current: int, len: int, amount: int)
    requires
        0 <= current < len,
    ensures
        0 <= scrolled(current, len, amount) < len,
        amount == 1 && current == len - 1 ==> scrolled(current, len, amount) == 0,
        amount == -1 && current == 0 ==> scrolled(current, len, amount) == len - 1,
        !(amount == 1 && current == len - 1) && !(amount == -1 && current == 0) ==> scrolled(current, len, amount)
            == (if current + amount < 0 {
            0
        } else if current + amount > len - 1 {
            len - 1
        } else {
            current + amount
        }),
{
}

/// A single step down and then a single step up come back to the same entry, and so do a
/// step up and then a step down.
pub proof fn law_single_steps_undo(current: int, len: int)
    requires
        0 <= current < len,
    ensures
        scrolled(scrolled(current, len, 1), len, -1) == current,
        scrolled(scrolled(current, len, -1), len, 1) == current,
{
}

/// The notifications of `s` other than those with identifier `id`, in order.
pub open spec fn without_id<M>(s: Seq<NotificationItem<M>>, id: u64) -> Seq<NotificationItem<M>>
    decreases s.len(),
{
    if s.len() == 0 {
        s
    } else {
        let rest = without_id(s.drop_last(), id);
        if s.last().id != id {
            rest.push(s.last())
        } else {
            rest
        }
    }
}

/// The notifications of `s` that are still shown at `now`, in order.
pub open spec fn unexpired<M>(s: Seq<NotificationItem<M>>, now: u64) -> Seq<NotificationItem<M>>
    decreases s.len(),
{
    if s.len() == 0 {
        s
    } else {
        let rest = unexpired(s.drop_last(), now);
        if s.last().expiry > now {
            rest.push(s.last())
        } else {
            rest
        }
    }
}

/// The state one tab keeps while another tab is active.
pub struct TabSnapshot<T, P> {
    pub id: u64,
    pub title: Option<String>,
    pub current_path: Vec<String>,
    pub current_page: Option<Page<T>>,
    pub current_preview: Option<P>,
    pub current_preview_path: Option<Vec<String>>,
    pub page_cache: PathCache<Page<T>>,
    pub preview_cache: PathCache<P>,
    pub navigation_history: Vec<Vec<String>>,
    pub navigation_forward_history: Vec<Vec<String>>,
}

impl<T, P> TabSnapshot<T, P> {
    pub open spec fn wf(&self) -> bool {
        &&& page_ok(self.current_page)
        &&& pages_ok(self.page_cache)
        &&& self.preview_cache.wf()
    }

    /// A tab opened on `path` that has loaded nothing yet.
    fn fresh(id: u64, title: Option<String>, path: Vec<String>) -> (t: TabSnapshot<T, P>)
        ensures
            t.wf(),
            t.id == id,
            t.title == title,
            t.current_path == path,
            t.current_page is None,
            t.current_preview is None,
            t.current_preview_path is None,
            t.page_cache.view() == Map::<PathView, Page<T>>::empty(),
            t.preview_cache.view() == Map::<PathView, P>::empty(),
            t.navigation_history@.len() == 0,
            t.navigation_forward_history@.len() == 0,
    {
        TabSnapshot {
            id,
            title,
            current_path: path,
            current_page: None,
            current_preview: None,
            current_preview_path: None,
            page_cache: PathCache::new(),
            preview_cache: PathCache::new(),
            navigation_history: Vec::new(),
            navigation_forward_history: Vec::new(),
        }
    }
}

/// The optional path as segments.
pub open spec fn opt_path_view(p: Option<Vec<String>>) -> Option<PathView> {
    match p {
        Some(v) => Some(strings_view(v@)),
        None => None,
    }
}

/// The title of a tab on `path`: its first segment, or `/` at the root.
pub open spec fn title_of(path: PathView) -> Seq<char> {
    if path.len() > 0 {
        path[0]
    } else {
        seq!['/']
    }
}

/// `t` holds what `s` shows, put away: its path, page, histories and caches, with the
/// current preview moved into the preview cache, and its title.
pub open spec fn saved_from<T, F, P, M, V>(t: TabSnapshot<T, P>, s: State<T, F, P, M, V>) -> bool {
    &&& strings_view(t.current_path@) == s.path()
    &&& t.current_page == s.current_page
    &&& paths_view(t.navigation_history@) == s.history()
    &&& paths_view(t.navigation_forward_history@) == s.forward_history()
    &&& t.page_cache.view() == s.cached_pages()
    &&& t.current_preview is None
    &&& t.current_preview_path is None
    &&& t.preview_cache.view() == s.stashed_previews()
    &&& t.title matches Some(title) && title@ == title_of(s.path())
}

/// `s` shows what `t` held.
pub open spec fn loaded_into<T, F, P, M, V>(t: TabSnapshot<T, P>, s: State<T, F, P, M, V>) -> bool {
    &&& s.path() == strings_view(t.current_path@)
    &&& s.current_page == t.current_page
    &&& s.history() == paths_view(t.navigation_history@)
    &&& s.forward_history() == paths_view(t.navigation_forward_history@)
    &&& s.cached_pages() == t.page_cache.view()
    &&& s.current_preview == t.current_preview
    &&& s.preview_path() == opt_path_view(t.current_preview_path)
    &&& s.cached_previews() == t.preview_cache.view()
}

/// Paths as sequences of segments.
pub open spec fn paths_view(h: Seq<Vec<String>>) -> Seq<PathView> {
    h.map_values(|p: Vec<String>| strings_view(p@))
}

/// The title of a tab on `path`.
fn tab_title(path: &[String]) -> (t: String)
    ensures
        t@ == title_of(strings_view(path@)),
{
    if path.len() > 0 {
        path[0].clone()
    } else {
        proof {
            reveal_strlit("/");
        }
        String::from_str("/")
    }
}

/// The whole application state.
pub struct State<T, F, P, M, V> {
    pub current_mode: Mode,
    pub tabs: Vec<TabSnapshot<T, P>>,
    pub active_tab: usize,
    pub next_tab_id: u64,
    pub current_path: Vec<String>,
    pub current_page: Option<Page<T>>,
    pub keymap_config: Vec<Keymap<F>>,
    pub last_key_event_buffer: Vec<KeyEvent>,
    pub current_preview: Option<P>,
    pub current_preview_path: Option<Vec<String>>,
    pub notifications: Vec<NotificationItem<M>>,
    pub next_notification_id: u64,
    /// Pages left by navigation, kept with their entries, filter and selection.
    pub page_cache: PathCache<Page<T>>,
    pub preview_cache: PathCache<P>,
    /// Pages visited before, most recent last.
    pub navigation_history: Vec<Vec<String>>,
    /// Pages left by going back, most recent last.
    pub navigation_forward_history: Vec<Vec<String>>,
    pub pre_reload_hooks: Vec<F>,
    pub pre_quit_hooks: Vec<F>,
    pub post_page_enter_hooks: Vec<F>,
    pub confirm_dialog: Option<ConfirmDialog<F>>,
    pub select_dialog: Option<SelectDialog<V, F>>,
    pub input_dialog: Option<InputDialog<F>>,
    /// Lines kept between the cursor and the edge of the list.
    pub scrolloff: usize,
}

impl<T, F, P, M, V> State<T, F, P, M, V> {
    /// Consistency of the state: the active tab exists, every page is well formed, no path
    /// is cached twice and the open dialogs are editable.
    pub open spec fn wf(&self) -> bool {
        &&& self.active_tab < self.tabs@.len()
        &&& forall|i: int| 0 <= i < self.tabs@.len() ==> #[trigger] self.tabs@[i].wf()
        &&& page_ok(self.current_page)
        &&& pages_ok(self.page_cache)
        &&& self.preview_cache.wf()
        &&& self.input_dialog matches Some(d) ==> d.wf()
        &&& self.select_dialog matches Some(d) ==> d.wf()
    }

    /// The current path as segments.
    pub open spec fn path(&self) -> PathView {
        strings_view(self.current_path@)
    }

    /// The back history, oldest first.
    pub open spec fn history(&self) -> Seq<PathView> {
        paths_view(self.navigation_history@)
    }

    /// The forward history, oldest first.
    pub open spec fn forward_history(&self) -> Seq<PathView> {
        paths_view(self.navigation_forward_history@)
    }

    /// Pages cached by path.
    pub open spec fn cached_pages(&self) -> Map<PathView, Page<T>> {
        self.page_cache.view()
    }

    /// Previews cached by path.
    pub open spec fn cached_previews(&self) -> Map<PathView, P> {
        self.preview_cache.view()
    }

    /// The path the current preview belongs to.
    pub open spec fn preview_path(&self) -> Option<PathView> {
        match self.current_preview_path {
            Some(p) => Some(strings_view(p@)),
            None => None,
        }
    }

    /// The snapshots of the tabs; the active one is stale while it is active.
    pub open spec fn tab_snapshots(&self) -> Seq<TabSnapshot<T, P>> {
        self.tabs@
    }

    /// Position of the active tab.
    pub open spec fn active(&self) -> int {
        self.active_tab as int
    }

    /// The entry under the cursor.
    pub open spec fn spec_hovered(&self) -> Option<PageEntry<T>> {
        hovered_of(self.current_page)
    }

    /// The previews cached once the current preview is put away: it joins the cache when it
    /// belongs to a path.
    pub open spec fn stashed_previews(&self) -> Map<PathView, P> {
        match (self.current_preview_path, self.current_preview) {
            (Some(p), Some(v)) => self.preview_cache.view().insert(strings_view(p@), v),
            _ => self.preview_cache.view(),
        }
    }

    /// Everything but navigation and previews is as in `o`.
    pub open spec fn same_settings(&self, o: &Self) -> bool {
        &&& self.current_mode == o.current_mode
        &&& self.keymap_config == o.keymap_config
        &&& self.notifications == o.notifications
        &&& self.pre_reload_hooks == o.pre_reload_hooks
        &&& self.pre_quit_hooks == o.pre_quit_hooks
        &&& self.post_page_enter_hooks == o.post_page_enter_hooks
        &&& self.confirm_dialog == o.confirm_dialog
        &&& self.select_dialog == o.select_dialog
        &&& self.input_dialog == o.input_dialog
        &&& self.scrolloff == o.scrolloff
        &&& self.tab_snapshots() == o.tab_snapshots()
        &&& self.active() == o.active()
        &&& self.next_tab_id == o.next_tab_id
        &&& self.next_notification_id == o.next_notification_id
    }

    /// Path, page, history and caches are as in `o`.
    pub open spec fn same_navigation(&self, o: &Self) -> bool {
        &&& self.path() == o.path()
        &&& self.current_page == o.current_page
        &&& self.history() == o.history()
        &&& self.forward_history() == o.forward_history()
        &&& self.cached_pages() == o.cached_pages()
    }

    /// The current preview, its path and the preview cache are as in `o`.
    pub open spec fn same_previews(&self, o: &Self) -> bool {
        &&& self.current_preview == o.current_preview
        &&& self.preview_path() == o.preview_path()
        &&& self.cached_previews() == o.cached_previews()
    }

    /// A state with one empty tab at the root path, in main mode.
    pub fn new() -> (s: Self)
        ensures
            s.wf(),
            s.current_mode == Mode::Main,
            s.path().len() == 0,
            s.current_page is None,
            s.keymap_config@.len() == 0,
            s.last_key_event_buffer@.len() == 0,
            s.current_preview is None,
            s.preview_path() is None,
            s.notifications@.len() == 0,
            s.history().len() == 0,
            s.forward_history().len() == 0,
            s.cached_pages() == Map::<PathView, Page<T>>::empty(),
            s.cached_previews() == Map::<PathView, P>::empty(),
            s.pre_reload_hooks@.len() == 0,
            s.pre_quit_hooks@.len() == 0,
            s.post_page_enter_hooks@.len() == 0,
            s.confirm_dialog is None,
            s.select_dialog is None,
            s.input_dialog is None,
            s.scrolloff == 5,
            s.tab_snapshots().len() == 1,
            s.tab_snapshots()[0].id == 0,
            s.active() == 0,
    {
        let mut tabs: Vec<TabSnapshot<T, P>> = Vec::new();
        tabs.push(TabSnapshot::fresh(0, None, Vec::new()));
        State {
            current_mode: Mode::Main,
            tabs,
            active_tab: 0,
            next_tab_id: 1,
            current_path: Vec::new(),
            current_page: None,
            keymap_config: Vec::new(),
            last_key_event_buffer: Vec::new(),
            current_preview: None,
            current_preview_path: None,
            notifications: Vec::new(),
            next_notification_id: 0,
            page_cache: PathCache::new(),
            preview_cache: PathCache::new(),
            navigation_history: Vec::new(),
            navigation_forward_history: Vec::new(),
            pre_reload_hooks: Vec::new(),
            pre_quit_hooks: Vec::new(),
            post_page_enter_hooks: Vec::new(),
            confirm_dialog: None,
            select_dialog: None,
            input_dialog: None,
            scrolloff: 5,
        }
    }

    fn clear_key_buffer(&mut self)
        ensures
            final(self).last_key_event_buffer@.len() == 0,
            final(self).wf() == old(self).wf(),
            final(self).same_settings(old(self)),
            final(self).same_navigation(old(self)),
            final(self).same_previews(old(self)),
    {
        self.last_key_event_buffer.clear();
    }

    /// Replaces the entries of `page`, keeping its filter and, where possible, its selection.
    fn set_page_entries(page: &mut Page<T>, entries: Vec<PageEntry<T>>)
        ensures
            entries_set(Some(*old(page)), entries@, *final(page)),
    {
        let old_selected = page.selected;
        page.list = entries;
        page.apply_filter();
        match old_selected {
            Some(old_idx) => {
                let n = page.filtered.len();
                if n == 0 {
                    page.selected = None;
                } else if old_idx < n {
                    page.selected = Some(old_idx);
                } else {
                    page.selected = Some(n - 1);
                }
            },
            None => {},
        }
    }

    /// Moves the current preview into the preview cache when it belongs to a path; either
    /// way no preview is current afterwards.
    fn stash_current_preview(&mut self)
        requires
            old(self).wf(),
        ensures
            final(self).wf(),
            final(self).current_preview is None,
            final(self).preview_path() is None,
            final(self).cached_previews() == old(self).stashed_previews(),
            final(self).same_settings(old(self)),
            final(self).same_navigation(old(self)),
            final(self).last_key_event_buffer == old(self).last_key_event_buffer,
    {
        let path = self.current_preview_path.take();
        let preview = self.current_preview.take();
        match (path, preview) {
            (Some(p), Some(v)) => {
                self.preview_cache.insert(p, v);
            },
            _ => {},
        }
    }

    /// Replaces the entries of the current page (see `set_entries_for_path`).
    pub fn set_current_page_entries(&mut self, entries: Vec<PageEntry<T>>)
        requires
            old(self).wf(),
        ensures
            final(self).wf(),
            final(self).last_key_event_buffer@.len() == 0,
            final(self).same_settings(old(self)),
            final(self).path() == old(self).path(),
            final(self).current_page matches Some(pg) && entries_set(old(self).current_page, entries@, pg),
            final(self).cached_pages() == old(self).cached_pages(),
            final(self).history() == old(self).history(),
            final(self).forward_history() == old(self).forward_history(),
            final(self).current_preview is None,
            final(self).preview_path() is None,
            final(self).cached_previews() == old(self).stashed_previews(),
    {
        let path = clone_path(self.current_path.as_slice());
        self.set_entries_for_path(path.as_slice(), Some(entries));
    }

    /// Gives the page at `path` new entries, or forgets it for `None`. For the current path
    /// the current page changes and its preview is put away; for another path the cached
    /// page does.
    pub fn set_entries_for_path(&mut self, path: &[String], entries: Option<Vec<PageEntry<T>>>)
        requires
            old(self).wf(),
        ensures
            final(self).wf(),
            final(self).last_key_event_buffer@.len() == 0,
            final(self).same_settings(old(self)),
            final(self).path() == old(self).path(),
            final(self).history() == old(self).history(),
            final(self).forward_history() == old(self).forward_history(),
            strings_view(path@) == old(self).path() ==> {
                &&& final(self).current_preview is None
                &&& final(self).preview_path() is None
                &&& final(self).cached_previews() == old(self).stashed_previews()
                &&& final(self).cached_pages() == old(self).cached_pages()
                &&& entries is None ==> final(self).current_page is None
                &&& entries matches Some(e) ==> final(self).current_page matches Some(pg) && entries_set(
                    old(self).current_page,
                    e@,
                    pg,
                )
            },
            strings_view(path@) != old(self).path() ==> {
                let k = strings_view(path@);
                &&& final(self).same_previews(old(self))
                &&& final(self).current_page == old(self).current_page
                &&& entries is None ==> final(self).cached_pages() == old(self).cached_pages().remove(k)
                &&& entries matches Some(e) ==> {
                    &&& final(self).cached_pages() == old(self).cached_pages().insert(
                        k,
                        final(self).cached_pages()[k],
                    )
                    &&& entries_set(
                        if old(self).cached_pages().dom().contains(k) {
                            Some(old(self).cached_pages()[k])
                        } else {
                            None
                        },
                        e@,
                        final(self).cached_pages()[k],
                    )
                }
            },
    {
        self.clear_key_buffer();
        if strings_eq(self.current_path.as_slice(), path) {
            self.stash_current_preview();
            match entries {
                Some(e) => {
                    let mut page = match self.current_page.take() {
                        Some(pg) => pg,
                        None => Page::new(),
                    };
                    Self::set_page_entries(&mut page, e);
                    self.current_page = Some(page);
                },
                None => {
                    self.current_page = None;
                },
            }
            return;
        }
        match entries {
            Some(e) => {
                let mut page = match self.page_cache.remove(path) {
                    Some(pg) => pg,
                    None => Page::new(),
                };
                Self::set_page_entries(&mut page, e);
                let ghost pg = page;
                self.page_cache.insert(clone_path(path), page);
                proof {
                    let k = strings_view(path@);
                    assert(self.page_cache.view().dom().contains(k));
                    assert(self.page_cache.view()[k] == pg);
                    assert(self.cached_pages() =~= old(self).cached_pages().insert(k, pg));
                }
            },
            None => {
                self.page_cache.remove(path);
            },
        }
    }

    /// The entries of the page at `path`: the current page's or a cached one's.
    pub fn entries_for_path(&self, path: &[String]) -> (r: Option<&Vec<PageEntry<T>>>)
        requires
            self.wf(),
        ensures
            strings_view(path@) == self.path() ==> match self.current_page {
                Some(pg) => r == Some(&pg.list),
                None => r is None,
            },
            strings_view(path@) != self.path() ==> if self.cached_pages().dom().contains(
                strings_view(path@),
            ) {
                r == Some(&self.cached_pages()[strings_view(path@)].list)
            } else {
                r is None
            },
    {
        if strings_eq(self.current_path.as_slice(), path) {
            match &self.current_page {
                Some(pg) => Some(&pg.list),
                None => None,
            }
        } else {
            match self.page_cache.get(path) {
                Some(pg) => Some(&pg.list),
                None => None,
            }
        }
    }

    /// The entry under the cursor.
    pub fn hovered(&self) -> (r: Option<&PageEntry<T>>)
        requires
            self.wf(),
        ensures
            r matches Some(e) ==> self.spec_hovered() == Some(*e),
            r is None ==> self.spec_hovered() is None,
    {
        match &self.current_page {
            Some(p) => p.selected_entry(),
            None => None,
        }
    }

    /// The path of the entry under the cursor: the current path and the entry's key.
    pub fn hovered_path(&self) -> (r: Option<Vec<String>>)
        requires
            self.wf(),
        ensures
            match self.spec_hovered() {
                Some(e) => r matches Some(v) && strings_view(v@) == self.path().push(e.key@),
                None => r is None,
            },
    {
        match self.hovered() {
            Some(e) => {
                let mut v = clone_path(self.current_path.as_slice());
                v.push(e.key.clone());
                proof {
                    assert(strings_view(v@) =~= self.path().push(e.key@));
                }
                Some(v)
            },
            None => None,
        }
    }

    /// Puts the cursor on the entry named by `path` when `path` is an entry of the current
    /// page; tells whether it did.
    pub fn set_hover_by_path(&mut self, path: &[String]) -> (r: bool)
        requires
            old(self).wf(),
        ensures
            final(self).wf(),
            final(self).last_key_event_buffer@.len() == 0,
            final(self).same_settings(old(self)),
            final(self).same_previews(old(self)),
            final(self).path() == old(self).path(),
            final(self).history() == old(self).history(),
            final(self).forward_history() == old(self).forward_history(),
            final(self).cached_pages() == old(self).cached_pages(),
            r == (path@.len() > 0 && strings_view(path@).drop_last() == old(self).path() && match old(
                self,
            ).current_page {
                Some(pg) => exists|i: int|
                    0 <= i < pg.filtered@.len() && #[trigger] pg.shown(i).key@ == path@.last()@,
                None => false,
            }),
            r ==> match (final(self).current_page, old(self).current_page) {
                (Some(pg), Some(opg)) => {
                    &&& pg.list == opg.list
                    &&& pg.filtered == opg.filtered
                    &&& pg.list_filter == opg.list_filter
                    &&& match pg.selected {
                        Some(i) => first_shown_with_key(pg, path@.last()@, i as int),
                        None => false,
                    }
                },
                _ => false,
            },
            !r ==> final(self).current_page == old(self).current_page,
    {
        self.clear_key_buffer();
        let n = path.len();
        if n == 0 {
            return false;
        }
        let parent = &path[0..n - 1];
        if !strings_eq(self.current_path.as_slice(), parent) {
            proof {
                assert(strings_view(parent@) =~= strings_view(path@).drop_last());
            }
            return false;
        }
        proof {
            assert(strings_view(parent@) =~= strings_view(path@).drop_last());
        }
        let key = &path[n - 1];
        match self.current_page.take() {
            None => false,
            Some(mut page) => {
                let _len = page.list.len();
                proof {
                    lemma_filter_indices_bound(page.list@, page.list_filter@);
                }
                let m = page.filtered.len();
                let mut i: usize = 0;
                let mut found = false;
                while i < m && !found
                    invariant
                        page.wf(),
                        m == page.filtered@.len(),
                        i <= m,
                        n == path@.len(),
                        n > 0,
                        key@ == path@.last()@,
                        forall|j: int|
                            0 <= j < page.filtered@.len() ==> #[trigger] page.filtered@[j]
                                < page.list@.len(),
                        forall|j: int| 0 <= j < i ==> #[trigger] page.shown(j).key@ != key@,
                        found ==> i < m && page.shown(i as int).key@ == key@,
                    decreases m - i + (if found { 0int } else { 1int }),
                {
                    if page.list[page.filtered[i]].key == *key {
                        found = true;
                    } else {
                        i += 1;
                    }
                }
                if found {
                    let ghost before = page;
                    page.selected = Some(i);
                    proof {
                        assert forall|j: int| 0 <= j < i implies #[trigger] page.shown(j).key@ != key@ by {
                            assert(page.shown(j) == before.shown(j));
                        }
                    }
                    self.current_page = Some(page);
                    true
                } else {
                    self.current_page = Some(page);
                    false
                }
            },
        }
    }

    /// The page cache once the current page is put away under the current path.
    pub open spec fn left_pages(&self) -> Map<PathView, Page<T>> {
        match self.current_page {
            Some(pg) => self.cached_pages().insert(self.path(), pg),
            None => self.cached_pages(),
        }
    }

    /// `new` is `self` after navigating to the other path `p`; `restored` tells whether the
    /// page at `p` came back from the cache. A loaded page left with `record` set joins the
    /// back history and clears the forward history.
    pub open spec fn moved_to(&self, p: PathView, record: bool, new: &Self, restored: bool) -> bool {
        let recorded = record && self.current_page is Some;
        let left = self.left_pages();
        &&& new.path() == p
        &&& new.history() == (if recorded {
            self.history().push(self.path())
        } else {
            self.history()
        })
        &&& new.forward_history() == (if recorded {
            Seq::<PathView>::empty()
        } else {
            self.forward_history()
        })
        &&& restored == left.dom().contains(p)
        &&& restored ==> new.current_page == Some(left[p]) && new.cached_pages() == left.remove(p)
        &&& !restored ==> new.current_page is None && new.cached_pages() == left
        &&& new.current_preview is None
        &&& new.preview_path() is None
        &&& new.cached_previews() == self.stashed_previews()
    }

    /// `new` is `self` after one step back: `r` is the most recent history entry other than
    /// the current path, which then joins the forward history.
    pub open spec fn stepped_back(&self, new: &Self, r: Option<PathView>) -> bool {
        let (rest, found) = pop_until(self.history(), self.path());
        &&& r == found
        &&& new.history() == rest
        &&& new.forward_history() == (if found is Some {
            self.forward_history().push(self.path())
        } else {
            self.forward_history()
        })
        &&& new.path() == self.path()
        &&& new.current_page == self.current_page
        &&& new.cached_pages() == self.cached_pages()
    }

    /// `new` is `self` after one step forward, the mirror of `stepped_back`.
    pub open spec fn stepped_forward(&self, new: &Self, r: Option<PathView>) -> bool {
        let (rest, found) = pop_until(self.forward_history(), self.path());
        &&& r == found
        &&& new.forward_history() == rest
        &&& new.history() == (if found is Some {
            self.history().push(self.path())
        } else {
            self.history()
        })
        &&& new.path() == self.path()
        &&& new.current_page == self.current_page
        &&& new.cached_pages() == self.cached_pages()
    }

    /// Navigates to `path`. Navigating to the current path changes nothing and tells whether
    /// a page is loaded. Otherwise the current page is cached under its path, and the page at
    /// `path` is restored from the cache when it is there (the result tells whether it was).
    pub fn go_to(&mut self, path: Vec<String>, record_history: bool) -> (r: bool)
        requires
            old(self).wf(),
        ensures
            final(self).wf(),
            final(self).last_key_event_buffer@.len() == 0,
            final(self).same_settings(old(self)),
            strings_view(path@) == old(self).path() ==> r == old(self).current_page is Some
                && final(self).same_navigation(old(self)) && final(self).same_previews(old(self)),
            strings_view(path@) != old(self).path() ==> old(self).moved_to(
                strings_view(path@),
                record_history,
                final(self),
                r,
            ),
    {
        let ghost s0 = *self;
        self.clear_key_buffer();
        if strings_eq(path.as_slice(), self.current_path.as_slice()) {
            return self.current_page.is_some();
        }
        if record_history && self.current_page.is_some() {
            let cur = clone_path(self.current_path.as_slice());
            self.navigation_history.push(cur);
            self.navigation_forward_history.clear();
            proof {
                assert(self.history() =~= s0.history().push(s0.path()));
                assert(self.forward_history() =~= Seq::<PathView>::empty());
            }
        }
        self.stash_current_preview();
        match self.current_page.take() {
            Some(page) => {
                let cur = clone_path(self.current_path.as_slice());
                self.page_cache.insert(cur, page);
            },
            None => {},
        }
        proof {
            assert(self.cached_pages() =~= s0.left_pages());
        }
        self.current_path = path;
        let ghost p = strings_view(path@);
        match self.page_cache.remove(self.current_path.as_slice()) {
            Some(page) => {
                self.current_page = Some(page);
                true
            },
            None => {
                proof {
                    assert(self.cached_pages() =~= old(self).left_pages());
                }
                false
            },
        }
    }

    /// Steps back: pops the history down to the most recent path other than the current one
    /// and returns it; the current path joins the forward history.
    pub fn pop_history_path(&mut self) -> (r: Option<Vec<String>>)
        requires
            old(self).wf(),
        ensures
            final(self).wf(),
            final(self).last_key_event_buffer@.len() == 0,
            final(self).same_settings(old(self)),
            final(self).same_previews(old(self)),
            old(self).stepped_back(
                final(self),
                match r {
                    Some(v) => Some(strings_view(v@)),
                    None => None,
                },
            ),
    {
        self.clear_key_buffer();
        let ghost s0 = *self;
        while self.navigation_history.len() > 0
            invariant
                self.wf(),
                self.same_settings(&s0),
                self.same_previews(&s0),
                s0.same_settings(old(self)),
                s0.same_previews(old(self)),
                s0.history() == old(self).history(),
                s0.forward_history() == old(self).forward_history(),
                s0.path() == old(self).path(),
                s0.current_page == old(self).current_page,
                s0.cached_pages() == old(self).cached_pages(),
                self.last_key_event_buffer@.len() == 0,
                self.path() == s0.path(),
                self.current_page == s0.current_page,
                self.cached_pages() == s0.cached_pages(),
                self.forward_history() == s0.forward_history(),
                pop_until(self.history(), self.path()) == pop_until(s0.history(), s0.path()),
            decreases self.navigation_history@.len(),
        {
            let ghost h = self.history();
            let p = self.navigation_history.pop().unwrap();
            proof {
                assert(self.history() =~= h.drop_last());
                assert(h.last() == strings_view(p@));
            }
            if !strings_eq(p.as_slice(), self.current_path.as_slice()) {
                let cur = clone_path(self.current_path.as_slice());
                self.navigation_forward_history.push(cur);
                proof {
                    assert(self.forward_history() =~= s0.forward_history().push(s0.path()));
                }
                return Some(p);
            }
        }
        None
    }

    /// Steps forward, the mirror of `pop_history_path`.
    pub fn pop_forward_history_path(&mut self) -> (r: Option<Vec<String>>)
        requires
            old(self).wf(),
        ensures
            final(self).wf(),
            final(self).last_key_event_buffer@.len() == 0,
            final(self).same_settings(old(self)),
            final(self).same_previews(old(self)),
            old(self).stepped_forward(
                final(self),
                match r {
                    Some(v) => Some(strings_view(v@)),
                    None => None,
                },
            ),
    {
        self.clear_key_buffer();
        let ghost s0 = *self;
        while self.navigation_forward_history.len() > 0
            invariant
                self.wf(),
                self.same_settings(&s0),
                self.same_previews(&s0),
                s0.same_settings(old(self)),
                s0.same_previews(old(self)),
                s0.history() == old(self).history(),
                s0.forward_history() == old(self).forward_history(),
                s0.path() == old(self).path(),
                s0.current_page == old(self).current_page,
                s0.cached_pages() == old(self).cached_pages(),
                self.last_key_event_buffer@.len() == 0,
                self.path() == s0.path(),
                self.current_page == s0.current_page,
                self.cached_pages() == s0.cached_pages(),
                self.history() == s0.history(),
                pop_until(self.forward_history(), self.path()) == pop_until(
                    s0.forward_history(),
                    s0.path(),
                ),
            decreases self.navigation_forward_history@.len(),
        {
            let ghost h = self.forward_history();
            let p = self.navigation_forward_history.pop().unwrap();
            proof {
                assert(self.forward_history() =~= h.drop_last());
                assert(h.last() == strings_view(p@));
            }
            if !strings_eq(p.as_slice(), self.current_path.as_slice()) {
                let cur = clone_path(self.current_path.as_slice());
                self.navigation_history.push(cur);
                proof {
                    assert(self.history() =~= s0.history().push(s0.path()));
                }
                return Some(p);
            }
        }
        None
    }

    /// Forgets the cached page of the current path.
    pub fn clear_current_cache(&mut self)
        requires
            old(self).wf(),
        ensures
            final(self).wf(),
            final(self).cached_pages() == old(self).cached_pages().remove(old(self).path()),
            final(self).same_settings(old(self)),
            final(self).same_previews(old(self)),
            final(self).path() == old(self).path(),
            final(self).current_page == old(self).current_page,
            final(self).history() == old(self).history(),
            final(self).forward_history() == old(self).forward_history(),
            final(self).last_key_event_buffer == old(self).last_key_event_buffer,
    {
        let cur = clone_path(self.current_path.as_slice());
        self.page_cache.remove(cur.as_slice());
    }

    /// Forgets the cached page of `path`.
    pub fn clear_cache_for_path(&mut self, path: &[String])
        requires
            old(self).wf(),
        ensures
            final(self).wf(),
            final(self).cached_pages() == old(self).cached_pages().remove(strings_view(path@)),
            final(self).same_settings(old(self)),
            final(self).same_previews(old(self)),
            final(self).path() == old(self).path(),
            final(self).current_page == old(self).current_page,
            final(self).history() == old(self).history(),
            final(self).forward_history() == old(self).forward_history(),
            final(self).last_key_event_buffer == old(self).last_key_event_buffer,
    {
        self.page_cache.remove(path);
    }

    /// The path of the entry under the cursor.
    pub open spec fn hovered_path_view(&self) -> Option<PathView> {
        match self.spec_hovered() {
            Some(e) => Some(self.path().push(e.key@)),
            None => None,
        }
    }

    /// Makes the preview of the entry under the cursor current: it stays when already
    /// current, else comes from the preview cache; tells whether a preview is current.
    pub fn restore_preview_for_hovered(&mut self) -> (r: bool)
        requires
            old(self).wf(),
        ensures
            final(self).wf(),
            final(self).same_settings(old(self)),
            final(self).same_navigation(old(self)),
            final(self).last_key_event_buffer == old(self).last_key_event_buffer,
            match old(self).hovered_path_view() {
                None => !r && final(self).current_preview is None && final(self).preview_path() is None
                    && final(self).cached_previews() == old(self).stashed_previews(),
                Some(hp) => if old(self).current_preview is Some && old(self).preview_path() == Some(
                    hp,
                ) {
                    r && final(self).same_previews(old(self))
                } else {
                    let st = old(self).stashed_previews();
                    &&& r == st.dom().contains(hp)
                    &&& r ==> final(self).current_preview == Some(st[hp])
                        && final(self).preview_path() == Some(hp) && final(self).cached_previews()
                        == st.remove(hp)
                    &&& !r ==> final(self).current_preview is None && final(self).preview_path() is None
                        && final(self).cached_previews() == st
                },
            },
    {
        let hovered_path = match self.hovered_path() {
            Some(hp) => hp,
            None => {
                self.stash_current_preview();
                return false;
            },
        };
        let same = match &self.current_preview_path {
            Some(cp) => strings_eq(cp.as_slice(), hovered_path.as_slice()),
            None => false,
        };
        if self.current_preview.is_some() && same {
            return true;
        }
        self.stash_current_preview();
        match self.preview_cache.remove(hovered_path.as_slice()) {
            Some(preview) => {
                self.current_preview = Some(preview);
                self.current_preview_path = Some(hovered_path);
                true
            },
            None => {
                proof {
                    assert(self.cached_previews() =~= old(self).stashed_previews());
                }
                false
            },
        }
    }

    /// Records `preview` as the preview of `path`. When `path` is the current preview's or
    /// the hovered entry's, it becomes the current preview; otherwise it is cached (or, for
    /// `None`, dropped from the cache).
    pub fn set_preview_for_path(&mut self, path: &[String], preview: Option<P>)
        requires
            old(self).wf(),
        ensures
            final(self).wf(),
            final(self).same_settings(old(self)),
            final(self).same_navigation(old(self)),
            final(self).last_key_event_buffer == old(self).last_key_event_buffer,
            ({
                let k = strings_view(path@);
                let is_current = old(self).preview_path() == Some(k) || old(self).hovered_path_view()
                    == Some(k);
                &&& is_current ==> {
                    let base = if old(self).preview_path() == Some(k) {
                        old(self).cached_previews()
                    } else {
                        old(self).stashed_previews()
                    };
                    &&& final(self).cached_previews() == base.remove(k)
                    &&& final(self).current_preview == preview
                    &&& final(self).preview_path() == (if preview is Some {
                        Some(k)
                    } else {
                        None
                    })
                }
                &&& !is_current ==> {
                    &&& final(self).current_preview == old(self).current_preview
                    &&& final(self).preview_path() == old(self).preview_path()
                    &&& final(self).cached_previews() == match preview {
                        Some(v) => old(self).cached_previews().insert(k, v),
                        None => old(self).cached_previews().remove(k),
                    }
                }
            }),
    {
        let at_current = match &self.current_preview_path {
            Some(cp) => strings_eq(cp.as_slice(), path),
            None => false,
        };
        let at_hovered = match self.hovered_path() {
            Some(hp) => strings_eq(hp.as_slice(), path),
            None => false,
        };
        if at_current || at_hovered {
            if !at_current {
                self.stash_current_preview();
            }
            self.preview_cache.remove(path);
            let has = preview.is_some();
            self.current_preview = preview;
            self.current_preview_path = if has {
                Some(clone_path(path))
            } else {
                None
            };
            return;
        }
        match preview {
            Some(v) => {
                self.preview_cache.insert(clone_path(path), v);
            },
            None => {
                self.preview_cache.remove(path);
            },
        }
    }

    /// Drops the preview of `path`, current or cached.
    pub fn clear_preview_for_path(&mut self, path: &[String])
        requires
            old(self).wf(),
        ensures
            final(self).wf(),
            final(self).same_settings(old(self)),
            final(self).same_navigation(old(self)),
            final(self).last_key_event_buffer == old(self).last_key_event_buffer,
            final(self).cached_previews() == old(self).cached_previews().remove(strings_view(path@)),
            old(self).preview_path() == Some(strings_view(path@)) ==> final(self).current_preview is None
                && final(self).preview_path() is None,
            old(self).preview_path() != Some(strings_view(path@)) ==> final(self).current_preview
                == old(self).current_preview && final(self).preview_path() == old(self).preview_path(),
    {
        let at_current = match &self.current_preview_path {
            Some(cp) => strings_eq(cp.as_slice(), path),
            None => false,
        };
        if at_current {
            self.current_preview = None;
            self.current_preview_path = None;
        }
        self.preview_cache.remove(path);
    }

    /// Moves the cursor by `amount` shown entries (see `scrolled`).
    pub fn scroll_by(&mut self, amount: i16)
        requires
            old(self).wf(),
        ensures
            final(self).wf(),
            final(self).last_key_event_buffer@.len() == 0,
            final(self).same_settings(old(self)),
            final(self).same_previews(old(self)),
            final(self).path() == old(self).path(),
            final(self).history() == old(self).history(),
            final(self).forward_history() == old(self).forward_history(),
            final(self).cached_pages() == old(self).cached_pages(),
            match old(self).current_page {
                Some(pg) => final(self).current_page matches Some(npg) && npg.list == pg.list
                    && npg.filtered == pg.filtered && npg.list_filter == pg.list_filter && (if pg.filtered@.len()
                    == 0 {
                    npg.selected == pg.selected
                } else {
                    npg.selected == Some(
                        scrolled(
                            match pg.selected {
                                Some(i) => i as int,
                                None => 0,
                            },
                            pg.filtered@.len() as int,
                            amount as int,
                        ) as usize,
                    )
                }),
                None => final(self).current_page is None,
            },
    {
        self.clear_key_buffer();
        match self.current_page.take() {
            None => {},
            Some(mut page) => {
                let len = page.filtered.len();
                if len > 0 {
                    let current = match page.selected {
                        Some(i) => i,
                        None => 0,
                    };
                    let new = if amount > 0 {
                        let a = amount as usize;
                        if amount == 1 && current == len - 1 {
                            0
                        } else if a < len - 1 - current {
                            current + a
                        } else {
                            len - 1
                        }
                    } else {
                        let a: usize = if amount == i16::MIN {
                            32768
                        } else {
                            (-amount) as usize
                        };
                        if amount == -1 && current == 0 {
                            len - 1
                        } else if a < current {
                            current - a
                        } else {
                            0
                        }
                    };
                    page.selected = Some(new);
                }
                self.current_page = Some(page);
            },
        }
    }

    /// Puts the cursor back on the entry with key `key` after the page was listed anew; when
    /// no shown entry has that key and nothing is selected, selects the first one. Tells
    /// whether the selection changed.
    pub fn select_entry_by_key(&mut self, key: &String) -> (changed: bool)
        requires
            old(self).wf(),
        ensures
            final(self).wf(),
            final(self).same_settings(old(self)),
            final(self).same_previews(old(self)),
            final(self).last_key_event_buffer == old(self).last_key_event_buffer,
            final(self).path() == old(self).path(),
            final(self).history() == old(self).history(),
            final(self).forward_history() == old(self).forward_history(),
            final(self).cached_pages() == old(self).cached_pages(),
            match old(self).current_page {
                None => !changed && final(self).current_page is None,
                Some(pg) => match final(self).current_page {
                    Some(npg) => {
                        &&& npg.list == pg.list
                        &&& npg.filtered == pg.filtered
                        &&& npg.list_filter == pg.list_filter
                        &&& changed == (npg.selected != pg.selected)
                        &&& if exists|i: int|
                            0 <= i < pg.filtered@.len() && #[trigger] pg.shown(i).key@ == key@ {
                            npg.selected matches Some(i) && first_shown_with_key(npg, key@, i as int)
                        } else if pg.filtered@.len() > 0 && pg.selected is None {
                            npg.selected == Some(0usize)
                        } else {
                            npg.selected == pg.selected
                        }
                    },
                    None => false,
                },
            },
    {
        match self.current_page.take() {
            None => false,
            Some(mut page) => {
                let _len = page.list.len();
                proof {
                    lemma_filter_indices_bound(page.list@, page.list_filter@);
                }
                let m = page.filtered.len();
                let mut i: usize = 0;
                let mut found = false;
                while i < m && !found
                    invariant
                        page.wf(),
                        m == page.filtered@.len(),
                        i <= m,
                        forall|j: int|
                            0 <= j < page.filtered@.len() ==> #[trigger] page.filtered@[j]
                                < page.list@.len(),
                        forall|j: int| 0 <= j < i ==> #[trigger] page.shown(j).key@ != key@,
                        found ==> i < m && page.shown(i as int).key@ == key@,
                    decreases m - i + (if found { 0int } else { 1int }),
                {
                    if page.list[page.filtered[i]].key == *key {
                        found = true;
                    } else {
                        i += 1;
                    }
                }
                let before = page.selected;
                let ghost old_page = page;
                let changed = if found {
                    let ch = match before {
                        Some(b) => b != i,
                        None => true,
                    };
                    page.selected = Some(i);
                    proof {
                        assert forall|j: int| 0 <= j < i implies #[trigger] page.shown(j).key@ != key@ by {
                            assert(page.shown(j) == old_page.shown(j));
                        }
                    }
                    ch
                } else if m > 0 && before.is_none() {
                    page.selected = Some(0);
                    true
                } else {
                    false
                };
                self.current_page = Some(page);
                changed
            },
        }
    }

    /// Shows `message` until `now` plus three seconds; returns its identifier.
    pub fn push_notification(&mut self, message: M, now: u64) -> (id: u64)
        requires
            old(self).wf(),
        ensures
            final(self).wf(),
            id == old(self).next_notification_id,
            final(self).next_notification_id == if id < u64::MAX {
                (id + 1) as u64
            } else {
                id
            },
            final(self).notifications@ == old(self).notifications@.push(
                NotificationItem {
                    id,
                    message,
                    expiry: if now <= u64::MAX - NOTIFICATION_MILLIS {
                        (now + NOTIFICATION_MILLIS) as u64
                    } else {
                        u64::MAX
                    },
                },
            ),
            final(self).same_navigation(old(self)),
            final(self).same_previews(old(self)),
            final(self).last_key_event_buffer == old(self).last_key_event_buffer,
            final(self).current_mode == old(self).current_mode,
            final(self).keymap_config == old(self).keymap_config,
            final(self).input_dialog == old(self).input_dialog,
    {
        let id = self.next_notification_id;
        self.next_notification_id = self.next_notification_id.saturating_add(1);
        let expiry = now.saturating_add(NOTIFICATION_MILLIS);
        self.notifications.push(NotificationItem { id, message, expiry });
        id
    }

    /// Removes the notification `id`; tells whether there was one.
    pub fn expire_notification(&mut self, id: u64) -> (r: bool)
        requires
            old(self).wf(),
        ensures
            final(self).wf(),
            final(self).notifications@ == without_id(old(self).notifications@, id),
            r == (final(self).notifications@.len() != old(self).notifications@.len()),
            final(self).same_navigation(old(self)),
            final(self).same_previews(old(self)),
            final(self).last_key_event_buffer == old(self).last_key_event_buffer,
            final(self).current_mode == old(self).current_mode,
            final(self).keymap_config == old(self).keymap_config,
            final(self).input_dialog == old(self).input_dialog,
    {
        let before = self.notifications.len();
        let mut rest: Vec<NotificationItem<M>> = Vec::new();
        std::mem::swap(&mut rest, &mut self.notifications);
        let ghost orig = rest@;
        let mut i: usize = 0;
        while rest.len() > 0
            invariant
                self.wf(),
                rest@ == orig.skip(i as int),
                i <= orig.len(),
                before == orig.len(),
                self.notifications@ == without_id(orig.take(i as int), id),
                self.same_navigation(old(self)),
                self.same_previews(old(self)),
                self.last_key_event_buffer == old(self).last_key_event_buffer,
                self.current_mode == old(self).current_mode,
                self.keymap_config == old(self).keymap_config,
                self.input_dialog == old(self).input_dialog,
            decreases rest@.len(),
        {
            let item = rest.remove(0);
            proof {
                assert(orig.take(i + 1).drop_last() =~= orig.take(i as int));
                assert(orig.take(i + 1).last() == item);
                assert(rest@ =~= orig.skip(i + 1));
            }
            if item.id != id {
                self.notifications.push(item);
            }
            i += 1;
        }
        proof {
            assert(orig.take(i as int) =~= orig);
        }
        self.notifications.len() != before
    }

    /// Removes the notifications whose time is up at `now`; tells whether any was removed.
    pub fn prune_expired_notifications(&mut self, now: u64) -> (r: bool)
        requires
            old(self).wf(),
        ensures
            final(self).wf(),
            final(self).notifications@ == unexpired(old(self).notifications@, now),
            r == (final(self).notifications@.len() != old(self).notifications@.len()),
            final(self).same_navigation(old(self)),
            final(self).same_previews(old(self)),
            final(self).last_key_event_buffer == old(self).last_key_event_buffer,
            final(self).current_mode == old(self).current_mode,
            final(self).keymap_config == old(self).keymap_config,
            final(self).input_dialog == old(self).input_dialog,
    {
        let before = self.notifications.len();
        let mut rest: Vec<NotificationItem<M>> = Vec::new();
        std::mem::swap(&mut rest, &mut self.notifications);
        let ghost orig = rest@;
        let mut i: usize = 0;
        while rest.len() > 0
            invariant
                self.wf(),
                rest@ == orig.skip(i as int),
                i <= orig.len(),
                before == orig.len(),
                self.notifications@ == unexpired(orig.take(i as int), now),
                self.same_navigation(old(self)),
                self.same_previews(old(self)),
                self.last_key_event_buffer == old(self).last_key_event_buffer,
                self.current_mode == old(self).current_mode,
                self.keymap_config == old(self).keymap_config,
                self.input_dialog == old(self).input_dialog,
            decreases rest@.len(),
        {
            let item = rest.remove(0);
            proof {
                assert(orig.take(i + 1).drop_last() =~= orig.take(i as int));
                assert(orig.take(i + 1).last() == item);
                assert(rest@ =~= orig.skip(i + 1));
            }
            if item.expiry > now {
                self.notifications.push(item);
            }
            i += 1;
        }
        proof {
            assert(orig.take(i as int) =~= orig);
        }
        self.notifications.len() != before
    }

    /// Opens a confirmation dialog.
    pub fn show_confirm_dialog(
        &mut self,
        title: Option<String>,
        prompt: String,
        on_confirm: F,
        on_cancel: Option<F>,
    )
        requires
            old(self).wf(),
        ensures
            final(self).wf(),
            final(self).confirm_dialog matches Some(d) && d.title == title && d.prompt == prompt
                && d.on_confirm == on_confirm && d.on_cancel == on_cancel && d.selected_button
                == ConfirmButton::Yes,
            final(self).same_navigation(old(self)),
            final(self).same_previews(old(self)),
            final(self).current_mode == old(self).current_mode,
            final(self).input_dialog == old(self).input_dialog,
            final(self).last_key_event_buffer == old(self).last_key_event_buffer,
    {
        self.confirm_dialog = Some(ConfirmDialog::new(title, prompt, on_confirm, on_cancel));
    }

    /// Opens the input dialog holding `value` and switches to input mode; the mode in force
    /// comes back when the dialog closes.
    pub fn show_input_dialog(
        &mut self,
        prompt: String,
        placeholder: String,
        value: String,
        on_submit: F,
        on_cancel: F,
        on_change: F,
    )
        requires
            old(self).wf(),
            byte_len(value@) <= isize::MAX,
        ensures
            final(self).wf(),
            final(self).current_mode == Mode::Input,
            final(self).last_key_event_buffer@.len() == 0,
            final(self).input_dialog matches Some(d) && d.previous_mode == old(self).current_mode
                && d.prompt == prompt && d.placeholder == placeholder && d.text@ == value@
                && d.cursor_position == byte_len(value@) && d.on_submit == on_submit && d.on_cancel
                == on_cancel && d.on_change == on_change,
            final(self).same_navigation(old(self)),
            final(self).same_previews(old(self)),
            final(self).keymap_config == old(self).keymap_config,
    {
        self.clear_key_buffer();
        let previous_mode = self.current_mode;
        self.current_mode = Mode::Input;
        self.input_dialog = Some(
            InputDialog::new(
                previous_mode,
                prompt,
                placeholder,
                value,
                on_submit,
                on_cancel,
                on_change,
            ),
        );
    }

    /// Closes the input dialog, if open, restoring the mode it was opened in; returns it.
    pub fn close_input_dialog(&mut self) -> (r: Option<InputDialog<F>>)
        requires
            old(self).wf(),
        ensures
            final(self).wf(),
            r == old(self).input_dialog,
            final(self).input_dialog is None,
            final(self).current_mode == match old(self).input_dialog {
                Some(d) => d.previous_mode,
                None => old(self).current_mode,
            },
            final(self).last_key_event_buffer@.len() == 0,
            final(self).same_navigation(old(self)),
            final(self).same_previews(old(self)),
            final(self).keymap_config == old(self).keymap_config,
    {
        let dialog = self.input_dialog.take();
        match &dialog {
            Some(d) => {
                self.current_mode = d.previous_mode;
            },
            None => {},
        }
        self.clear_key_buffer();
        dialog
    }

    /// Closes the input dialog and hands back its text and submit callback.
    pub fn input_dialog_submit(&mut self) -> (r: Option<(String, F)>)
        requires
            old(self).wf(),
        ensures
            final(self).wf(),
            final(self).input_dialog is None,
            match old(self).input_dialog {
                Some(d) => r == Some((d.text, d.on_submit)) && final(self).current_mode
                    == d.previous_mode,
                None => r is None && final(self).current_mode == old(self).current_mode,
            },
            final(self).last_key_event_buffer@.len() == 0,
            final(self).same_navigation(old(self)),
            final(self).same_previews(old(self)),
    {
        match self.close_input_dialog() {
            Some(d) => Some((d.text, d.on_submit)),
            None => None,
        }
    }

    /// Closes the input dialog and hands back its cancel callback.
    pub fn input_dialog_cancel(&mut self) -> (r: Option<F>)
        requires
            old(self).wf(),
        ensures
            final(self).wf(),
            final(self).input_dialog is None,
            match old(self).input_dialog {
                Some(d) => r == Some(d.on_cancel) && final(self).current_mode == d.previous_mode,
                None => r is None && final(self).current_mode == old(self).current_mode,
            },
            final(self).last_key_event_buffer@.len() == 0,
            final(self).same_navigation(old(self)),
            final(self).same_previews(old(self)),
    {
        match self.close_input_dialog() {
            Some(d) => Some(d.on_cancel),
            None => None,
        }
    }

    /// The text of the input dialog.
    pub fn input_dialog_get_text(&self) -> (r: Option<String>)
        ensures
            match self.input_dialog {
                Some(d) => r matches Some(t) && t@ == d.text@,
                None => r is None,
            },
    {
        match &self.input_dialog {
            Some(d) => Some(d.text.clone()),
            None => None,
        }
    }

    /// Moves the input cursor one character left; tells whether a dialog is open.
    pub fn input_dialog_cursor_left(&mut self) -> (r: bool)
        requires
            old(self).wf(),
        ensures
            final(self).wf(),
            r == old(self).input_dialog is Some,
            match (old(self).input_dialog, final(self).input_dialog) {
                (Some(d), Some(nd)) => nd.text@ == d.text@ && nd.previous_mode == d.previous_mode && (d.cursor_position == 0
                    ==> nd.cursor_position == 0) && (d.cursor_position > 0 ==> nd.cursor_position
                    == byte_offset(d.text@, char_index(d.text@, d.cursor_position as int) - 1)),
                (None, None) => true,
                _ => false,
            },
            final(self).same_navigation(old(self)),
            final(self).same_previews(old(self)),
            final(self).current_mode == old(self).current_mode,
            final(self).last_key_event_buffer == old(self).last_key_event_buffer,
            final(self).keymap_config == old(self).keymap_config,
    {
        match self.input_dialog.take() {
            Some(mut d) => {
                d.cursor_left();
                self.input_dialog = Some(d);
                true
            },
            None => false,
        }
    }

    /// Moves the input cursor one character right; tells whether a dialog is open.
    pub fn input_dialog_cursor_right(&mut self) -> (r: bool)
        requires
            old(self).wf(),
        ensures
            final(self).wf(),
            r == old(self).input_dialog is Some,
            match (old(self).input_dialog, final(self).input_dialog) {
                (Some(d), Some(nd)) => nd.text@ == d.text@ && nd.previous_mode == d.previous_mode && (d.cursor_position == byte_len(d.text@)
                    ==> nd.cursor_position == d.cursor_position) && (d.cursor_position < byte_len(
                    d.text@,
                ) ==> nd.cursor_position == byte_offset(
                    d.text@,
                    char_index(d.text@, d.cursor_position as int) + 1,
                )),
                (None, None) => true,
                _ => false,
            },
            final(self).same_navigation(old(self)),
            final(self).same_previews(old(self)),
            final(self).current_mode == old(self).current_mode,
            final(self).last_key_event_buffer == old(self).last_key_event_buffer,
            final(self).keymap_config == old(self).keymap_config,
    {
        match self.input_dialog.take() {
            Some(mut d) => {
                d.cursor_right();
                self.input_dialog = Some(d);
                true
            },
            None => false,
        }
    }

    /// Moves the input cursor to the start; tells whether a dialog is open.
    pub fn input_dialog_cursor_to_start(&mut self) -> (r: bool)
        requires
            old(self).wf(),
        ensures
            final(self).wf(),
            r == old(self).input_dialog is Some,
            match (old(self).input_dialog, final(self).input_dialog) {
                (Some(d), Some(nd)) => nd.text@ == d.text@ && nd.cursor_position == 0,
                (None, None) => true,
                _ => false,
            },
            final(self).same_navigation(old(self)),
            final(self).same_previews(old(self)),
            final(self).current_mode == old(self).current_mode,
    {
        match self.input_dialog.take() {
            Some(mut d) => {
                d.cursor_to_start();
                self.input_dialog = Some(d);
                true
            },
            None => false,
        }
    }

    /// Moves the input cursor to the end; tells whether a dialog is open.
    pub fn input_dialog_cursor_to_end(&mut self) -> (r: bool)
        requires
            old(self).wf(),
        ensures
            final(self).wf(),
            r == old(self).input_dialog is Some,
            match (old(self).input_dialog, final(self).input_dialog) {
                (Some(d), Some(nd)) => nd.text@ == d.text@ && nd.cursor_position == byte_len(d.text@),
                (None, None) => true,
                _ => false,
            },
            final(self).same_navigation(old(self)),
            final(self).same_previews(old(self)),
            final(self).current_mode == old(self).current_mode,
    {
        match self.input_dialog.take() {
            Some(mut d) => {
                d.cursor_to_end();
                self.input_dialog = Some(d);
                true
            },
            None => false,
        }
    }

    /// Switches the highlighted button of the confirmation dialog.
    pub fn toggle_confirm_button(&mut self)
        requires
            old(self).wf(),
        ensures
            final(self).wf(),
            match (old(self).confirm_dialog, final(self).confirm_dialog) {
                (Some(d), Some(nd)) => nd.selected_button != d.selected_button && nd.title == d.title
                    && nd.prompt == d.prompt && nd.on_confirm == d.on_confirm && nd.on_cancel
                    == d.on_cancel,
                (None, None) => true,
                _ => false,
            },
            final(self).same_navigation(old(self)),
            final(self).same_previews(old(self)),
            final(self).current_mode == old(self).current_mode,
            final(self).input_dialog == old(self).input_dialog,
    {
        match self.confirm_dialog.take() {
            Some(mut d) => {
                d.selected_button = d.selected_button.toggle();
                self.confirm_dialog = Some(d);
            },
            None => {},
        }
    }

    /// The highlighted button of the confirmation dialog.
    pub fn get_selected_button(&self) -> (r: Option<ConfirmButton>)
        ensures
            r == match self.confirm_dialog {
                Some(d) => Some(d.selected_button),
                None => None::<ConfirmButton>,
            },
    {
        match &self.confirm_dialog {
            Some(d) => Some(d.selected_button),
            None => None,
        }
    }

    /// Lines kept between the cursor and the edge of the list.
    pub fn scrolloff(&self) -> (r: usize)
        ensures
            r == self.scrolloff,
    {
        self.scrolloff
    }

    /// `new` is `self` after switching to tab `index`; `r` tells whether it switched.
    pub open spec fn switched_to(&self, index: int, new: &Self, r: bool) -> bool {
        &&& r == (0 <= index < self.tabs@.len() && index != self.active())
        &&& new.tabs@.len() == self.tabs@.len()
        &&& r ==> {
            &&& new.active() == index
            &&& saved_from(new.tabs@[self.active()], *self)
            &&& new.tabs@[self.active()].id == self.tabs@[self.active()].id
            &&& loaded_into(self.tabs@[index], *new)
            &&& new.tabs@[index].id == self.tabs@[index].id
            &&& new.tabs@[index].title == self.tabs@[index].title
            &&& forall|k: int|
                0 <= k < self.tabs@.len() && k != index && k != self.active() ==> #[trigger] new.tabs@[k]
                    == self.tabs@[k]
        }
        &&& !r ==> {
            &&& new.tab_snapshots() == self.tab_snapshots()
            &&& new.active() == self.active()
            &&& new.same_navigation(self)
            &&& new.same_previews(self)
        }
    }

    /// Everything but the tabs and the live navigation is as in `o`.
    pub open spec fn same_outside_tabs(&self, o: &Self) -> bool {
        &&& self.current_mode == o.current_mode
        &&& self.keymap_config == o.keymap_config
        &&& self.notifications == o.notifications
        &&& self.confirm_dialog == o.confirm_dialog
        &&& self.select_dialog == o.select_dialog
        &&& self.input_dialog == o.input_dialog
        &&& self.scrolloff == o.scrolloff
        &&& self.pre_reload_hooks == o.pre_reload_hooks
        &&& self.pre_quit_hooks == o.pre_quit_hooks
        &&& self.post_page_enter_hooks == o.post_page_enter_hooks
    }

    /// Puts the live state away into the active tab's snapshot, leaving the live state empty
    /// but for its path.
    fn save_current_tab(&mut self)
        requires
            old(self).wf(),
        ensures
            final(self).tabs@.len() == old(self).tabs@.len(),
            final(self).active_tab == old(self).active_tab,
            final(self).tabs@[old(self).active()].wf(),
            saved_from(final(self).tabs@[old(self).active()], *old(self)),
            final(self).tabs@[old(self).active()].id == old(self).tabs@[old(self).active()].id,
            forall|k: int|
                0 <= k < old(self).tabs@.len() && k != old(self).active() ==> #[trigger] final(self).tabs@[k]
                    == old(self).tabs@[k],
            final(self).same_outside_tabs(old(self)),
            final(self).last_key_event_buffer == old(self).last_key_event_buffer,
            final(self).next_tab_id == old(self).next_tab_id,
    {
        let ghost s0 = *self;
        self.stash_current_preview();
        let ghost s1 = *self;
        let mut snap = self.tabs.remove(self.active_tab);
        snap.title = Some(tab_title(self.current_path.as_slice()));
        snap.current_path = clone_path(self.current_path.as_slice());
        snap.current_page = self.current_page.take();
        snap.current_preview = self.current_preview.take();
        snap.current_preview_path = self.current_preview_path.take();
        let mut pages = PathCache::new();
        std::mem::swap(&mut pages, &mut self.page_cache);
        snap.page_cache = pages;
        let mut previews = PathCache::new();
        std::mem::swap(&mut previews, &mut self.preview_cache);
        snap.preview_cache = previews;
        let mut history: Vec<Vec<String>> = Vec::new();
        std::mem::swap(&mut history, &mut self.navigation_history);
        snap.navigation_history = history;
        let mut forward: Vec<Vec<String>> = Vec::new();
        std::mem::swap(&mut forward, &mut self.navigation_forward_history);
        snap.navigation_forward_history = forward;
        proof {
            assert(snap.wf());
            assert(saved_from(snap, s0));
        }
        self.tabs.insert(self.active_tab, snap);
    }

    /// Takes the active tab's snapshot into the live state; the snapshot keeps its identity,
    /// title and path.
    fn load_current_tab(&mut self)
        requires
            old(self).active_tab < old(self).tabs@.len(),
            forall|i: int| 0 <= i < old(self).tabs@.len() ==> #[trigger] old(self).tabs@[i].wf(),
            old(self).input_dialog matches Some(d) ==> d.wf(),
            old(self).select_dialog matches Some(d) ==> d.wf(),
        ensures
            final(self).wf(),
            final(self).tabs@.len() == old(self).tabs@.len(),
            final(self).active_tab == old(self).active_tab,
            loaded_into(old(self).tabs@[old(self).active()], *final(self)),
            final(self).tabs@[old(self).active()].id == old(self).tabs@[old(self).active()].id,
            final(self).tabs@[old(self).active()].title == old(self).tabs@[old(self).active()].title,
            forall|k: int|
                0 <= k < old(self).tabs@.len() && k != old(self).active() ==> #[trigger] final(self).tabs@[k]
                    == old(self).tabs@[k],
            final(self).same_outside_tabs(old(self)),
            final(self).last_key_event_buffer == old(self).last_key_event_buffer,
            final(self).next_tab_id == old(self).next_tab_id,
    {
        proof {
            assert(old(self).tabs@[old(self).active_tab as int].wf());
        }
        let mut tab = self.tabs.remove(self.active_tab);
        let ghost t0 = tab;
        self.current_path = clone_path(tab.current_path.as_slice());
        self.current_page = tab.current_page.take();
        self.current_preview = tab.current_preview.take();
        self.current_preview_path = tab.current_preview_path.take();
        let mut pages = PathCache::new();
        std::mem::swap(&mut pages, &mut tab.page_cache);
        self.page_cache = pages;
        let mut previews = PathCache::new();
        std::mem::swap(&mut previews, &mut tab.preview_cache);
        self.preview_cache = previews;
        let mut history: Vec<Vec<String>> = Vec::new();
        std::mem::swap(&mut history, &mut tab.navigation_history);
        self.navigation_history = history;
        let mut forward: Vec<Vec<String>> = Vec::new();
        std::mem::swap(&mut forward, &mut tab.navigation_forward_history);
        self.navigation_forward_history = forward;
        proof {
            assert(tab.wf());
            assert(loaded_into(t0, *self));
        }
        self.tabs.insert(self.active_tab, tab);
        proof {
            assert forall|i: int| 0 <= i < self.tabs@.len() implies #[trigger] self.tabs@[i].wf() by {
                if i != self.active_tab {
                    assert(self.tabs@[i] == old(self).tabs@[i]);
                }
            }
        }
    }

    /// Number of tabs.
    pub fn tab_count(&self) -> (n: usize)
        ensures
            n == self.tabs@.len(),
    {
        self.tabs.len()
    }

    /// Position of the active tab.
    pub fn active_tab_index(&self) -> (i: usize)
        ensures
            i == self.active(),
    {
        self.active_tab
    }

    /// Identifier, title and path of every tab, in order.
    pub fn tab_infos(&self) -> (r: Vec<(u64, Option<String>, Vec<String>)>)
        requires
            self.wf(),
        ensures
            r@.len() == self.tabs@.len(),
            forall|i: int|
                0 <= i < r@.len() ==> {
                    &&& (#[trigger] r@[i]).0 == self.tabs@[i].id
                    &&& i == self.active() ==> (r@[i].1 matches Some(t) && t@ == title_of(self.path()))
                        && strings_view(r@[i].2@) == self.path()
                    &&& i != self.active() ==> r@[i].1 == self.tabs@[i].title && strings_view(
                        r@[i].2@,
                    ) == strings_view(self.tabs@[i].current_path@)
                },
    {
        let mut r: Vec<(u64, Option<String>, Vec<String>)> = Vec::new();
        let mut i: usize = 0;
        while i < self.tabs.len()
            invariant
                self.wf(),
                i <= self.tabs@.len(),
                r@.len() == i,
                forall|k: int|
                    0 <= k < i ==> {
                        &&& (#[trigger] r@[k]).0 == self.tabs@[k].id
                        &&& k == self.active() ==> (r@[k].1 matches Some(t) && t@ == title_of(
                            self.path(),
                        )) && strings_view(r@[k].2@) == self.path()
                        &&& k != self.active() ==> r@[k].1 == self.tabs@[k].title && strings_view(
                            r@[k].2@,
                        ) == strings_view(self.tabs@[k].current_path@)
                    },
            decreases self.tabs@.len() - i,
        {
            let tab = &self.tabs[i];
            if i == self.active_tab {
                r.push(
                    (
                        tab.id,
                        Some(tab_title(self.current_path.as_slice())),
                        clone_path(self.current_path.as_slice()),
                    ),
                );
            } else {
                r.push((tab.id, tab.title.clone(), clone_path(tab.current_path.as_slice())));
            }
            i += 1;
        }
        r
    }

    /// Opens a tab on `path` and makes it active; the tab left is put away.
    pub fn new_tab(&mut self, path: Vec<String>)
        requires
            old(self).wf(),
        ensures
            final(self).wf(),
            final(self).last_key_event_buffer@.len() == 0,
            final(self).same_outside_tabs(old(self)),
            final(self).tabs@.len() == old(self).tabs@.len() + 1,
            final(self).active() == old(self).tabs@.len(),
            saved_from(final(self).tabs@[old(self).active()], *old(self)),
            forall|k: int|
                0 <= k < old(self).tabs@.len() && k != old(self).active() ==> #[trigger] final(self).tabs@[k]
                    == old(self).tabs@[k],
            final(self).tabs@[final(self).active()].id == old(self).next_tab_id,
            final(self).path() == strings_view(path@),
            final(self).current_page is None,
            final(self).current_preview is None,
            final(self).preview_path() is None,
            final(self).history().len() == 0,
            final(self).forward_history().len() == 0,
            final(self).cached_pages() == Map::<PathView, Page<T>>::empty(),
            final(self).cached_previews() == Map::<PathView, P>::empty(),
    {
        self.clear_key_buffer();
        self.save_current_tab();
        let ghost s1 = *self;
        let id = self.next_tab_id;
        self.next_tab_id = self.next_tab_id.saturating_add(1);
        let title = tab_title(path.as_slice());
        self.tabs.push(TabSnapshot::fresh(id, Some(title), path));
        self.active_tab = self.tabs.len() - 1;
        proof {
            assert(self.tabs@[self.active_tab as int].id == id);
            assert forall|i: int| 0 <= i < self.tabs@.len() implies #[trigger] self.tabs@[i].wf() by {
                if i < s1.tabs@.len() {
                    assert(self.tabs@[i] == s1.tabs@[i]);
                    if i != old(self).active() {
                        assert(s1.tabs@[i] == old(self).tabs@[i]);
                    }
                }
            }
        }
        self.load_current_tab();
        proof {
            assert(paths_view(Seq::<Vec<String>>::empty()) =~= Seq::<PathView>::empty());
        }
    }

    /// Makes tab `index` active; the tab left is put away. Tells whether it switched (not for
    /// the active tab or a missing one).
    pub fn switch_tab(&mut self, index: usize) -> (r: bool)
        requires
            old(self).wf(),
        ensures
            final(self).wf(),
            final(self).last_key_event_buffer@.len() == 0,
            final(self).same_outside_tabs(old(self)),
            old(self).switched_to(index as int, final(self), r),
    {
        self.clear_key_buffer();
        if index >= self.tabs.len() || index == self.active_tab {
            return false;
        }
        let ghost s0 = *old(self);
        self.save_current_tab();
        let ghost s1 = *self;
        self.active_tab = index;
        proof {
            assert forall|i: int| 0 <= i < self.tabs@.len() implies #[trigger] self.tabs@[i].wf() by {
                if i != s0.active() {
                    assert(self.tabs@[i] == s0.tabs@[i]);
                }
            }
        }
        self.load_current_tab();
        proof {
            assert(self.tabs@[s0.active()] == s1.tabs@[s0.active()]);
            assert(saved_from(s1.tabs@[s0.active()], s0)) by {
                assert(s0.stashed_previews() == old(self).stashed_previews());
            }
        }
        true
    }

    /// Makes the next tab active, wrapping around; tells whether it switched.
    pub fn next_tab(&mut self) -> (r: bool)
        requires
            old(self).wf(),
        ensures
            final(self).wf(),
            final(self).same_outside_tabs(old(self)),
            old(self).tabs@.len() <= 1 ==> !r && *final(self) == *old(self),
            old(self).tabs@.len() > 1 ==> old(self).switched_to(
                (old(self).active() + 1) % (old(self).tabs@.len() as int),
                final(self),
                r,
            ),
    {
        let n = self.tabs.len();
        if n <= 1 {
            return false;
        }
        let a = self.active_tab;
        let next = if a + 1 < n {
            a + 1
        } else {
            0
        };
        proof {
            assert(next as int == (a + 1) % (n as int)) by (nonlinear_arith)
                requires
                    next == (if a + 1 < n { a + 1 } else { 0 }),
                    a < n,
            ;
        }
        self.switch_tab(next)
    }

    /// Makes the previous tab active, wrapping around; tells whether it switched.
    pub fn prev_tab(&mut self) -> (r: bool)
        requires
            old(self).wf(),
        ensures
            final(self).wf(),
            final(self).same_outside_tabs(old(self)),
            old(self).tabs@.len() <= 1 ==> !r && *final(self) == *old(self),
            old(self).tabs@.len() > 1 ==> old(self).switched_to(
                if old(self).active() == 0 {
                    old(self).tabs@.len() - 1
                } else {
                    old(self).active() - 1
                },
                final(self),
                r,
            ),
    {
        let n = self.tabs.len();
        if n <= 1 {
            return false;
        }
        let prev = if self.active_tab == 0 {
            n - 1
        } else {
            self.active_tab - 1
        };
        self.switch_tab(prev)
    }

    /// Closes the active tab, unless it is the only one, and makes the tab that took its
    /// place (or the new last tab) active; tells whether it closed.
    pub fn close_current_tab(&mut self) -> (r: bool)
        requires
            old(self).wf(),
        ensures
            final(self).wf(),
            final(self).last_key_event_buffer@.len() == 0,
            final(self).same_outside_tabs(old(self)),
            r == (old(self).tabs@.len() > 1),
            !r ==> final(self).tab_snapshots() == old(self).tab_snapshots() && final(self).active() == old(self).active()
                && final(self).same_navigation(old(self)) && final(self).same_previews(old(self)),
            r ==> {
                let n = old(self).tabs@.len() as int;
                let a = old(self).active();
                let shown = if a < n - 1 {
                    a + 1
                } else {
                    n - 2
                };
                &&& final(self).tabs@.len() == n - 1
                &&& final(self).active() == (if a < n - 1 {
                    a
                } else {
                    n - 2
                })
                &&& loaded_into(old(self).tabs@[shown], *final(self))
                &&& forall|k: int|
                    0 <= k < n - 1 && k != final(self).active() ==> #[trigger] final(self).tabs@[k]
                        == old(self).tabs@[if k < a {
                        k
                    } else {
                        k + 1
                    }]
            },
    {
        self.clear_key_buffer();
        if self.tabs.len() <= 1 {
            return false;
        }
        let ghost s0 = *old(self);
        self.current_page = None;
        self.current_preview = None;
        self.current_preview_path = None;
        self.page_cache.clear();
        self.preview_cache.clear();
        self.navigation_history.clear();
        self.navigation_forward_history.clear();
        self.tabs.remove(self.active_tab);
        if self.active_tab >= self.tabs.len() {
            self.active_tab = self.tabs.len() - 1;
        }
        proof {
            assert forall|i: int| 0 <= i < self.tabs@.len() implies #[trigger] self.tabs@[i].wf() by {
                if i < s0.active() {
                    assert(self.tabs@[i] == s0.tabs@[i]);
                } else {
                    assert(self.tabs@[i] == s0.tabs@[i + 1]);
                }
            }
        }
        self.load_current_tab();
        true
    }
}

impl<T, F: Clone, P, M, V> State<T, F, P, M, V> {
    /// Types `c` into the input dialog; hands back the new text and the change callback.
    pub fn input_dialog_insert_char(&mut self, c: char) -> (r: Option<(String, F)>)
        requires
            old(self).wf(),
            old(self).input_dialog matches Some(d) ==> byte_len(d.text@) + utf8_width(c) <= isize::MAX,
        ensures
            final(self).wf(),
            match (old(self).input_dialog, final(self).input_dialog) {
                (Some(d), Some(nd)) => {
                    &&& nd.text@ == insert_at(
                        d.text@,
                        char_index(d.text@, d.cursor_position as int),
                        c,
                    )
                    &&& nd.cursor_position == d.cursor_position + utf8_width(c)
                    &&& r matches Some(x) && x.0@ == nd.text@
                    &&& nd.previous_mode == d.previous_mode
                },
                (None, None) => r is None,
                _ => false,
            },
            final(self).same_navigation(old(self)),
            final(self).same_previews(old(self)),
            final(self).current_mode == old(self).current_mode,
            final(self).last_key_event_buffer == old(self).last_key_event_buffer,
            final(self).keymap_config == old(self).keymap_config,
    {
        match self.input_dialog.take() {
            Some(mut d) => {
                d.insert_char(c);
                let out = (d.text.clone(), d.on_change.clone());
                self.input_dialog = Some(d);
                Some(out)
            },
            None => None,
        }
    }

    /// Replaces the input dialog's text, with the cursor at its end; hands back the text, the
    /// change callback and whether the text changed.
    pub fn input_dialog_replace_text(&mut self, text: String) -> (r: Option<(String, F, bool)>)
        requires
            old(self).wf(),
            byte_len(text@) <= isize::MAX,
        ensures
            final(self).wf(),
            match (old(self).input_dialog, final(self).input_dialog) {
                (Some(d), Some(nd)) => {
                    &&& nd.text@ == text@
                    &&& nd.cursor_position == byte_len(text@)
                    &&& r matches Some(x) && x.0@ == text@ && x.2 == (d.text@ != text@)
                },
                (None, None) => r is None,
                _ => false,
            },
            final(self).same_navigation(old(self)),
            final(self).same_previews(old(self)),
            final(self).current_mode == old(self).current_mode,
    {
        match self.input_dialog.take() {
            Some(mut d) => {
                let changed = d.text != text;
                d.text = text;
                d.cursor_position = 0;
                cursor_to_end_at(&d.text, &mut d.cursor_position);
                let out = (d.text.clone(), d.on_change.clone(), changed);
                self.input_dialog = Some(d);
                Some(out)
            },
            None => None,
        }
    }

    /// Deletes the character before the input cursor; hands back the new text and the
    /// change callback.
    pub fn input_dialog_backspace(&mut self) -> (r: Option<(String, F)>)
        requires
            old(self).wf(),
        ensures
            final(self).wf(),
            match (old(self).input_dialog, final(self).input_dialog) {
                (Some(d), Some(nd)) => {
                    &&& d.cursor_position == 0 ==> nd.text@ == d.text@ && nd.cursor_position == 0
                    &&& d.cursor_position > 0 ==> ({
                        let k = char_index(d.text@, d.cursor_position as int);
                        &&& nd.text@ == remove_at(d.text@, k - 1)
                        &&& nd.cursor_position == byte_offset(d.text@, k - 1)
                    })
                    &&& r matches Some(x) && x.0@ == nd.text@
                    &&& nd.previous_mode == d.previous_mode
                },
                (None, None) => r is None,
                _ => false,
            },
            final(self).same_navigation(old(self)),
            final(self).same_previews(old(self)),
            final(self).current_mode == old(self).current_mode,
            final(self).last_key_event_buffer == old(self).last_key_event_buffer,
            final(self).keymap_config == old(self).keymap_config,
    {
        match self.input_dialog.take() {
            Some(mut d) => {
                d.backspace();
                let out = (d.text.clone(), d.on_change.clone());
                self.input_dialog = Some(d);
                Some(out)
            },
            None => None,
        }
    }

    /// Deletes everything before the input cursor; hands back the new text and the change
    /// callback when the text changed.
    pub fn input_dialog_clear_before_cursor(&mut self) -> (r: Option<(String, F)>)
        requires
            old(self).wf(),
        ensures
            final(self).wf(),
            match (old(self).input_dialog, final(self).input_dialog) {
                (Some(d), Some(nd)) => {
                    &&& nd.cursor_position == 0
                    &&& d.cursor_position == 0 ==> nd.text@ == d.text@ && r is None
                    &&& d.cursor_position > 0 ==> nd.text@ == d.text@.skip(
                        char_index(d.text@, d.cursor_position as int),
                    ) && (r matches Some(x) && x.0@ == nd.text@)
                },
                (None, None) => r is None,
                _ => false,
            },
            final(self).same_navigation(old(self)),
            final(self).same_previews(old(self)),
            final(self).current_mode == old(self).current_mode,
    {
        match self.input_dialog.take() {
            Some(mut d) => {
                let out = if d.clear_before_cursor() {
                    Some((d.text.clone(), d.on_change.clone()))
                } else {
                    None
                };
                self.input_dialog = Some(d);
                out
            },
            None => None,
        }
    }
}

/// What `pop_until` finds differs from the path it skips.
pub proof fn lemma_pop_until_differs(h: Seq<PathView>, cur: PathView)
    ensures
        pop_until(h, cur).1 matches Some(x) ==> x != cur,
    decreases h.len(),
{
    if h.len() > 0 && h.last() == cur {
        lemma_pop_until_differs(h.drop_last(), cur);
    }
}

/// Going back right after navigating away from a loaded page returns to that page's path;
/// the back history is then as it was before, and the page left joins the forward history.
pub proof fn law_back_after_go_to<T, F, P, M, V>(
    s0: State<T, F, P, M, V>,
    s1: State<T, F, P, M, V>,
    s2: State<T, F, P, M, V>,
    p: PathView,
    restored: bool,
    r: Option<PathView>,
)
    requires
        s0.current_page is Some,
        p != s0.path(),
        s0.moved_to(p, true, &s1, restored),
        s1.stepped_back(&s2, r),
    ensures
        r == Some(s0.path()),
        s2.history() == s0.history(),
        s2.forward_history() == seq![p],
{
    assert(s1.history().drop_last() =~= s0.history());
    assert(s1.forward_history().push(p) =~= seq![p]);
}

/// Going forward right after going back (without recording history) returns to the page that
/// was left by going back.
pub proof fn law_forward_after_back<T, F, P, M, V>(
    s1: State<T, F, P, M, V>,
    s2: State<T, F, P, M, V>,
    s3: State<T, F, P, M, V>,
    s4: State<T, F, P, M, V>,
    q: PathView,
    restored: bool,
    r: Option<PathView>,
)
    requires
        s1.stepped_back(&s2, Some(q)),
        s2.moved_to(q, false, &s3, restored),
        s3.stepped_forward(&s4, r),
    ensures
        r == Some(s1.path()),
        s4.path() == q,
        s4.history() == s2.history().push(q),
{
    lemma_pop_until_differs(s1.history(), s1.path());
    assert(s3.forward_history().last() == s1.path());
}

/// A loaded page left by navigation comes back, unchanged, when navigation returns to its path.
pub proof fn law_page_restored_on_return<T, F, P, M, V>(
    s0: State<T, F, P, M, V>,
    s1: State<T, F, P, M, V>,
    s2: State<T, F, P, M, V>,
    p: PathView,
    record1: bool,
    record2: bool,
    restored1: bool,
    restored2: bool,
)
    requires
        s0.current_page is Some,
        p != s0.path(),
        s0.moved_to(p, record1, &s1, restored1),
        s1.moved_to(s0.path(), record2, &s2, restored2),
    ensures
        restored2,
        s2.current_page == s0.current_page,
{
    let left0 = s0.left_pages();
    assert(left0.dom().contains(s0.path()));
    assert(s1.cached_pages().dom().contains(s0.path()));
    assert(s1.cached_pages()[s0.path()] == left0[s0.path()]);
    let left1 = s1.left_pages();
    assert(left1.dom().contains(s0.path()));
    assert(left1[s0.path()] == left0[s0.path()]);
}

/// Switching to another tab and back shows the first tab's path, page, histories and page
/// cache again; its preview has been put away into the preview cache.
pub proof fn law_switch_back_restores_tab<T, F, P, M, V>(
    s0: State<T, F, P, M, V>,
    s1: State<T, F, P, M, V>,
    s2: State<T, F, P, M, V>,
    j: int,
)
    requires
        s0.switched_to(j, &s1, true),
        s1.switched_to(s0.active(), &s2, true),
    ensures
        s2.same_navigation(&s0),
        s2.current_preview is None,
        s2.preview_path() is None,
        s2.cached_previews() == s0.stashed_previews(),
{
}

} // verus!
