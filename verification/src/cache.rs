//! The plugin cache: per namespace, values stored under keys, each with an optional expiry.
//! An entry set with a time to live expires that long after it was set; one also marked
//! "refresh on get" gets its time to live anew whenever it is read. A namespace remembers
//! whether it changed since it was last written to disk.

use vstd::prelude::*;
use vstd::string::*;
use vstd::utf8::*;
use crate::text::from_chars;
use crate::text_map::TextMap;

verus! {

broadcast use vstd::seq_lib::group_seq_properties;

/// The lowercase hexadecimal digit for `n` (below 16).
pub open spec fn hex_digit(n: int) -> char {
    if n < 10 {
        ('0' as int + n) as char
    } else {
        ('a' as int + n - 10) as char
    }
}

/// Each byte as two lowercase hexadecimal digits.
pub open spec fn hex_bytes(b: Seq<u8>) -> Seq<char>
    decreases b.len(),
{
    if b.len() == 0 {
        Seq::empty()
    } else {
        hex_bytes(b.drop_last()) + seq![hex_digit(b.last() as int / 16), hex_digit(b.last() as int % 16)]
    }
}

/// The file that stores a namespace: the hexadecimal bytes of its name and `.json`.
pub open spec fn namespace_file(namespace: Seq<char>) -> Seq<char> {
    hex_bytes(encode_utf8(namespace)) + ".json"@
}

fn hex_char(n: u8) -> (c: char)
    requires
        n < 16,
    ensures
        c == hex_digit(n as int),
{
    if n < 10 {
        ((48u8 + n) as char)
    } else {
        ((87u8 + n) as char)
    }
}

/// Each byte of `bytes` as two lowercase hexadecimal digits.
pub fn hex_string(bytes: &[u8]) -> (r: String)
    ensures
        r@ == hex_bytes(bytes@),
{
    let mut out: Vec<char> = Vec::new();
    let mut i: usize = 0;
    proof {
        assert(bytes@.take(0) =~= Seq::<u8>::empty());
    }
    while i < bytes.len()
        invariant
            i <= bytes@.len(),
            out@ == hex_bytes(bytes@.take(i as int)),
        decreases bytes@.len() - i,
    {
        let b = bytes[i];
        out.push(hex_char(b / 16));
        out.push(hex_char(b % 16));
        proof {
            assert(bytes@.take(i + 1).drop_last() =~= bytes@.take(i as int));
            assert(bytes@.take(i + 1).last() == b);
        }
        i += 1;
    }
    proof {
        assert(bytes@.take(i as int) =~= bytes@);
    }
    from_chars(out.as_slice())
}

/// The hexadecimal digits of the UTF-8 bytes of `s`, followed by `.json`.
pub fn hex_file_name(s: &str) -> (r: String)
    ensures
        r@ == namespace_file(s@),
{
    let bytes = s.as_bytes();
    let mut r = hex_string(bytes);
    r.append(".json");
    r
}

/// A namespace that is empty.
#[derive(Debug)]
pub struct EmptyNamespace;

impl EmptyNamespace {
    /// The error message.
    pub fn message(&self) -> (m: String)
        ensures
            m@ == "cache namespace must not be empty"@,
    {
        String::from_str("cache namespace must not be empty")
    }
}

/// The cache file of a namespace; an empty namespace is refused.
pub fn namespace_to_filename(namespace: &str) -> (r: Result<String, EmptyNamespace>)
    ensures
        namespace@.len() == 0 <==> r is Err,
        r matches Ok(f) ==> f@ == namespace_file(namespace@),
{
    if namespace.is_empty() {
        return Err(EmptyNamespace);
    }
    Ok(hex_file_name(namespace))
}

/// A stored value with its expiry (seconds since the epoch), its time to live and whether
/// reading it renews the time to live.
pub struct CacheEntry<J> {
    pub value: J,
    pub expires: Option<u64>,
    pub ttl: Option<u64>,
    pub refresh_on_get: bool,
}

/// `a + b`, at most `u64::MAX`.
pub open spec fn sat_add(a: u64, b: u64) -> u64 {
    if a + b <= u64::MAX {
        (a + b) as u64
    } else {
        u64::MAX
    }
}

/// The entry has not expired at `now`.
pub open spec fn live<J>(e: CacheEntry<J>, now: u64) -> bool {
    match e.expires {
        Some(x) => x > now,
        None => true,
    }
}

/// Renews the time to live of an entry marked for it; tells whether it did.
pub fn refresh_cache_entry<J>(entry: &mut CacheEntry<J>, now: u64) -> (r: bool)
    ensures
        r == (old(entry).refresh_on_get && old(entry).ttl is Some),
        r ==> final(entry).expires == Some(sat_add(now, old(entry).ttl->Some_0)),
        !r ==> final(entry).expires == old(entry).expires,
        final(entry).value == old(entry).value,
        final(entry).ttl == old(entry).ttl,
        final(entry).refresh_on_get == old(entry).refresh_on_get,
{
    if !entry.refresh_on_get {
        return false;
    }
    match entry.ttl {
        Some(ttl) => {
            entry.expires = Some(now.saturating_add(ttl));
            true
        },
        None => false,
    }
}

/// The entries of one namespace and whether they changed since they were last saved.
pub struct NamespaceCache<J> {
    pub entries: TextMap<CacheEntry<J>>,
    pub dirty: bool,
}

/// The entry that `set` stores.
pub open spec fn set_entry<J>(value: J, ttl: Option<u64>, refresh_on_get: bool, now: u64) -> CacheEntry<J> {
    CacheEntry {
        value,
        expires: match ttl {
            Some(t) => Some(sat_add(now, t)),
            None => None,
        },
        ttl,
        refresh_on_get: ttl is Some && refresh_on_get,
    }
}

/// The entries of `m` that are live at `now`.
pub open spec fn live_entries<J>(m: Map<Seq<char>, CacheEntry<J>>, now: u64) -> Map<Seq<char>, CacheEntry<J>> {
    Map::new(|k: Seq<char>| m.dom().contains(k) && live(m[k], now), |k: Seq<char>| m[k])
}

impl<J> NamespaceCache<J> {
    /// The entries by key.
    pub open spec fn view(&self) -> Map<Seq<char>, CacheEntry<J>> {
        self.entries.view()
    }

    pub open spec fn wf(&self) -> bool {
        self.entries.wf()
    }

    /// A namespace holding `entries` as loaded from disk.
    pub fn loaded(entries: TextMap<CacheEntry<J>>) -> (c: NamespaceCache<J>)
        ensures
            c.entries == entries,
            !c.dirty,
    {
        NamespaceCache { entries, dirty: false }
    }

    /// Stores `value` under `key`, expiring `ttl` seconds after `now` when a time to live is
    /// given; "refresh on get" holds only with a time to live.
    pub fn set(&mut self, key: String, value: J, ttl: Option<u64>, refresh_on_get: bool, now: u64)
        requires
            old(self).wf(),
        ensures
            final(self).wf(),
            final(self).view() == old(self).view().insert(key@, set_entry(value, ttl, refresh_on_get, now)),
            final(self).dirty,
    {
        let expires = match ttl {
            Some(t) => Some(now.saturating_add(t)),
            None => None,
        };
        let entry = CacheEntry { value, expires, ttl, refresh_on_get: ttl.is_some() && refresh_on_get };
        self.entries.insert(key, entry);
        self.dirty = true;
    }

    /// Forgets the entry under `key`.
    pub fn delete(&mut self, key: &str)
        requires
            old(self).wf(),
        ensures
            final(self).wf(),
            final(self).view() == old(self).view().remove(key@),
            final(self).dirty == (old(self).dirty || old(self).view().dom().contains(key@)),
    {
        if self.entries.remove(key).is_some() {
            self.dirty = true;
        }
    }

    /// Forgets every entry; the namespace must be written again when it held entries or
    /// when its file exists.
    pub fn clear(&mut self, file_exists: bool)
        requires
            old(self).wf(),
        ensures
            final(self).wf(),
            final(self).view() == Map::<Seq<char>, CacheEntry<J>>::empty(),
            final(self).dirty == (old(self).dirty || old(self).view() != Map::<
                Seq<char>,
                CacheEntry<J>,
            >::empty() || file_exists),
    {
        if !self.entries.is_empty() {
            self.entries.clear();
            self.dirty = true;
        } else if file_exists {
            self.dirty = true;
        }
    }

    /// Reads the entry under `key` at `now`: an expired entry is dropped and reads as
    /// nothing; a live one is renewed when marked for it. Tells whether a live entry is
    /// there.
    pub fn touch(&mut self, key: &str, now: u64) -> (r: bool)
        requires
            old(self).wf(),
        ensures
            final(self).wf(),
            r == (old(self).view().dom().contains(key@) && live(old(self).view()[key@], now)),
            !old(self).view().dom().contains(key@) ==> final(self).view() == old(self).view()
                && final(self).dirty == old(self).dirty,
            old(self).view().dom().contains(key@) && !r ==> final(self).view() == old(self).view().remove(
                key@,
            ) && final(self).dirty,
            r ==> {
                let e = old(self).view()[key@];
                let renewed = e.refresh_on_get && e.ttl is Some;
                &&& final(self).view().dom().contains(key@)
                &&& final(self).view()[key@].value == e.value
                &&& final(self).view()[key@].expires == (if renewed {
                    Some(sat_add(now, e.ttl->Some_0))
                } else {
                    e.expires
                })
                &&& final(self).view()[key@].ttl == e.ttl
                &&& final(self).view()[key@].refresh_on_get == e.refresh_on_get
                &&& final(self).view() == old(self).view().insert(key@, final(self).view()[key@])
                &&& final(self).dirty == (old(self).dirty || renewed)
            },
    {
        let mut entry = match self.entries.remove(key) {
            Some(e) => e,
            None => {
                proof {
                    assert(self.view() =~= old(self).view());
                }
                return false;
            },
        };
        let expired = match entry.expires {
            Some(x) => x <= now,
            None => false,
        };
        if expired {
            self.dirty = true;
            return false;
        }
        if refresh_cache_entry(&mut entry, now) {
            self.dirty = true;
        }
        let ghost e = entry;
        self.entries.insert(String::from_str(key), entry);
        proof {
            assert(self.view() =~= old(self).view().insert(key@, e));
        }
        true
    }

    /// The value stored under `key`.
    pub fn value(&self, key: &str) -> (r: Option<&J>)
        requires
            self.wf(),
        ensures
            match r {
                Some(v) => self.view().dom().contains(key@) && self.view()[key@].value == *v,
                None => !self.view().dom().contains(key@),
            },
    {
        match self.entries.get(key) {
            Some(e) => Some(&e.value),
            None => None,
        }
    }

    /// Drops the entries that expired at `now` and clears the changed mark; tells whether
    /// the namespace had changed, and so is to be written.
    pub fn flush(&mut self, now: u64) -> (changed: bool)
        requires
            old(self).wf(),
        ensures
            final(self).wf(),
            changed == old(self).dirty,
            changed ==> final(self).view() == live_entries(old(self).view(), now),
            !changed ==> final(self).view() == old(self).view(),
            !final(self).dirty,
    {
        if !self.dirty {
            return false;
        }
        let mut kept: TextMap<CacheEntry<J>> = TextMap::new();
        std::mem::swap(&mut kept, &mut self.entries);
        let ghost orig = kept.view();
        let mut pairs = kept.into_pairs();
        let ghost ps = pairs@;
        proof {
            assert(self.view() =~= live_entries(Map::<Seq<char>, CacheEntry<J>>::empty(), now));
        }
        while pairs.len() > 0
            invariant
                self.wf(),
                self.dirty,
                forall|i: int, j: int|
                    0 <= i < j < ps.len() ==> (#[trigger] ps[i]).0@ != (#[trigger] ps[j]).0@,
                forall|k: Seq<char>| #[trigger] orig.dom().contains(k) <==> exists|i: int|
                    0 <= i < ps.len() && (#[trigger] ps[i]).0@ == k,
                forall|i: int| 0 <= i < ps.len() ==> orig[(#[trigger] ps[i]).0@] == ps[i].1,
                pairs@.len() <= ps.len(),
                pairs@ == ps.take(pairs@.len() as int),
                self.view() == live_entries(
                    Map::new(
                        |k: Seq<char>|
                            exists|i: int| pairs@.len() <= i < ps.len() && (#[trigger] ps[i]).0@ == k,
                        |k: Seq<char>| orig[k],
                    ),
                    now,
                ),
            decreases pairs@.len(),
        {
            let ghost n = pairs@.len();
            let (k, e) = pairs.pop().unwrap();
            proof {
                assert(pairs@ =~= ps.take(n - 1));
                assert(ps[n - 1] == (k, e));
            }
            let keep = match e.expires {
                Some(x) => x > now,
                None => true,
            };
            let ghost before = self.view();
            if keep {
                self.entries.insert(k, e);
            }
            proof {
                let dom_now = |q: Seq<char>|
                    exists|i: int| pairs@.len() <= i < ps.len() && (#[trigger] ps[i]).0@ == q;
                let target = live_entries(Map::new(dom_now, |q: Seq<char>| orig[q]), now);
                assert forall|q: Seq<char>| #![auto] self.view().dom().contains(q) == target.dom().contains(q) by {
                    if q == k@ {
                        assert(ps[n - 1].0@ == q);
                    } else {
                        if target.dom().contains(q) {
                            let i = choose|i: int| pairs@.len() <= i < ps.len() && (#[trigger] ps[i]).0@ == q;
                            assert(i != n - 1);
                        }
                    }
                }
                assert forall|q: Seq<char>| #[trigger] self.view().dom().contains(q) implies self.view()[q]
                    == target[q] by {
                    if q == k@ {
                        assert(orig[ps[n - 1].0@] == ps[n - 1].1);
                    }
                }
                assert(self.view() =~= target);
            }
        }
        proof {
            assert(self.view() =~= live_entries(orig, now)) by {
                assert forall|q: Seq<char>| #![auto] orig.dom().contains(q) == (exists|i: int|
                    0 <= i < ps.len() && (#[trigger] ps[i]).0@ == q) by {}
            }
        }
        self.dirty = false;
        true
    }
}

/// An entry that was just set stays readable, with its value, until its expiry.
pub proof fn law_get_after_set<J>(
    before: Map<Seq<char>, CacheEntry<J>>,
    after: Map<Seq<char>, CacheEntry<J>>,
    key: Seq<char>,
    value: J,
    ttl: Option<u64>,
    refresh_on_get: bool,
    now: u64,
    later: u64,
)
    requires
        after == before.insert(key, set_entry(value, ttl, refresh_on_get, now)),
        match ttl {
            Some(t) => later < sat_add(now, t),
            None => true,
        },
    ensures
        after.dom().contains(key),
        live(after[key], later),
        after[key].value == value,
{
}

} // verus!
