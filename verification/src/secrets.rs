//! The plugin secret store: per namespace, text values under non-empty keys, kept in a file
//! of their own that is removed once the namespace holds nothing.

use vstd::prelude::*;
use vstd::string::*;
use crate::cache::{hex_file_name, namespace_file};
use crate::text_map::TextMap;

verus! {

/// A namespace or key that is empty.
#[derive(Debug)]
pub struct EmptyLabel {
    /// What was empty: `namespace` or `key`.
    pub label: String,
}

impl EmptyLabel {
    /// The error message.
    pub fn message(&self) -> (m: String)
        ensures
            m@ == "secrets "@ + self.label@ + " must not be empty"@,
    {
        let mut m = String::from_str("secrets ");
        m.append(self.label.as_str());
        m.append(" must not be empty");
        m
    }
}

/// Refuses an empty `value`, naming it `label`.
pub fn ensure_non_empty(label: &str, value: &str) -> (r: Result<(), EmptyLabel>)
    ensures
        value@.len() == 0 <==> r is Err,
        r matches Err(e) ==> e.label@ == label@,
{
    if value.is_empty() {
        return Err(EmptyLabel { label: String::from_str(label) });
    }
    Ok(())
}

/// The secrets file of a namespace; an empty namespace is refused.
pub fn namespace_to_filename(namespace: &str) -> (r: Result<String, EmptyLabel>)
    ensures
        namespace@.len() == 0 <==> r is Err,
        r matches Ok(f) ==> f@ == namespace_file(namespace@),
        r matches Err(e) ==> e.label@ == "namespace"@,
{
    ensure_non_empty("namespace", namespace)?;
    Ok(hex_file_name(namespace))
}

/// The secrets of one namespace.
pub struct SecretStore {
    pub entries: TextMap<String>,
}

impl SecretStore {
    /// The secrets by key, as text.
    pub open spec fn view(&self) -> Map<Seq<char>, Seq<char>> {
        self.entries.view().map_values(|v: String| v@)
    }

    pub open spec fn wf(&self) -> bool {
        self.entries.wf()
    }

    /// A store holding nothing.
    pub fn new() -> (s: SecretStore)
        ensures
            s.wf(),
            s.view() == Map::<Seq<char>, Seq<char>>::empty(),
    {
        let s = SecretStore { entries: TextMap::new() };
        assert(s.view() =~= Map::<Seq<char>, Seq<char>>::empty());
        s
    }

    /// The secret under `key`; an empty key is refused.
    pub fn get(&self, key: &str) -> (r: Result<Option<String>, EmptyLabel>)
        requires
            self.wf(),
        ensures
            key@.len() == 0 <==> r is Err,
            r matches Err(e) ==> e.label@ == "key"@,
            r matches Ok(Some(v)) ==> self.view().dom().contains(key@) && self.view()[key@] == v@,
            r matches Ok(None) ==> !self.view().dom().contains(key@),
    {
        ensure_non_empty("key", key)?;
        match self.entries.get(key) {
            Some(v) => Ok(Some(v.clone())),
            None => Ok(None),
        }
    }

    /// Stores `value` under `key`; an empty key is refused.
    pub fn set(&mut self, key: String, value: String) -> (r: Result<(), EmptyLabel>)
        requires
            old(self).wf(),
        ensures
            final(self).wf(),
            key@.len() == 0 <==> r is Err,
            r matches Err(e) ==> e.label@ == "key"@ && final(self).view() == old(self).view(),
            r is Ok ==> final(self).view() == old(self).view().insert(key@, value@),
    {
        ensure_non_empty("key", key.as_str())?;
        self.entries.insert(key, value);
        proof {
            assert(self.view() =~= old(self).view().insert(key@, value@));
        }
        Ok(())
    }

    /// Forgets the secret under `key`; an empty key is refused.
    pub fn delete(&mut self, key: &str) -> (r: Result<(), EmptyLabel>)
        requires
            old(self).wf(),
        ensures
            final(self).wf(),
            key@.len() == 0 <==> r is Err,
            r matches Err(e) ==> e.label@ == "key"@ && final(self).view() == old(self).view(),
            r is Ok ==> final(self).view() == old(self).view().remove(key@),
    {
        ensure_non_empty("key", key)?;
        self.entries.remove(key);
        proof {
            assert(self.view() =~= old(self).view().remove(key@));
        }
        Ok(())
    }

    /// Whether the store holds nothing, so that its file is to be removed rather than
    /// written.
    pub fn is_empty(&self) -> (b: bool)
        requires
            self.wf(),
        ensures
            b == (self.view() == Map::<Seq<char>, Seq<char>>::empty()),
    {
        let b = self.entries.is_empty();
        proof {
            if !b {
                if self.view() == Map::<Seq<char>, Seq<char>>::empty() {
                    assert forall|k: Seq<char>| !self.entries.view().dom().contains(k) by {
                        if self.entries.view().dom().contains(k) {
                            assert(self.entries.view().contains_key(k));
                            assert(self.view().dom().contains(k));
                        }
                    }
                    assert(self.entries.view() =~= Map::<Seq<char>, String>::empty());
                }
            } else {
                assert(self.view() =~= Map::<Seq<char>, Seq<char>>::empty());
            }
        }
        b
    }
}

/// A secret that was set reads back unchanged, and reads as nothing once deleted.
pub proof fn law_secret_roundtrip(
    s0: Map<Seq<char>, Seq<char>>,
    s1: Map<Seq<char>, Seq<char>>,
    s2: Map<Seq<char>, Seq<char>>,
    key: Seq<char>,
    value: Seq<char>,
)
    requires
        s1 == s0.insert(key, value),
        s2 == s1.remove(key),
    ensures
        s1.dom().contains(key),
        s1[key] == value,
        !s2.dom().contains(key),
{
}

} // verus!
