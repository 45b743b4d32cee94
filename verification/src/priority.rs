//! How specific a key binding's path pattern is: fewer `**`, then fewer `*`, then more
//! exact segments, then more segments come first.

use vstd::prelude::*;
use vstd::std_specs::cmp::PartialOrdSpecImpl;
use core::cmp::Ordering;

verus! {

/// Specificity of a path pattern; smaller values are more specific.
#[derive(Debug, Clone, Copy, PartialEq, Eq, Structural)]
pub struct KeymapPathPriority {
    pub globstar_count: usize,
    pub star_count: usize,
    pub exact_count: usize,
    pub len: usize,
}

impl KeymapPathPriority {
    /// `self` is strictly more specific than `other`.
    pub open spec fn spec_precedes(self, other: KeymapPathPriority) -> bool {
        ||| self.globstar_count < other.globstar_count
        ||| self.globstar_count == other.globstar_count && self.star_count < other.star_count
        ||| self.globstar_count == other.globstar_count && self.star_count == other.star_count
            && self.exact_count > other.exact_count
        ||| self.globstar_count == other.globstar_count && self.star_count == other.star_count
            && self.exact_count == other.exact_count && self.len > other.len
    }

    /// `self` is strictly more specific than `other`.
    pub fn precedes(&self, other: &KeymapPathPriority) -> (b: bool)
        ensures
            b == self.spec_precedes(*other),
    {
        if self.globstar_count != other.globstar_count {
            return self.globstar_count < other.globstar_count;
        }
        if self.star_count != other.star_count {
            return self.star_count < other.star_count;
        }
        if self.exact_count != other.exact_count {
            return self.exact_count > other.exact_count;
        }
        self.len > other.len
    }

    pub open spec fn order_spec(self, other: KeymapPathPriority) -> Option<Ordering> {
        if self.spec_precedes(other) {
            Some(Ordering::Less)
        } else if self == other {
            Some(Ordering::Equal)
        } else {
            Some(Ordering::Greater)
        }
    }
}

impl PartialOrd for KeymapPathPriority {
    fn partial_cmp(&self, other: &KeymapPathPriority) -> (r: Option<Ordering>) {
        if self.precedes(other) {
            Some(Ordering::Less)
        } else if *self == *other {
            Some(Ordering::Equal)
        } else {
            Some(Ordering::Greater)
        }
    }
}

impl PartialOrdSpecImpl for KeymapPathPriority {
    open spec fn obeys_partial_cmp_spec() -> bool {
        true
    }

    open spec fn partial_cmp_spec(&self, other: &KeymapPathPriority) -> Option<Ordering> {
        self.order_spec(*other)
    }
}

} // verus!
