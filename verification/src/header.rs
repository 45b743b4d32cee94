//! The header line: the tabs shown at its right end.

use vstd::prelude::*;
use crate::text::{from_chars, sub_chars, to_chars};
use crate::time::{decimal, decimal_string};

verus! {

broadcast use vstd::seq_lib::group_seq_properties;

/// `s` without the slashes it starts with.
pub open spec fn strip_slashes(s: Seq<char>) -> Seq<char>
    decreases s.len(),
{
    if s.len() > 0 && s[0] == '/' {
        strip_slashes(s.skip(1))
    } else {
        s
    }
}

/// The label of a tab: its title, else its path as shown; a label other than the root
/// loses its leading slashes.
pub open spec fn tab_label_of(title: Option<Seq<char>>, shown_path: Seq<char>) -> Seq<char> {
    let label = match title {
        Some(t) => t,
        None => shown_path,
    };
    if label == seq!['/'] {
        label
    } else {
        strip_slashes(label)
    }
}

/// The label of a tab (see `tab_label_of`).
pub fn tab_label(title: Option<&str>, shown_path: &str) -> (r: String)
    ensures
        r@ == tab_label_of(
            match title {
                Some(t) => Some(t@),
                None => None,
            },
            shown_path@,
        ),
{
    let label = match title {
        Some(t) => t,
        None => shown_path,
    };
    let c = to_chars(label);
    let n = c.len();
    if n == 1 && c[0] == '/' {
        assert(c@ =~= seq!['/']);
        return String::from_str(label);
    }
    let mut k: usize = 0;
    assert(c@.skip(0) =~= c@);
    while k < n && c[k] == '/'
        invariant
            k <= n,
            n == c@.len(),
            strip_slashes(c@) == strip_slashes(c@.skip(k as int)),
        decreases n - k,
    {
        assert(c@.skip(k as int).skip(1) =~= c@.skip(k + 1));
        k += 1;
    }
    let rest = sub_chars(&c, k, n);
    assert(rest@ =~= c@.skip(k as int));
    from_chars(rest.as_slice())
}

/// The text of tab `index` (counted from 0): its number from 1, a colon and its label.
pub fn tab_text(index: u64, label: &str) -> (r: String)
    requires
        index < u64::MAX,
    ensures
        r@ == decimal((index + 1) as nat) + seq![':'] + label@,
{
    let mut r = decimal_string((index + 1) as u128);
    r.append(":");
    r.append(label);
    proof {
        reveal_strlit(":");
        assert(":"@ =~= seq![':']);
    }
    r
}

/// Where the tabs go on a header at `area_x` that is `area_width` wide: at its right end,
/// when they are there and fit.
pub fn tab_area(area_x: u16, area_width: u16, tab_width: u16) -> (r: Option<(u16, u16)>)
    requires
        area_x + area_width <= u16::MAX,
    ensures
        tab_width == 0 || tab_width > area_width ==> r is None,
        !(tab_width == 0 || tab_width > area_width) ==> r == Some(((area_x + area_width - tab_width) as u16, tab_width)),
{
    if tab_width == 0 || tab_width > area_width {
        return None;
    }
    Some((area_x + (area_width - tab_width), tab_width))
}

} // verus!
