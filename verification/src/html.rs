//! HTML documents for plugins: the elements that a CSS selector picks, each taken as a
//! snapshot of its tag, markup, text and attributes. Parsing and matching are scraper's.

use vstd::prelude::*;

verus! {

broadcast use vstd::seq_lib::group_seq_properties;

/// An element picked from a document: its tag name, its markup with and without its own
/// tags, its text and its attributes in order.
pub struct HtmlNode {
    pub tag_name: String,
    pub html: String,
    pub inner_html: String,
    pub text: String,
    pub attrs: Vec<(String, String)>,
}

/// An element as plain text values.
pub struct NodeView {
    pub tag_name: Seq<char>,
    pub html: Seq<char>,
    pub inner_html: Seq<char>,
    pub text: Seq<char>,
    pub attrs: Seq<(Seq<char>, Seq<char>)>,
}

impl HtmlNode {
    pub open spec fn view(&self) -> NodeView {
        NodeView {
            tag_name: self.tag_name@,
            html: self.html@,
            inner_html: self.inner_html@,
            text: self.text@,
            attrs: self.attrs@.map_values(|a: (String, String)| (a.0@, a.1@)),
        }
    }
}

/// The elements as plain values.
pub open spec fn nodes_view(nodes: Seq<HtmlNode>) -> Seq<NodeView> {
    nodes.map_values(|n: HtmlNode| n@)
}

/// What scraper picks with the selector `selector` from `html`, parsed as a whole document
/// or as a fragment: the elements in document order, or, for a selector it cannot parse,
/// the text of its error.
pub uninterp spec fn html_selection(html: Seq<char>, fragment: bool, selector: Seq<char>) -> Result<Seq<NodeView>, Seq<char>>;

/// Parses `selector` with `scraper::Selector::parse` and `html` with
/// `Html::parse_document` or, for a fragment, `Html::parse_fragment`, then takes a snapshot
/// of each element that `Html::select` yields: its name, `html()`, `inner_html()`, its text
/// nodes joined and its attributes. The contract names the result (`html_selection`); what
/// scraper parses and picks is not claimed.
#[verifier::external_body]
fn scraper_select(html: &str, fragment: bool, selector: &str) -> (r: Result<Vec<HtmlNode>, String>)
    ensures
        match (r, html_selection(html@, fragment, selector@)) {
            (Ok(nodes), Ok(view)) => nodes_view(nodes@) == view,
            (Err(e), Err(v)) => e@ == v,
            _ => false,
        },
{
    let selector = scraper::Selector::parse(selector).map_err(|e| e.to_string())?;
    let document =
        if fragment { scraper::Html::parse_fragment(html) } else { scraper::Html::parse_document(html) };
    Ok(document.select(&selector).map(|e| HtmlNode {
        tag_name: e.value().name().to_string(),
        html: e.html(),
        inner_html: e.inner_html(),
        text: e.text().collect::<Vec<_>>().join(""),
        attrs: e.value().attrs().map(|(k, v)| (k.to_string(), v.to_string())).collect(),
    }).collect())
}

/// The message for a selector that cannot be parsed.
pub open spec fn selector_error(selector: Seq<char>, reason: Seq<char>) -> Seq<char> {
    "Invalid CSS selector '"@ + selector + "': "@ + reason
}

/// The elements that `selector` picks from `html` (see `html_selection`), or the message
/// for a selector that cannot be parsed.
pub open spec fn selection(html: Seq<char>, fragment: bool, selector: Seq<char>) -> Result<Seq<NodeView>, Seq<char>> {
    match html_selection(html, fragment, selector) {
        Ok(nodes) => Ok(nodes),
        Err(reason) => Err(selector_error(selector, reason)),
    }
}

fn select_in(html: &str, fragment: bool, selector: &str) -> (r: Result<Vec<HtmlNode>, String>)
    ensures
        match (r, selection(html@, fragment, selector@)) {
            (Ok(nodes), Ok(view)) => nodes_view(nodes@) == view,
            (Err(e), Err(v)) => e@ == v,
            _ => false,
        },
{
    match scraper_select(html, fragment, selector) {
        Ok(nodes) => Ok(nodes),
        Err(reason) => {
            let mut m = String::from_str("Invalid CSS selector '");
            m.append(selector);
            m.append("': ");
            m.append(reason.as_str());
            proof {
                reveal_strlit("Invalid CSS selector '");
                reveal_strlit("': ");
            }
            Err(m)
        },
    }
}

fn first_of(r: Result<Vec<HtmlNode>, String>) -> (f: Result<Option<HtmlNode>, String>)
    ensures
        match (r, f) {
            (Ok(nodes), Ok(first)) => match first {
                Some(n) => nodes@.len() > 0 && n@ == nodes@[0]@,
                None => nodes@.len() == 0,
            },
            (Err(e), Err(g)) => e@ == g@,
            _ => false,
        },
{
    match r {
        Ok(mut nodes) => {
            if nodes.len() == 0 {
                Ok(None)
            } else {
                Ok(Some(nodes.remove(0)))
            }
        },
        Err(e) => Err(e),
    }
}

/// A parsed HTML text: a whole document or a fragment.
pub struct HtmlDocument {
    pub raw_html: String,
    pub fragment: bool,
}

impl HtmlDocument {
    /// `html` as a whole document.
    pub fn parse_document(html: String) -> (d: HtmlDocument)
        ensures
            d.raw_html == html,
            !d.fragment,
    {
        HtmlDocument { raw_html: html, fragment: false }
    }

    /// `html` as a fragment.
    pub fn parse_fragment(html: String) -> (d: HtmlDocument)
        ensures
            d.raw_html == html,
            d.fragment,
    {
        HtmlDocument { raw_html: html, fragment: true }
    }

    /// The elements that `selector` picks (see `selection`).
    pub fn select(&self, selector: &str) -> (r: Result<Vec<HtmlNode>, String>)
        ensures
            match (r, selection(self.raw_html@, self.fragment, selector@)) {
                (Ok(nodes), Ok(view)) => nodes_view(nodes@) == view,
                (Err(e), Err(v)) => e@ == v,
                _ => false,
            },
    {
        select_in(self.raw_html.as_str(), self.fragment, selector)
    }

    /// The first element that `selector` picks, if any.
    pub fn first(&self, selector: &str) -> (r: Result<Option<HtmlNode>, String>)
        ensures
            match (r, selection(self.raw_html@, self.fragment, selector@)) {
                (Ok(Some(n)), Ok(view)) => view.len() > 0 && n@ == view[0],
                (Ok(None), Ok(view)) => view.len() == 0,
                (Err(e), Err(v)) => e@ == v,
                _ => false,
            },
    {
        first_of(self.select(selector))
    }
}

/// The value of the first attribute called `name`, if any.
pub open spec fn attr_of(attrs: Seq<(Seq<char>, Seq<char>)>, name: Seq<char>) -> Option<Seq<char>>
    decreases attrs.len(),
{
    if attrs.len() == 0 {
        None
    } else if attrs[0].0 == name {
        Some(attrs[0].1)
    } else {
        attr_of(attrs.drop_first(), name)
    }
}

impl HtmlNode {
    /// The elements that `selector` picks within this element's markup, read as a fragment.
    pub fn select(&self, selector: &str) -> (r: Result<Vec<HtmlNode>, String>)
        ensures
            match (r, selection(self.html@, true, selector@)) {
                (Ok(nodes), Ok(view)) => nodes_view(nodes@) == view,
                (Err(e), Err(v)) => e@ == v,
                _ => false,
            },
    {
        select_in(self.html.as_str(), true, selector)
    }

    /// The first element that `selector` picks within this element, if any.
    pub fn first(&self, selector: &str) -> (r: Result<Option<HtmlNode>, String>)
        ensures
            match (r, selection(self.html@, true, selector@)) {
                (Ok(Some(n)), Ok(view)) => view.len() > 0 && n@ == view[0],
                (Ok(None), Ok(view)) => view.len() == 0,
                (Err(e), Err(v)) => e@ == v,
                _ => false,
            },
    {
        first_of(self.select(selector))
    }

    /// The value of the attribute `name` (the first one so called), if any.
    pub fn attr(&self, name: &str) -> (r: Option<String>)
        ensures
            match r {
                Some(v) => attr_of(self@.attrs, name@) == Some(v@),
                None => attr_of(self@.attrs, name@) is None,
            },
    {
        let ghost all = self@.attrs;
        let mut i: usize = 0;
        while i < self.attrs.len()
            invariant
                i <= self.attrs@.len(),
                all == self@.attrs,
                attr_of(all, name@) == attr_of(all.skip(i as int), name@),
            decreases self.attrs@.len() - i,
        {
            let (key, value) = &self.attrs[i];
            proof {
                assert(all.skip(i as int)[0] == (key@, value@));
                assert(all.skip(i as int).drop_first() =~= all.skip(i + 1));
            }
            if crate::paths::str_is(key.as_str(), name) {
                return Some(value.clone());
            }
            i += 1;
        }
        assert(all.skip(i as int) =~= Seq::<(Seq<char>, Seq<char>)>::empty());
        None
    }
}

/// The element at the 1-based position `index` of a list, if there is one.
pub fn node_at(nodes: &Vec<HtmlNode>, index: usize) -> (r: Option<&HtmlNode>)
    ensures
        match r {
            Some(n) => 1 <= index <= nodes@.len() && *n == nodes@[index - 1],
            None => index == 0 || index > nodes@.len(),
        },
{
    if index == 0 || index > nodes.len() {
        None
    } else {
        Some(&nodes[index - 1])
    }
}

} // verus!
