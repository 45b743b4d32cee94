//! The local HTTP server through which plugins resolve URLs: reading a request's head,
//! routing it, and writing a response.

use vstd::prelude::*;
use vstd::string::*;
use vstd::utf8::*;
use crate::keys::{ascii_lower, find_char, index_of_char, lemma_index_of_char_bound};
use crate::text::{from_chars, sub_chars, to_chars, trim, trim_chars, is_ws, ws_prefix_len, lemma_ws_prefix_len, is_whitespace_char};
use crate::text_map::TextMap;
use crate::utf8_check::check_utf8;

verus! {

broadcast use vstd::seq_lib::group_seq_properties;


/// The text that `percent_encoding::percent_decode_str(s).decode_utf8_lossy()` gives.
pub uninterp spec fn lossy_decoded(s: Seq<char>) -> Seq<char>;

/// `percent_encoding::percent_decode_str(s).decode_utf8_lossy()`: when the decoded bytes are
/// valid UTF-8 it is their text.
#[verifier::external_body]
fn decode_component(s: &str) -> (r: String)
    ensures
        r@ == lossy_decoded(s@),
        valid_utf8(crate::path_codec::percent_decode_bytes(encode_utf8(s@))) ==> r@ == decode_utf8(
            crate::path_codec::percent_decode_bytes(encode_utf8(s@)),
        ),
{
    percent_encoding::percent_decode_str(s).decode_utf8_lossy().to_string()
}

/// A percent-encoded component decoded: the text of its decoded bytes where they are valid
/// UTF-8, else what lossy decoding gives (`lossy_decoded`).
pub open spec fn decoded_component(s: Seq<char>) -> Seq<char> {
    let bytes = crate::path_codec::percent_decode_bytes(encode_utf8(s));
    if valid_utf8(bytes) {
        decode_utf8(bytes)
    } else {
        lossy_decoded(s)
    }
}

/// The first position from `i` on where `p` occurs in `s`.
pub open spec fn find_from(s: Seq<char>, p: Seq<char>, i: int) -> Option<int>
    decreases s.len() + 1 - i,
{
    if i < 0 || i + p.len() > s.len() {
        None
    } else if s.subrange(i, i + p.len()) == p {
        Some(i)
    } else {
        find_from(s, p, i + 1)
    }
}

pub(crate) proof fn lemma_find_from_bound(s: Seq<char>, p: Seq<char>, i: int)
    ensures
        find_from(s, p, i) matches Some(k) ==> i <= k && k + p.len() <= s.len() && s.subrange(
            k,
            k + p.len(),
        ) == p,
    decreases s.len() + 1 - i,
{
    if 0 <= i && i + p.len() <= s.len() && s.subrange(i, i + p.len()) != p {
        lemma_find_from_bound(s, p, i + 1);
    }
}

/// `s` split at every occurrence of the non-empty `sep` (as `str::split`).
pub open spec fn split_on(s: Seq<char>, sep: Seq<char>) -> Seq<Seq<char>>
    decreases s.len(),
{
    if sep.len() == 0 {
        seq![s]
    } else {
        match find_from(s, sep, 0) {
            Some(k) => if 0 <= k && k + sep.len() <= s.len() {
                seq![s.take(k)] + split_on(s.skip(k + sep.len()), sep)
            } else {
                seq![s]
            },
            None => seq![s],
        }
    }
}

/// Number of leading characters of `s` that are not whitespace.
pub open spec fn word_len(s: Seq<char>) -> nat
    decreases s.len(),
{
    if s.len() > 0 && !is_ws(s[0]) {
        1 + word_len(s.drop_first())
    } else {
        0
    }
}

proof fn lemma_word_len(s: Seq<char>)
    ensures
        word_len(s) <= s.len(),
        forall|i: int| 0 <= i < word_len(s) ==> !is_ws(#[trigger] s[i]),
        word_len(s) < s.len() ==> is_ws(s[word_len(s) as int]),
    decreases s.len(),
{
    if s.len() > 0 && !is_ws(s[0]) {
        lemma_word_len(s.drop_first());
        assert forall|i: int| 0 <= i < word_len(s) implies !is_ws(#[trigger] s[i]) by {
            if i > 0 {
                assert(s[i] == s.drop_first()[i - 1]);
            }
        }
    }
}

/// The first whitespace-separated word of `s` and what follows it.
pub open spec fn first_word(s: Seq<char>) -> Option<(Seq<char>, Seq<char>)> {
    let t = s.skip(ws_prefix_len(s) as int);
    if t.len() == 0 {
        None
    } else {
        let w = word_len(t) as int;
        Some((t.take(w), t.skip(w)))
    }
}

/// ASCII letters of `s` in lowercase.
pub open spec fn ascii_lowercase(s: Seq<char>) -> Seq<char> {
    Seq::new(s.len(), |i: int| ascii_lower(s[i]))
}

/// The header a line declares: its lowercased name and its value, when it holds a `:`.
pub open spec fn header_of(line: Seq<char>) -> Option<(Seq<char>, Seq<char>)> {
    match index_of_char(line, ':') {
        Some(i) => Some((ascii_lowercase(trim(line.take(i))), trim(line.skip(i + 1)))),
        None => None,
    }
}

/// The headers of the lines, a later one replacing an earlier one of the same name.
pub open spec fn headers_of(lines: Seq<Seq<char>>) -> Map<Seq<char>, Seq<char>>
    decreases lines.len(),
{
    if lines.len() == 0 {
        Map::empty()
    } else {
        let m = headers_of(lines.drop_last());
        match header_of(lines.last()) {
            Some((k, v)) => m.insert(k, v),
            None => m,
        }
    }
}

/// The query parameters of `&`-separated pairs, decoded; a pair without `=` has an empty
/// value and empty pairs are skipped.
pub open spec fn query_of(pairs: Seq<Seq<char>>) -> Map<Seq<char>, Seq<char>>
    decreases pairs.len(),
{
    if pairs.len() == 0 {
        Map::empty()
    } else {
        let m = query_of(pairs.drop_last());
        let p = pairs.last();
        if p.len() == 0 {
            m
        } else {
            match index_of_char(p, '=') {
                Some(i) => m.insert(decoded_component(p.take(i)), decoded_component(p.skip(i + 1))),
                None => m.insert(decoded_component(p), decoded_component(Seq::empty())),
            }
        }
    }
}

/// A request's head as plain values.
pub ghost struct RequestSpec {
    pub method: Seq<char>,
    pub path: Seq<char>,
    pub query: Map<Seq<char>, Seq<char>>,
    pub headers: Map<Seq<char>, Seq<char>>,
}

/// A request that cannot be read.
#[derive(Debug, PartialEq, Eq)]
pub enum RequestError {
    NotUtf8,
    Incomplete,
    MissingMethod,
    MissingTarget,
    MissingVersion,
}

impl RequestError {
    /// The text answered with status 400.
    pub fn message(&self) -> (m: &'static str)
        ensures
            m@ == match *self {
                RequestError::NotUtf8 => "request is not valid UTF-8"@,
                RequestError::Incomplete => "incomplete http request"@,
                RequestError::MissingMethod => "missing request method"@,
                RequestError::MissingTarget => "missing request target"@,
                RequestError::MissingVersion => "missing http version"@,
            },
    {
        match self {
            RequestError::NotUtf8 => "request is not valid UTF-8",
            RequestError::Incomplete => "incomplete http request",
            RequestError::MissingMethod => "missing request method",
            RequestError::MissingTarget => "missing request target",
            RequestError::MissingVersion => "missing http version",
        }
    }
}

/// The request that `bytes` hold: UTF-8 text whose head ends at the first blank line; the
/// first line holds method, target and version; the target's path and query are decoded.
pub open spec fn request_of(bytes: Seq<u8>) -> Result<RequestSpec, RequestError> {
    if !valid_utf8(bytes) {
        Err(RequestError::NotUtf8)
    } else {
        let text = decode_utf8(bytes);
        match find_from(text, seq!['\r', '\n', '\r', '\n'], 0) {
            None => Err(RequestError::Incomplete),
            Some(end) => {
                let lines = split_on(text.take(end), seq!['\r', '\n']);
                match first_word(lines[0]) {
                    None => Err(RequestError::MissingMethod),
                    Some((method, rest)) => match first_word(rest) {
                        None => Err(RequestError::MissingTarget),
                        Some((target, rest2)) => match first_word(rest2) {
                            None => Err(RequestError::MissingVersion),
                            Some(_) => {
                                let (raw_path, raw_query) = match index_of_char(target, '?') {
                                    Some(q) => (target.take(q), target.skip(q + 1)),
                                    None => (target, Seq::<char>::empty()),
                                };
                                Ok(
                                    RequestSpec {
                                        method,
                                        path: decoded_component(raw_path),
                                        query: if raw_query.len() == 0 {
                                            Map::empty()
                                        } else {
                                            query_of(split_on(raw_query, seq!['&']))
                                        },
                                        headers: headers_of(lines.skip(1)),
                                    },
                                )
                            },
                        },
                    },
                }
            },
        }
    }
}

/// A request's head.
pub struct HttpRequestData {
    pub method: String,
    pub path: String,
    pub query: TextMap<String>,
    pub headers: TextMap<String>,
}

/// The text values of a map.
pub open spec fn text_values(m: Map<Seq<char>, String>) -> Map<Seq<char>, Seq<char>> {
    m.map_values(|v: String| v@)
}

impl HttpRequestData {
    pub open spec fn spec(&self) -> RequestSpec {
        RequestSpec {
            method: self.method@,
            path: self.path@,
            query: text_values(self.query.view()),
            headers: text_values(self.headers.view()),
        }
    }
}

/// The first position from `from` on where `p` occurs in `s`.
pub(crate) fn find_seq(s: &Vec<char>, p: &Vec<char>, from: usize) -> (r: Option<usize>)
    requires
        from <= s@.len(),
    ensures
        match r {
            Some(k) => find_from(s@, p@, from as int) == Some(k as int),
            None => find_from(s@, p@, from as int) is None,
        },
{
    let n = s.len();
    let m = p.len();
    let mut i = from;
    while i <= n && m <= n - i
        invariant
            from <= i,
            n == s@.len(),
            m == p@.len(),
            find_from(s@, p@, from as int) == find_from(s@, p@, i as int),
        decreases n + 1 - i,
    {
        let mut j: usize = 0;
        let mut same = true;
        while j < m && same
            invariant
                j <= m,
                i + m <= n,
                n == s@.len(),
                m == p@.len(),
                same ==> forall|t: int| 0 <= t < j ==> s@[i + t] == p@[t],
                !same ==> s@.subrange(i as int, i + m) != p@,
            decreases m - j + (if same { 1int } else { 0int }),
        {
            if s[i + j] != p[j] {
                same = false;
                assert(s@.subrange(i as int, i + m)[j as int] != p@[j as int]);
            } else {
                j += 1;
            }
        }
        if same {
            assert(s@.subrange(i as int, i + m) =~= p@);
            return Some(i);
        }
        if m == 0 {
            assert(s@.subrange(i as int, i as int) =~= p@);
        }
        i += 1;
    }
    None
}

/// `s` split at every occurrence of `sep`.
fn split_chars(s: &Vec<char>, sep: &Vec<char>) -> (r: Vec<Vec<char>>)
    requires
        sep@.len() > 0,
    ensures
        r@.map_values(|v: Vec<char>| v@) == split_on(s@, sep@),
{
    let mut out: Vec<Vec<char>> = Vec::new();
    let mut cur: Vec<char> = sub_chars(s, 0, s.len());
    proof {
        assert(cur@ =~= s@);
        assert(out@.map_values(|v: Vec<char>| v@) + split_on(cur@, sep@) =~= split_on(s@, sep@));
    }
    loop
        invariant
            sep@.len() > 0,
            out@.map_values(|v: Vec<char>| v@) + split_on(cur@, sep@) == split_on(s@, sep@),
        decreases cur@.len(),
    {
        match find_seq(&cur, sep, 0) {
            Some(k) => {
                let cn = cur.len();
                proof {
                    lemma_find_from_bound(cur@, sep@, 0);
                    assert(k + sep@.len() <= cur@.len());
                }
                let head = sub_chars(&cur, 0, k);
                let tail = sub_chars(&cur, k + sep.len(), cur.len());
                let ghost before = out@.map_values(|v: Vec<char>| v@);
                out.push(head);
                proof {
                    assert(out@.map_values(|v: Vec<char>| v@) =~= before.push(cur@.take(k as int)));
                    assert(tail@ =~= cur@.skip(k + sep@.len()));
                    assert(split_on(cur@, sep@) == seq![cur@.take(k as int)] + split_on(tail@, sep@));
                    assert(before.push(cur@.take(k as int)) + split_on(tail@, sep@) =~= before + (seq![
                        cur@.take(k as int),
                    ] + split_on(tail@, sep@)));
                }
                cur = tail;
            },
            None => {
                let ghost before = out@.map_values(|v: Vec<char>| v@);
                out.push(cur);
                proof {
                    assert(out@.map_values(|v: Vec<char>| v@) =~= before + seq![cur@]);
                }
                return out;
            },
        }
    }
}

/// The first word of `s` and what follows it.
fn take_word(s: &Vec<char>) -> (r: Option<(Vec<char>, Vec<char>)>)
    ensures
        match r {
            Some((w, rest)) => first_word(s@) == Some((w@, rest@)),
            None => first_word(s@) is None,
        },
{
    let n = s.len();
    let mut i: usize = 0;
    proof {
        lemma_ws_prefix_len(s@);
    }
    while i < n && is_whitespace_char(s[i])
        invariant
            i <= n,
            n == s@.len(),
            i <= ws_prefix_len(s@),
            forall|k: int| 0 <= k < ws_prefix_len(s@) ==> is_ws(#[trigger] s@[k]),
            ws_prefix_len(s@) < n ==> !is_ws(s@[ws_prefix_len(s@) as int]),
            ws_prefix_len(s@) <= n,
        decreases n - i,
    {
        i += 1;
    }
    assert(i == ws_prefix_len(s@));
    let t = sub_chars(s, i, n);
    assert(t@ =~= s@.skip(i as int));
    if t.len() == 0 {
        return None;
    }
    proof {
        lemma_word_len(t@);
    }
    let m = t.len();
    let mut j: usize = 0;
    while j < m && !is_whitespace_char(t[j])
        invariant
            j <= m,
            m == t@.len(),
            j <= word_len(t@),
            forall|k: int| 0 <= k < word_len(t@) ==> !is_ws(#[trigger] t@[k]),
            word_len(t@) < m ==> is_ws(t@[word_len(t@) as int]),
            word_len(t@) <= m,
        decreases m - j,
    {
        j += 1;
    }
    assert(j == word_len(t@));
    let w = sub_chars(&t, 0, j);
    let rest = sub_chars(&t, j, m);
    assert(w@ =~= t@.take(j as int));
    assert(rest@ =~= t@.skip(j as int));
    Some((w, rest))
}

/// ASCII letters of `s` in lowercase.
fn lowercase_ascii(s: &Vec<char>) -> (r: Vec<char>)
    ensures
        r@ == ascii_lowercase(s@),
{
    let mut r: Vec<char> = Vec::new();
    let mut i: usize = 0;
    while i < s.len()
        invariant
            i <= s@.len(),
            r@ == ascii_lowercase(s@.take(i as int)),
        decreases s@.len() - i,
    {
        let c = s[i];
        let l = if 'A' <= c && c <= 'Z' {
            (((c as u32) + 32) as u8) as char
        } else {
            c
        };
        r.push(l);
        assert(r@ =~= ascii_lowercase(s@.take(i + 1)));
        i += 1;
    }
    assert(s@.take(i as int) =~= s@);
    r
}

/// The header that `line` declares.
fn parse_header(line: &Vec<char>) -> (r: Option<(String, String)>)
    ensures
        match r {
            Some((k, v)) => header_of(line@) == Some((k@, v@)),
            None => header_of(line@) is None,
        },
{
    let n = line.len();
    match find_char(line, ':') {
        Some(i) => {
            proof {
                lemma_index_of_char_bound(line@, ':');
            }
            let name = sub_chars(line, 0, i);
            let value = sub_chars(line, i + 1, line.len());
            let tn = trim_chars(&name);
            let lower = lowercase_ascii(&tn);
            let tv = trim_chars(&value);
            proof {
                assert(name@ =~= line@.take(i as int));
                assert(value@ =~= line@.skip(i + 1));
            }
            Some((from_chars(lower.as_slice()), from_chars(tv.as_slice())))
        },
        None => None,
    }
}

/// The query parameters of the pairs.
fn parse_query(pairs: &Vec<Vec<char>>) -> (r: TextMap<String>)
    ensures
        r.wf(),
        text_values(r.view()) == query_of(pairs@.map_values(|v: Vec<char>| v@)),
{
    let ghost pv = pairs@.map_values(|v: Vec<char>| v@);
    let mut m: TextMap<String> = TextMap::new();
    let mut i: usize = 0;
    proof {
        assert(pv.take(0) =~= Seq::<Seq<char>>::empty());
        assert(text_values(m.view()) =~= Map::<Seq<char>, Seq<char>>::empty());
    }
    while i < pairs.len()
        invariant
            i <= pairs@.len(),
            pv == pairs@.map_values(|v: Vec<char>| v@),
            m.wf(),
            text_values(m.view()) == query_of(pv.take(i as int)),
        decreases pairs@.len() - i,
    {
        proof {
            assert(pv.take(i + 1).drop_last() =~= pv.take(i as int));
            assert(pv.take(i + 1).last() == pairs@[i as int]@);
        }
        let p = &pairs[i];
        if p.len() > 0 {
            let ghost before = m.view();
            match find_char(p, '=') {
                Some(e) => {
                    proof {
                        lemma_index_of_char_bound(p@, '=');
                    }
                    let k = from_chars(sub_chars(p, 0, e).as_slice());
                    let v = from_chars(sub_chars(p, e + 1, p.len()).as_slice());
                    proof {
                        assert(k@ =~= p@.take(e as int));
                        assert(v@ =~= p@.skip(e + 1));
                    }
                    let dk = decode_component(k.as_str());
                    let dv = decode_component(v.as_str());
                    m.insert(dk, dv);
                    proof {
                        assert(text_values(m.view()) =~= text_values(before).insert(dk@, dv@));
                    }
                },
                None => {
                    let k = from_chars(p.as_slice());
                    let dk = decode_component(k.as_str());
                    let dv = decode_component("");
                    proof {
                        reveal_strlit("");
                        assert(""@ =~= Seq::<char>::empty());
                    }
                    m.insert(dk, dv);
                    proof {
                        assert(text_values(m.view()) =~= text_values(before).insert(dk@, dv@));
                    }
                },
            }
        }
        i += 1;
    }
    proof {
        assert(pv.take(i as int) =~= pv);
    }
    m
}

/// The headers of the lines.
fn parse_headers(lines: &Vec<Vec<char>>, from: usize) -> (r: TextMap<String>)
    requires
        from <= lines@.len(),
    ensures
        r.wf(),
        text_values(r.view()) == headers_of(lines@.map_values(|v: Vec<char>| v@).skip(from as int)),
{
    let ghost lv = lines@.map_values(|v: Vec<char>| v@).skip(from as int);
    let mut m: TextMap<String> = TextMap::new();
    let mut i: usize = from;
    proof {
        assert(lv.take(0) =~= Seq::<Seq<char>>::empty());
        assert(text_values(m.view()) =~= Map::<Seq<char>, Seq<char>>::empty());
    }
    while i < lines.len()
        invariant
            from <= i <= lines@.len(),
            lv == lines@.map_values(|v: Vec<char>| v@).skip(from as int),
            m.wf(),
            text_values(m.view()) == headers_of(lv.take(i - from)),
        decreases lines@.len() - i,
    {
        proof {
            assert(lv.take(i - from + 1).drop_last() =~= lv.take(i - from));
            assert(lv.take(i - from + 1).last() == lines@[i as int]@);
        }
        let ghost before = m.view();
        match parse_header(&lines[i]) {
            Some((k, v)) => {
                let ghost kv = k@;
                let ghost vv = v@;
                m.insert(k, v);
                proof {
                    assert(text_values(m.view()) =~= text_values(before).insert(kv, vv));
                }
            },
            None => {},
        }
        i += 1;
    }
    proof {
        assert(lv.take(i - from) =~= lv);
    }
    m
}

/// Reads a request's head from `buffer` (see `request_of`).
pub fn parse_request(buffer: &[u8]) -> (r: Result<HttpRequestData, RequestError>)
    ensures
        match r {
            Ok(req) => request_of(buffer@) == Ok::<RequestSpec, RequestError>(req.spec()) && req.query.wf()
                && req.headers.wf(),
            Err(e) => request_of(buffer@) == Err::<RequestSpec, RequestError>(e),
        },
{
    let text = match check_utf8(buffer) {
        Ok(t) => t,
        Err(_) => {
            return Err(RequestError::NotUtf8);
        },
    };
    proof {
        broadcast use encode_utf8_decode_utf8;

        assert(decode_utf8(buffer@) == text@);
    }
    let chars = to_chars(text.as_str());
    let blank = to_chars("\r\n\r\n");
    proof {
        reveal_strlit("\r\n\r\n");
        assert(blank@ =~= seq!['\r', '\n', '\r', '\n']);
    }
    let end = match find_seq(&chars, &blank, 0) {
        Some(e) => e,
        None => {
            return Err(RequestError::Incomplete);
        },
    };
    proof {
        lemma_find_from_bound(chars@, blank@, 0);
    }
    let head = sub_chars(&chars, 0, end);
    assert(head@ =~= chars@.take(end as int));
    let crlf = to_chars("\r\n");
    proof {
        reveal_strlit("\r\n");
        assert(crlf@ =~= seq!['\r', '\n']);
    }
    let lines = split_chars(&head, &crlf);
    let ghost lv = lines@.map_values(|v: Vec<char>| v@);
    proof {
        assert(lv.len() > 0) by {
            reveal_with_fuel(split_on, 2);
        }
    }
    let (method, rest) = match take_word(&lines[0]) {
        Some(x) => x,
        None => {
            return Err(RequestError::MissingMethod);
        },
    };
    let (target, rest2) = match take_word(&rest) {
        Some(x) => x,
        None => {
            return Err(RequestError::MissingTarget);
        },
    };
    if take_word(&rest2).is_none() {
        return Err(RequestError::MissingVersion);
    }
    let tn = target.len();
    let (raw_path, raw_query) = match find_char(&target, '?') {
        Some(q) => {
            proof {
                lemma_index_of_char_bound(target@, '?');
            }
            let a = sub_chars(&target, 0, q);
            let b = sub_chars(&target, q + 1, tn);
            assert(a@ =~= target@.take(q as int));
            assert(b@ =~= target@.skip(q + 1));
            (a, b)
        },
        None => (sub_chars(&target, 0, tn), Vec::new()),
    };
    proof {
        assert(raw_path@ =~= match index_of_char(target@, '?') {
            Some(q) => target@.take(q),
            None => target@,
        });
    }
    let path_text = from_chars(raw_path.as_slice());
    let path = decode_component(path_text.as_str());
    let query = if raw_query.len() == 0 {
        let q: TextMap<String> = TextMap::new();
        assert(text_values(q.view()) =~= Map::<Seq<char>, Seq<char>>::empty());
        q
    } else {
        let amp = to_chars("&");
        proof {
            reveal_strlit("&");
            assert(amp@ =~= seq!['&']);
        }
        let pairs = split_chars(&raw_query, &amp);
        parse_query(&pairs)
    };
    let headers = parse_headers(&lines, 1);
    Ok(HttpRequestData { method: from_chars(method.as_slice()), path, query, headers })
}

/// How a request is answered: the health check, a named resolver, or not found.
#[derive(Debug, PartialEq, Eq)]
pub enum Route {
    Health,
    Resolver(String),
    /// Not under `/r/`.
    NoRoute,
    /// `/r/` with no name after it.
    MissingName,
}

/// Routes a request path: `/health`, or `/r/<name>` for the resolver `name`.
pub fn route(path: &str) -> (r: Route)
    ensures
        path@ == "/health"@ ==> r == Route::Health,
        path@ != "/health"@ && path@.len() >= 3 && path@.take(3) == "/r/"@ && path@.len() > 3 ==> (r
            matches Route::Resolver(n) && n@ == path@.skip(3)),
        path@ != "/health"@ && path@.len() >= 3 && path@.take(3) == "/r/"@ && path@.len() == 3 ==> r
            == Route::MissingName,
        path@ != "/health"@ && !(path@.len() >= 3 && path@.take(3) == "/r/"@) ==> r == Route::NoRoute,
{
    if crate::paths::str_is(path, "/health") {
        return Route::Health;
    }
    let c = to_chars(path);
    let prefix = to_chars("/r/");
    proof {
        reveal_strlit("/r/");
        assert(prefix@ =~= seq!['/', 'r', '/']);
    }
    if c.len() >= 3 && c[0] == '/' && c[1] == 'r' && c[2] == '/' {
        assert(c@.take(3) =~= prefix@);
        if c.len() == 3 {
            return Route::MissingName;
        }
        let name = sub_chars(&c, 3, c.len());
        assert(name@ =~= c@.skip(3));
        return Route::Resolver(from_chars(name.as_slice()));
    }
    proof {
        if c@.len() >= 3 && c@.take(3) == "/r/"@ {
            assert(c@.take(3)[0] == '/' && c@.take(3)[1] == 'r' && c@.take(3)[2] == '/');
        }
    }
    Route::NoRoute
}

/// A response: status, headers in order and body.
pub struct HttpResponseData {
    pub status: u16,
    pub headers: Vec<(String, String)>,
    pub body: Vec<u8>,
}

/// The bytes of `s` as a vector.
fn bytes_of(s: &str) -> (v: Vec<u8>)
    ensures
        v@ == encode_utf8(s@),
{
    let b = s.as_bytes();
    let mut v: Vec<u8> = Vec::new();
    let mut i: usize = 0;
    while i < b.len()
        invariant
            i <= b@.len(),
            b@ == encode_utf8(s@),
            v@ == b@.take(i as int),
        decreases b@.len() - i,
    {
        v.push(b[i]);
        assert(v@ =~= b@.take(i + 1));
        i += 1;
    }
    assert(b@.take(i as int) =~= b@);
    v
}

/// A plain-text response with status `status` and body `body`.
pub fn simple_response(status: u16, body: &str) -> (r: HttpResponseData)
    ensures
        r.status == status,
        r.body@ == encode_utf8(body@),
        r.headers@.len() == 1,
        r.headers@[0].0@ == "Content-Type"@,
        r.headers@[0].1@ == "text/plain; charset=utf-8"@,
{
    let mut headers: Vec<(String, String)> = Vec::new();
    headers.push((String::from_str("Content-Type"), String::from_str("text/plain; charset=utf-8")));
    HttpResponseData { status, headers, body: bytes_of(body) }
}

/// The reason phrase of a status code ("OK" for one not listed).
pub open spec fn reason_of(status: u16) -> Seq<char> {
    if status == 200 {
        "OK"@
    } else if status == 204 {
        "No Content"@
    } else if status == 302 {
        "Found"@
    } else if status == 307 {
        "Temporary Redirect"@
    } else if status == 400 {
        "Bad Request"@
    } else if status == 404 {
        "Not Found"@
    } else if status == 405 {
        "Method Not Allowed"@
    } else if status == 500 {
        "Internal Server Error"@
    } else if status == 502 {
        "Bad Gateway"@
    } else if status == 503 {
        "Service Unavailable"@
    } else if status == 504 {
        "Gateway Timeout"@
    } else {
        "OK"@
    }
}

/// The reason phrase of a status code.
pub fn reason_phrase(status: u16) -> (s: &'static str)
    ensures
        s@ == reason_of(status),
{
    if status == 200 {
        "OK"
    } else if status == 204 {
        "No Content"
    } else if status == 302 {
        "Found"
    } else if status == 307 {
        "Temporary Redirect"
    } else if status == 400 {
        "Bad Request"
    } else if status == 404 {
        "Not Found"
    } else if status == 405 {
        "Method Not Allowed"
    } else if status == 500 {
        "Internal Server Error"
    } else if status == 502 {
        "Bad Gateway"
    } else if status == 503 {
        "Service Unavailable"
    } else if status == 504 {
        "Gateway Timeout"
    } else {
        "OK"
    }
}

/// Some header is named `name`, regardless of ASCII case.
pub open spec fn has_header(headers: Seq<(Seq<char>, Seq<char>)>, name: Seq<char>) -> bool {
    exists|i: int| 0 <= i < headers.len() && ascii_lowercase(#[trigger] headers[i].0) == ascii_lowercase(name)
}

/// The headers of a response as text.
pub open spec fn headers_view(h: Seq<(String, String)>) -> Seq<(Seq<char>, Seq<char>)> {
    h.map_values(|p: (String, String)| (p.0@, p.1@))
}

/// The headers written: those given, then `Content-Length` and `Connection: close` unless
/// given.
pub open spec fn final_headers(headers: Seq<(Seq<char>, Seq<char>)>, body_len: nat) -> Seq<(Seq<char>, Seq<char>)> {
    let h1 = if has_header(headers, "content-length"@) {
        headers
    } else {
        headers.push(("Content-Length"@, crate::time::decimal(body_len)))
    };
    if has_header(headers, "connection"@) {
        h1
    } else {
        h1.push(("Connection"@, "close"@))
    }
}

/// The header lines, each `name: value` and a line break.
pub open spec fn header_lines(h: Seq<(Seq<char>, Seq<char>)>) -> Seq<u8>
    decreases h.len(),
{
    if h.len() == 0 {
        Seq::empty()
    } else {
        header_lines(h.drop_last()) + encode_utf8(h.last().0 + ": "@ + h.last().1 + "\r\n"@)
    }
}

/// The bytes of a response: status line, headers, a blank line and the body.
pub open spec fn framed(status: u16, headers: Seq<(Seq<char>, Seq<char>)>, body: Seq<u8>) -> Seq<u8> {
    let h = final_headers(headers, body.len());
    encode_utf8("HTTP/1.1 "@ + crate::time::decimal(status as nat) + " "@ + reason_of(status) + "\r\n"@)
        + header_lines(h) + encode_utf8("\r\n"@) + body
}

/// Whether two strings are equal regardless of ASCII case.
fn eq_ignore_ascii_case(a: &String, b: &str) -> (r: bool)
    ensures
        r == (ascii_lowercase(a@) == ascii_lowercase(b@)),
{
    let x = lowercase_ascii(&to_chars(a.as_str()));
    let y = lowercase_ascii(&to_chars(b));
    crate::text::chars_eq(x.as_slice(), y.as_slice())
}

fn any_header(headers: &Vec<(String, String)>, name: &str) -> (r: bool)
    ensures
        r == has_header(headers_view(headers@), name@),
{
    let ghost hv = headers_view(headers@);
    let mut i: usize = 0;
    while i < headers.len()
        invariant
            i <= headers@.len(),
            hv == headers_view(headers@),
            forall|k: int| 0 <= k < i ==> ascii_lowercase(#[trigger] hv[k].0) != ascii_lowercase(name@),
        decreases headers@.len() - i,
    {
        if eq_ignore_ascii_case(&headers[i].0, name) {
            assert(ascii_lowercase(hv[i as int].0) == ascii_lowercase(name@));
            return true;
        }
        i += 1;
    }
    false
}

/// Appends the bytes of `s`.
fn push_text(out: &mut Vec<u8>, s: &str)
    ensures
        final(out)@ == old(out)@ + encode_utf8(s@),
{
    let b = s.as_bytes();
    let mut i: usize = 0;
    while i < b.len()
        invariant
            i <= b@.len(),
            b@ == encode_utf8(s@),
            out@ == old(out)@ + b@.take(i as int),
        decreases b@.len() - i,
    {
        out.push(b[i]);
        assert(out@ =~= old(out)@ + b@.take(i + 1));
        i += 1;
    }
    assert(b@.take(i as int) =~= b@);
}

/// The bytes that answer a request (see `framed`).
pub fn frame_response(response: HttpResponseData) -> (data: Vec<u8>)
    ensures
        data@ == framed(response.status, headers_view(response.headers@), response.body@),
{
    let HttpResponseData { status, headers, body } = response;
    let ghost given = headers_view(headers@);
    let has_length = any_header(&headers, "content-length");
    let has_connection = any_header(&headers, "connection");
    let mut headers = headers;
    if !has_length {
        let len = crate::time::decimal_string(body.len() as u128);
        headers.push((String::from_str("Content-Length"), len));
    }
    if !has_connection {
        headers.push((String::from_str("Connection"), String::from_str("close")));
    }
    let ghost all = headers_view(headers@);
    proof {
        assert(all =~= final_headers(given, body@.len()));
    }
    let mut line = String::from_str("HTTP/1.1 ");
    line.append(crate::time::decimal_string(status as u128).as_str());
    line.append(" ");
    line.append(reason_phrase(status));
    line.append("\r\n");
    let mut data: Vec<u8> = Vec::new();
    push_text(&mut data, line.as_str());
    let ghost start = data@;
    let mut i: usize = 0;
    proof {
        assert(all.take(0) =~= Seq::<(Seq<char>, Seq<char>)>::empty());
        assert(data@ =~= start + header_lines(all.take(0)));
    }
    while i < headers.len()
        invariant
            i <= headers@.len(),
            all == headers_view(headers@),
            data@ == start + header_lines(all.take(i as int)),
        decreases headers@.len() - i,
    {
        let mut h = headers[i].0.clone();
        h.append(": ");
        h.append(headers[i].1.as_str());
        h.append("\r\n");
        let ghost before = data@;
        push_text(&mut data, h.as_str());
        proof {
            assert(all.take(i + 1).drop_last() =~= all.take(i as int));
            assert(all.take(i + 1).last() == all[i as int]);
            assert(data@ =~= start + header_lines(all.take(i + 1)));
        }
        i += 1;
    }
    proof {
        assert(all.take(i as int) =~= all);
    }
    push_text(&mut data, "\r\n");
    let mut k: usize = 0;
    let ghost mid = data@;
    while k < body.len()
        invariant
            k <= body@.len(),
            data@ == mid + body@.take(k as int),
        decreases body@.len() - k,
    {
        data.push(body[k]);
        assert(data@ =~= mid + body@.take(k + 1));
        k += 1;
    }
    proof {
        assert(body@.take(k as int) =~= body@);
        assert(data@ =~= framed(status, given, body@));
    }
    data
}

/// The upper-case hexadecimal digit for `n` (below 16).
pub open spec fn upper_hex(n: int) -> char {
    if n < 10 {
        ('0' as int + n) as char
    } else {
        ('A' as int + n - 10) as char
    }
}

/// A byte that a query component spells as `%XX`: non-ASCII and control bytes, and
/// `space " # % & + ? = /`.
pub open spec fn query_escaped(b: u8) -> bool {
    b >= 0x80 || b < 0x20 || b == 0x7F || b == 0x20 || b == 0x22 || b == 0x23 || b == 0x25 || b == 0x26
        || b == 0x2B || b == 0x3F || b == 0x3D || b == 0x2F
}

/// Percent-encoding of bytes for a query component.
pub open spec fn query_encode(b: Seq<u8>) -> Seq<char>
    decreases b.len(),
{
    if b.len() == 0 {
        Seq::empty()
    } else {
        let x = b.last();
        query_encode(b.drop_last()) + if query_escaped(x) {
            seq!['%', upper_hex(x as int / 16), upper_hex(x as int % 16)]
        } else {
            seq![x as char]
        }
    }
}

fn upper_hex_char(n: u8) -> (c: char)
    requires
        n < 16,
    ensures
        c == upper_hex(n as int),
{
    if n < 10 {
        ((48u8 + n) as char)
    } else {
        ((55u8 + n) as char)
    }
}

/// Percent-encodes a query component (as `utf8_percent_encode` with the query set).
pub fn encode_component(value: &str) -> (r: String)
    ensures
        r@ == query_encode(encode_utf8(value@)),
{
    let b = value.as_bytes();
    let mut out: Vec<char> = Vec::new();
    let mut i: usize = 0;
    while i < b.len()
        invariant
            i <= b@.len(),
            b@ == encode_utf8(value@),
            out@ == query_encode(b@.take(i as int)),
        decreases b@.len() - i,
    {
        let x = b[i];
        let esc = x >= 0x80 || x < 0x20 || x == 0x7F || x == 0x20 || x == 0x22 || x == 0x23 || x == 0x25
            || x == 0x26 || x == 0x2B || x == 0x3F || x == 0x3D || x == 0x2F;
        if esc {
            out.push('%');
            out.push(upper_hex_char(x / 16));
            out.push(upper_hex_char(x % 16));
        } else {
            out.push(x as char);
        }
        proof {
            assert(b@.take(i + 1).drop_last() =~= b@.take(i as int));
            assert(b@.take(i + 1).last() == x);
        }
        i += 1;
    }
    assert(b@.take(i as int) =~= b@);
    from_chars(out.as_slice())
}

/// `query_encode` escapes exactly the bytes of `query_escaped`.
proof fn lemma_query_encode_by(b: Seq<u8>)
    ensures
        query_encode(b) == crate::codec::percent_encode_by(b, |x: u8| query_escaped(x)),
    decreases b.len(),
{
    if b.len() > 0 {
        lemma_query_encode_by(b.drop_last());
    }
}

/// Decoding an encoded query component, as a request's query is decoded, gives the text
/// back.
pub proof fn law_query_component_roundtrip(s: Seq<char>)
    ensures
        valid_utf8(crate::path_codec::percent_decode_bytes(encode_utf8(query_encode(encode_utf8(s))))),
        decode_utf8(crate::path_codec::percent_decode_bytes(encode_utf8(query_encode(encode_utf8(s))))) == s,
{
    let e = |x: u8| query_escaped(x);
    assert(crate::codec::decodable_set(e));
    lemma_query_encode_by(encode_utf8(s));
    crate::codec::lemma_percent_roundtrip(s, e);
    encode_utf8_valid_utf8(s);
    encode_utf8_decode_utf8(s);
}

/// The query string of parameter pairs: `key=value`, encoded, joined by `&`.
pub open spec fn query_string(pairs: Seq<(Seq<char>, Seq<char>)>) -> Seq<char>
    decreases pairs.len(),
{
    if pairs.len() == 0 {
        Seq::empty()
    } else {
        let item = query_encode(encode_utf8(pairs.last().0)) + seq!['='] + query_encode(
            encode_utf8(pairs.last().1),
        );
        if pairs.len() == 1 {
            item
        } else {
            query_string(pairs.drop_last()) + seq!['&'] + item
        }
    }
}

/// The address of the server: `http://host:port`.
pub open spec fn base_url_of(host: Seq<char>, port: u16) -> Seq<char> {
    "http://"@ + host + ":"@ + crate::time::decimal(port as nat)
}

/// The address of the server.
pub fn base_url(host: &str, port: u16) -> (r: String)
    ensures
        r@ == base_url_of(host@, port),
{
    let mut r = String::from_str("http://");
    r.append(host);
    r.append(":");
    r.append(crate::time::decimal_string(port as u128).as_str());
    r
}

/// A resolver name is usable when it is not blank.
pub fn resolver_name_ok(name: &str) -> (b: bool)
    ensures
        b == (trim(name@).len() > 0),
{
    let c = to_chars(name);
    trim_chars(&c).len() > 0
}

/// The address of resolver `name` on the server, with the query string of `params` when
/// there are any.
pub fn resolver_url(host: &str, port: u16, name: &str, params: &Vec<(String, String)>) -> (r: String)
    ensures
        r@ == base_url_of(host@, port) + "/r/"@ + query_encode(encode_utf8(name@)) + (if params@.len() == 0 {
            Seq::<char>::empty()
        } else {
            seq!['?'] + query_string(headers_view(params@))
        }),
{
    let mut url = base_url(host, port);
    url.append("/r/");
    url.append(encode_component(name).as_str());
    if params.len() > 0 {
        let ghost pv = headers_view(params@);
        let mut q = String::new();
        let mut i: usize = 0;
        proof {
            assert(pv.take(0) =~= Seq::<(Seq<char>, Seq<char>)>::empty());
            reveal_strlit("&");
            reveal_strlit("=");
            assert("&"@ =~= seq!['&']);
            assert("="@ =~= seq!['=']);
        }
        while i < params.len()
            invariant
                i <= params@.len(),
                pv == headers_view(params@),
                q@ == query_string(pv.take(i as int)),
                "&"@ == seq!['&'],
                "="@ == seq!['='],
            decreases params@.len() - i,
        {
            if i > 0 {
                q.append("&");
            }
            q.append(encode_component(params[i].0.as_str()).as_str());
            q.append("=");
            q.append(encode_component(params[i].1.as_str()).as_str());
            proof {
                assert(pv.take(i + 1).drop_last() =~= pv.take(i as int));
                assert(pv.take(i + 1).last() == pv[i as int]);
            }
            i += 1;
        }
        proof {
            assert(pv.take(i as int) =~= pv);
            reveal_strlit("?");
            assert("?"@ =~= seq!['?']);
        }
        url.append("?");
        url.append(q.as_str());
    }
    url
}

} // verus!
