//! What an HTTP request from a plugin asks for: its method, read without regard to case, and
//! the headers whose names and values are valid; the rest is sent as given.

use vstd::prelude::*;
use vstd::utf8::*;

verus! {

broadcast use vstd::seq_lib::group_seq_properties;

/// `str::to_uppercase`: the Unicode uppercase mapping of a character sequence.
pub uninterp spec fn uppercase(s: Seq<char>) -> Seq<char>;

/// Calls `str::to_uppercase`. The contract only names the result (`uppercase`); the
/// Unicode case mapping itself is not claimed.
#[verifier::external_body]
fn to_uppercase(s: &str) -> (r: String)
    ensures
        r@ == uppercase(s@),
{
    s.to_uppercase()
}

/// A byte that a header name may hold: ASCII letters and digits and
/// `` ! # $ % & ' * + - . ^ _ ` | ~ ``.
pub open spec fn is_token_byte(b: u8) -> bool {
    ||| 0x30 <= b <= 0x39
    ||| 0x41 <= b <= 0x5A
    ||| 0x61 <= b <= 0x7A
    ||| b == 0x21 || b == 0x23 || b == 0x24 || b == 0x25 || b == 0x26 || b == 0x27
    ||| b == 0x2A || b == 0x2B || b == 0x2D || b == 0x2E
    ||| b == 0x5E || b == 0x5F || b == 0x60 || b == 0x7C || b == 0x7E
}

/// The bytes make a header name: one to 65535 bytes, each a name byte.
pub open spec fn valid_header_name(b: Seq<u8>) -> bool {
    &&& 0 < b.len() <= 65535
    &&& forall|i: int| 0 <= i < b.len() ==> is_token_byte(#[trigger] b[i])
}

/// The bytes make a header value: each is a tab or any byte from space up but delete.
pub open spec fn valid_header_value(b: Seq<u8>) -> bool {
    forall|i: int| 0 <= i < b.len() ==> (#[trigger] b[i] >= 32 && b[i] != 127) || b[i] == 9
}

/// `HeaderName::from_bytes` (of the `http` crate, which `reqwest::header` reexports) on the
/// name's UTF-8 bytes: whether it accepts them. Its source accepts one to 65535 bytes, each
/// an ASCII letter or digit or one of `` ! # $ % & ' * + - . ^ _ ` | ~ ``.
#[verifier::external_body]
fn header_name_accepted(name: &str) -> (r: bool)
    ensures
        r == valid_header_name(encode_utf8(name@)),
{
    reqwest::header::HeaderName::from_bytes(name.as_bytes()).is_ok()
}

/// `HeaderValue::from_str` (of the `http` crate, reexported by `reqwest::header`): whether
/// it accepts the value. Its source accepts exactly the texts whose bytes are each a tab or
/// at least 32 and not 127.
#[verifier::external_body]
fn header_value_accepted(value: &str) -> (r: bool)
    ensures
        r == valid_header_value(encode_utf8(value@)),
{
    reqwest::header::HeaderValue::from_str(value).is_ok()
}

/// A request method.
#[derive(Debug, Clone, Copy, PartialEq, Eq, Structural)]
pub enum HttpMethod {
    Get,
    Post,
    Put,
    Delete,
    Patch,
}

/// The method that an upper-cased method name names, if any.
pub open spec fn method_named(upper: Seq<char>) -> Option<HttpMethod> {
    if upper == "GET"@ {
        Some(HttpMethod::Get)
    } else if upper == "POST"@ {
        Some(HttpMethod::Post)
    } else if upper == "PUT"@ {
        Some(HttpMethod::Put)
    } else if upper == "DELETE"@ {
        Some(HttpMethod::Delete)
    } else if upper == "PATCH"@ {
        Some(HttpMethod::Patch)
    } else {
        None
    }
}

fn same_text(a: &str, b: &str) -> (r: bool)
    ensures
        r == (a@ == b@),
{
    let n = a.unicode_len();
    if n != b.unicode_len() {
        return false;
    }
    let mut i: usize = 0;
    while i < n
        invariant
            n == a@.len(),
            n == b@.len(),
            i <= n,
            forall|k: int| 0 <= k < i ==> a@[k] == b@[k],
        decreases n - i,
    {
        if a.get_char(i) != b.get_char(i) {
            return false;
        }
        i += 1;
    }
    assert(a@ =~= b@);
    true
}

/// The method of a request, its name read without regard to case; an unknown name is an
/// error that gives it back.
pub fn parse_method(method: &str) -> (r: Result<HttpMethod, String>)
    ensures
        match method_named(uppercase(method@)) {
            Some(m) => r == Ok::<HttpMethod, String>(m),
            None => r matches Err(e) && e@ == "Invalid method: "@ + method@,
        },
{
    let upper = to_uppercase(method);
    let u = upper.as_str();
    proof {
        reveal_strlit("GET");
        reveal_strlit("POST");
        reveal_strlit("PUT");
        reveal_strlit("DELETE");
        reveal_strlit("PATCH");
    }
    if same_text(u, "GET") {
        Ok(HttpMethod::Get)
    } else if same_text(u, "POST") {
        Ok(HttpMethod::Post)
    } else if same_text(u, "PUT") {
        Ok(HttpMethod::Put)
    } else if same_text(u, "DELETE") {
        Ok(HttpMethod::Delete)
    } else if same_text(u, "PATCH") {
        Ok(HttpMethod::Patch)
    } else {
        let mut e = "Invalid method: ".to_string();
        e.append(method);
        proof {
            reveal_strlit("Invalid method: ");
        }
        Err(e)
    }
}

/// The name and value make a valid header.
pub open spec fn valid_header(name: Seq<char>, value: Seq<char>) -> bool {
    valid_header_name(encode_utf8(name)) && valid_header_value(encode_utf8(value))
}

/// The pairs, in order, that make valid headers.
pub open spec fn valid_headers(pairs: Seq<(Seq<char>, Seq<char>)>) -> Seq<(Seq<char>, Seq<char>)>
    decreases pairs.len(),
{
    if pairs.len() == 0 {
        Seq::empty()
    } else {
        let rest = valid_headers(pairs.drop_last());
        let p = pairs.last();
        if valid_header(p.0, p.1) {
            rest.push(p)
        } else {
            rest
        }
    }
}

/// The pairs as texts.
pub open spec fn pairs_view(pairs: Seq<(String, String)>) -> Seq<(Seq<char>, Seq<char>)> {
    pairs.map_values(|p: (String, String)| (p.0@, p.1@))
}

/// A request to send.
pub struct RequestPlan {
    pub method: HttpMethod,
    pub url: String,
    /// The headers, in the order given.
    pub headers: Vec<(String, String)>,
    pub body: Option<String>,
    /// The time limit in milliseconds, when one was given.
    pub timeout_ms: Option<u64>,
}

/// The request that a plugin asks for: `method` read without regard to case; of the header
/// pairs, those that make valid headers (the others are left out); the other parts as
/// given. An unknown method is an error that names it.
pub fn plan_request(
    method: &str,
    url: String,
    headers: Vec<(String, String)>,
    body: Option<String>,
    timeout_ms: Option<u64>,
) -> (r: Result<RequestPlan, String>)
    ensures
        match method_named(uppercase(method@)) {
            Some(m) => r matches Ok(plan) && plan.method == m && plan.url == url && plan.body == body
                && plan.timeout_ms == timeout_ms && pairs_view(plan.headers@) == valid_headers(
                pairs_view(headers@),
            ),
            None => r matches Err(e) && e@ == "Invalid method: "@ + method@,
        },
{
    let m = match parse_method(method) {
        Ok(m) => m,
        Err(e) => {
            return Err(e);
        },
    };
    let mut kept: Vec<(String, String)> = Vec::new();
    let mut i: usize = 0;
    while i < headers.len()
        invariant
            i <= headers@.len(),
            pairs_view(kept@) == valid_headers(pairs_view(headers@.take(i as int))),
        decreases headers@.len() - i,
    {
        let (name, value) = &headers[i];
        let ghost before = kept@;
        proof {
            assert(pairs_view(headers@.take(i + 1)).drop_last() =~= pairs_view(headers@.take(i as int)));
            assert(pairs_view(headers@.take(i + 1)).last() == (name@, value@));
        }
        if header_name_accepted(name.as_str()) && header_value_accepted(value.as_str()) {
            kept.push((name.clone(), value.clone()));
            proof {
                assert(pairs_view(kept@) =~= pairs_view(before).push((name@, value@)));
            }
        }
        i += 1;
    }
    assert(headers@.take(headers@.len() as int) =~= headers@);
    Ok(RequestPlan { method: m, url, headers: kept, body, timeout_ms })
}

} // verus!
