//! The local HTTP server's side of a request: reading it until its header ends, answering
//! the routes that need no resolver, and turning what came of a resolver into the response.

use vstd::prelude::*;
use vstd::utf8::*;
use crate::http::{simple_response, HttpResponseData, Route};

verus! {

broadcast use vstd::seq_lib::group_seq_properties;

/// The most a request may hold before its header ends.
pub const MAX_REQUEST_SIZE: usize = 65536;

/// The bytes hold an empty line, `\r\n\r\n`, at `i`.
pub open spec fn blank_line_at(b: Seq<u8>, i: int) -> bool {
    0 <= i && i + 4 <= b.len() && b[i] == 13 && b[i + 1] == 10 && b[i + 2] == 13 && b[i + 3] == 10
}

/// The header of the request has ended: the bytes hold `\r\n\r\n`.
pub open spec fn header_ended(b: Seq<u8>) -> bool {
    exists|i: int| blank_line_at(b, i)
}

/// What reading a chunk led to.
#[derive(Debug, Clone, Copy, PartialEq, Eq, Structural)]
pub enum ReadStep {
    /// The header has ended: the request is read.
    Complete,
    /// More is to be read.
    More,
    /// The header has not ended within the size allowed.
    TooLarge,
}

/// The bytes of a request read so far.
pub struct RequestBuffer {
    pub data: Vec<u8>,
}

impl RequestBuffer {
    pub fn new() -> (r: RequestBuffer)
        ensures
            r.data@.len() == 0,
    {
        RequestBuffer { data: Vec::new() }
    }

    /// Adds a chunk read from the connection: the request is complete once its header has
    /// ended, too large when more than `MAX_REQUEST_SIZE` bytes came without that.
    pub fn feed(&mut self, chunk: &[u8]) -> (r: ReadStep)
        requires
            old(self).data@.len() + chunk@.len() <= usize::MAX,
        ensures
            final(self).data@ == old(self).data@ + chunk@,
            r == if header_ended(final(self).data@) {
                ReadStep::Complete
            } else if final(self).data@.len() > MAX_REQUEST_SIZE {
                ReadStep::TooLarge
            } else {
                ReadStep::More
            },
    {
        let ghost start = self.data@;
        let mut k: usize = 0;
        while k < chunk.len()
            invariant
                k <= chunk@.len(),
                start == old(self).data@,
                self.data@ == start + chunk@.take(k as int),
            decreases chunk@.len() - k,
        {
            self.data.push(chunk[k]);
            proof {
                assert(start + chunk@.take(k + 1) =~= (start + chunk@.take(k as int)).push(chunk@[k as int]));
            }
            k += 1;
        }
        assert(chunk@.take(chunk@.len() as int) =~= chunk@);
        let n = self.data.len();
        let mut i: usize = 0;
        while n >= 4 && i <= n - 4
            invariant
                n == self.data@.len(),
                self.data@ == start + chunk@,
                start == old(self).data@,
                i <= n,
                forall|j: int| 0 <= j < i ==> !blank_line_at(self.data@, j),
            decreases n - i,
        {
            if self.data[i] == 13 && self.data[i + 1] == 10 && self.data[i + 2] == 13 && self.data[i + 3] == 10 {
                assert(blank_line_at(self.data@, i as int));
                return ReadStep::Complete;
            }
            i += 1;
        }
        assert(!header_ended(self.data@)) by {
            assert forall|j: int| !blank_line_at(self.data@, j) by {
                if 0 <= j < i {
                } else {
                }
            }
        }
        if n > MAX_REQUEST_SIZE {
            ReadStep::TooLarge
        } else {
            ReadStep::More
        }
    }
}

/// The plain-text response with `status` and `body`.
pub open spec fn is_simple(r: HttpResponseData, status: u16, body: Seq<char>) -> bool {
    &&& r.status == status
    &&& r.body@ == encode_utf8(body)
    &&& r.headers@.len() == 1
    &&& r.headers@[0].0@ == "Content-Type"@
    &&& r.headers@[0].1@ == "text/plain; charset=utf-8"@
}

/// The response to a route that needs no resolver: the health check is answered `ok`; a
/// path outside the resolvers and a resolver path without a name are not found. A
/// resolver's route has none.
pub fn route_response(route: &Route) -> (r: Option<HttpResponseData>)
    ensures
        match route {
            Route::Health => r matches Some(resp) && is_simple(resp, 200, "ok"@),
            Route::NoRoute => r matches Some(resp) && is_simple(resp, 404, "not found"@),
            Route::MissingName => r matches Some(resp) && is_simple(resp, 404, "resolver name is required"@),
            Route::Resolver(_) => r is None,
        },
{
    match route {
        Route::Health => Some(simple_response(200, "ok")),
        Route::NoRoute => Some(simple_response(404, "not found")),
        Route::MissingName => Some(simple_response(404, "resolver name is required")),
        Route::Resolver(_) => None,
    }
}

/// What came of handing a request to a resolver.
pub enum ResolverOutcome {
    /// The resolver answered, with the status and body it gave, if it gave them, and its
    /// headers.
    Answered { status: Option<u16>, headers: Vec<(String, String)>, body: Option<Vec<u8>> },
    /// No resolver is registered under the name.
    Unknown,
    /// The resolver raised this error before it answered.
    Raised(String),
    /// The resolver can no longer answer.
    Dropped,
    /// The resolver did not answer in time.
    TimedOut,
    /// The request could not be handed to the resolvers.
    NotDispatched,
}

/// The response to a request handed to a resolver: the resolver's answer, its status 200
/// and its body empty unless it gave them; otherwise a plain-text error: 404 for an unknown
/// resolver, 500 with the message of an error it raised, 500 when it can no longer answer
/// or the request could not be handed to it, 504 when it did not answer in time.
pub fn resolver_response(outcome: ResolverOutcome) -> (r: HttpResponseData)
    ensures
        match outcome {
            ResolverOutcome::Answered { status, headers, body } => {
                &&& r.status == match status {
                    Some(s) => s,
                    None => 200u16,
                }
                &&& r.headers@ == headers@
                &&& r.body@ == match body {
                    Some(b) => b@,
                    None => Seq::<u8>::empty(),
                }
            },
            ResolverOutcome::Unknown => is_simple(r, 404, "resolver not found"@),
            ResolverOutcome::Raised(e) => is_simple(r, 500, e@),
            ResolverOutcome::Dropped => is_simple(r, 500, "resolver dropped response"@),
            ResolverOutcome::TimedOut => is_simple(r, 504, "resolver timed out"@),
            ResolverOutcome::NotDispatched => is_simple(r, 500, "failed to dispatch resolver"@),
        },
{
    match outcome {
        ResolverOutcome::Answered { status, headers, body } => HttpResponseData {
            status: match status {
                Some(s) => s,
                None => 200,
            },
            headers,
            body: match body {
                Some(b) => b,
                None => Vec::new(),
            },
        },
        ResolverOutcome::Unknown => simple_response(404, "resolver not found"),
        ResolverOutcome::Raised(e) => simple_response(500, e.as_str()),
        ResolverOutcome::Dropped => simple_response(500, "resolver dropped response"),
        ResolverOutcome::TimedOut => simple_response(504, "resolver timed out"),
        ResolverOutcome::NotDispatched => simple_response(500, "failed to dispatch resolver"),
    }
}

} // verus!
