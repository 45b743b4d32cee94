use lazydeck::http::{frame_response, Route};
use lazydeck::resolver::{resolver_response, route_response, ReadStep, RequestBuffer, ResolverOutcome, MAX_REQUEST_SIZE};

fn body_text(r: &lazydeck::http::HttpResponseData) -> String {
    String::from_utf8(r.body.clone()).unwrap()
}

#[test]
fn a_request_is_complete_once_its_header_ends() {
    let mut buffer = RequestBuffer::new();
    assert_eq!(buffer.feed(b"GET / HTTP/1.1\r\nHost: x\r\n"), ReadStep::More);
    assert_eq!(buffer.feed(b"\r"), ReadStep::More);
    assert_eq!(buffer.feed(b"\nbody"), ReadStep::Complete);
    assert_eq!(buffer.data, b"GET / HTTP/1.1\r\nHost: x\r\n\r\nbody".to_vec());
}

#[test]
fn a_header_that_never_ends_is_too_large() {
    let mut buffer = RequestBuffer::new();
    let chunk = vec![b'a'; 4096];
    let mut steps = Vec::new();
    for _ in 0..17 {
        steps.push(buffer.feed(&chunk));
    }
    assert!(steps[..16].iter().all(|s| *s == ReadStep::More));
    assert_eq!(buffer.data.len(), 17 * 4096);
    assert!(buffer.data.len() > MAX_REQUEST_SIZE);
    assert_eq!(steps[16], ReadStep::TooLarge);
}

#[test]
fn routes_without_a_resolver_are_answered_directly() {
    let health = route_response(&Route::Health).unwrap();
    assert_eq!((health.status, body_text(&health)), (200, "ok".to_string()));
    let none = route_response(&Route::NoRoute).unwrap();
    assert_eq!((none.status, body_text(&none)), (404, "not found".to_string()));
    let missing = route_response(&Route::MissingName).unwrap();
    assert_eq!((missing.status, body_text(&missing)), (404, "resolver name is required".to_string()));
    assert!(route_response(&Route::Resolver("song".to_string())).is_none());
}

#[test]
fn a_resolvers_answer_keeps_its_parts_with_defaults() {
    let r = resolver_response(ResolverOutcome::Answered {
        status: None,
        headers: vec![("X-A".to_string(), "1".to_string())],
        body: None,
    });
    assert_eq!(r.status, 200);
    assert_eq!(r.headers, vec![("X-A".to_string(), "1".to_string())]);
    assert!(r.body.is_empty());
    let r = resolver_response(ResolverOutcome::Answered { status: Some(302), headers: Vec::new(), body: Some(b"x".to_vec()) });
    assert_eq!((r.status, r.body), (302, b"x".to_vec()));
}

#[test]
fn resolver_failures_become_plain_errors() {
    let cases = [
        (ResolverOutcome::Unknown, 404, "resolver not found"),
        (ResolverOutcome::Raised("boom".to_string()), 500, "boom"),
        (ResolverOutcome::Dropped, 500, "resolver dropped response"),
        (ResolverOutcome::TimedOut, 504, "resolver timed out"),
        (ResolverOutcome::NotDispatched, 500, "failed to dispatch resolver"),
    ];
    for (outcome, status, body) in cases {
        let r = resolver_response(outcome);
        assert_eq!(r.status, status);
        assert_eq!(body_text(&r), body);
        assert_eq!(r.headers, vec![("Content-Type".to_string(), "text/plain; charset=utf-8".to_string())]);
    }
}

#[test]
fn a_timed_out_resolver_is_framed_as_gateway_timeout() {
    let data = frame_response(resolver_response(ResolverOutcome::TimedOut));
    let text = String::from_utf8(data).unwrap();
    assert!(text.starts_with("HTTP/1.1 504 Gateway Timeout\r\n"));
    assert!(text.ends_with("\r\n\r\nresolver timed out"));
}
