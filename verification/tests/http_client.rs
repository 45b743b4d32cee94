use lazydeck::http_client::{parse_method, plan_request, HttpMethod};

#[test]
fn methods_are_read_without_regard_to_case() {
    assert_eq!(parse_method("GET"), Ok(HttpMethod::Get));
    assert_eq!(parse_method("post"), Ok(HttpMethod::Post));
    assert_eq!(parse_method("Put"), Ok(HttpMethod::Put));
    assert_eq!(parse_method("delete"), Ok(HttpMethod::Delete));
    assert_eq!(parse_method("pAtCh"), Ok(HttpMethod::Patch));
}

#[test]
fn unknown_methods_are_named_in_the_error() {
    assert_eq!(parse_method("fetch"), Err("Invalid method: fetch".to_string()));
    assert_eq!(parse_method(""), Err("Invalid method: ".to_string()));
}

#[test]
fn invalid_headers_are_left_out_in_order() {
    let headers = vec![
        ("Accept".to_string(), "application/json".to_string()),
        ("Bad Name".to_string(), "x".to_string()),
        ("X-Token".to_string(), "a\tb".to_string()),
        ("X-Line".to_string(), "a\nb".to_string()),
        ("".to_string(), "empty".to_string()),
        ("x-ünicode".to_string(), "1".to_string()),
        ("X-Empty".to_string(), "".to_string()),
    ];
    let plan = plan_request("get", "http://example.com".to_string(), headers, Some("body".to_string()), Some(500))
        .unwrap();
    assert_eq!(plan.method, HttpMethod::Get);
    assert_eq!(plan.url, "http://example.com");
    assert_eq!(plan.body.as_deref(), Some("body"));
    assert_eq!(plan.timeout_ms, Some(500));
    assert_eq!(
        plan.headers,
        vec![
            ("Accept".to_string(), "application/json".to_string()),
            ("X-Token".to_string(), "a\tb".to_string()),
            ("X-Empty".to_string(), "".to_string()),
        ]
    );
}

#[test]
fn a_request_with_an_unknown_method_is_not_planned() {
    let err = plan_request("TRACE", "http://example.com".to_string(), Vec::new(), None, None).err();
    assert_eq!(err, Some("Invalid method: TRACE".to_string()));
}
