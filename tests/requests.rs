use wassel::{guest_path, method_token, prefix_to_strip, reply_for, DispatchOutcome, OutboundError, Reply, WitMethod};

#[test]
fn guest_sees_root_for_the_endpoint_itself() {
    assert_eq!(guest_path("/hello", "/hello"), "/");
    assert_eq!(guest_path("/hello/", "/hello/"), "/");
}

#[test]
fn guest_sees_slash_and_suffix_after_the_endpoint() {
    assert_eq!(guest_path("/hello", "/hello/x"), "//x");
    assert_eq!(guest_path("/hello/", "/hello/x"), "/x");
    assert_eq!(guest_path("/hello/", "/hello/a/b?c=d"), "/a/b?c=d");
}

#[test]
fn guest_path_keeps_query() {
    assert_eq!(guest_path("/hello", "/hello?q=1"), "/?q=1");
}

#[test]
fn root_endpoint_is_stripped() {
    assert_eq!(guest_path("/", "/x/y"), "/x/y");
    assert_eq!(guest_path("/", "/"), "/");
}

#[test]
fn prefix_is_the_endpoint_when_the_request_starts_with_it() {
    assert_eq!(prefix_to_strip("/hello/", "/hello/x"), "/hello/");
    assert_eq!(prefix_to_strip("/hello", "/hello/x"), "/hello");
}

#[test]
fn prefix_falls_back_to_the_bare_mount() {
    assert_eq!(prefix_to_strip("/hello/", "/hello"), "/hello");
    assert_eq!(prefix_to_strip("/hello//", "/hello?q=1"), "/hello");
    let p = prefix_to_strip("/hello/", "/hello");
    assert_eq!(guest_path(&p, "/hello"), "/");
}

#[test]
fn standard_methods_have_canonical_names() {
    let cases = vec![
        (WitMethod::Get, "GET"),
        (WitMethod::Head, "HEAD"),
        (WitMethod::Post, "POST"),
        (WitMethod::Put, "PUT"),
        (WitMethod::Delete, "DELETE"),
        (WitMethod::Connect, "CONNECT"),
        (WitMethod::Options, "OPTIONS"),
        (WitMethod::Trace, "TRACE"),
        (WitMethod::Patch, "PATCH"),
    ];
    for (m, name) in cases {
        assert_eq!(method_token(&m), Ok(name.to_string()));
    }
}

#[test]
fn other_method_keeps_its_token() {
    assert_eq!(method_token(&WitMethod::Other("LINK".to_string())), Ok("LINK".to_string()));
    assert_eq!(method_token(&WitMethod::Other("purge".to_string())), Ok("purge".to_string()));
    assert_eq!(
        method_token(&WitMethod::Other("A-LONG-EXTENSION-METHOD".to_string())),
        Ok("A-LONG-EXTENSION-METHOD".to_string())
    );
}

#[test]
fn invalid_other_method_is_rejected() {
    assert_eq!(
        method_token(&WitMethod::Other("bad token\n".to_string())),
        Err(OutboundError::HttpRequestMethodInvalid)
    );
    assert_eq!(method_token(&WitMethod::Other(String::new())), Err(OutboundError::HttpRequestMethodInvalid));
    assert_eq!(method_token(&WitMethod::Other("G\u{c9}T".to_string())), Err(OutboundError::HttpRequestMethodInvalid));
}

#[test]
fn no_route_gives_404_with_empty_body() {
    assert_eq!(reply_for(DispatchOutcome::NoRoute), Reply { status: 404, empty_body: true });
}

#[test]
fn failures_give_500() {
    assert_eq!(reply_for(DispatchOutcome::InstantiateFailed), Reply { status: 500, empty_body: true });
    assert_eq!(reply_for(DispatchOutcome::HandleFailed), Reply { status: 500, empty_body: true });
}

#[test]
fn guest_response_is_forwarded() {
    assert_eq!(reply_for(DispatchOutcome::Responded(200)), Reply { status: 200, empty_body: false });
    assert_eq!(reply_for(DispatchOutcome::Responded(418)), Reply { status: 418, empty_body: false });
}
