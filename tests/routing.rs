use wassel::{assemble, mount_of, EndpointError, LoadCandidate, RouteTable};

fn table(mounts: &[(&str, &str)]) -> RouteTable {
    let mut t = RouteTable::new();
    for (endpoint, id) in mounts {
        let m = mount_of(endpoint).unwrap();
        assert!(t.insert_mount(m, id.to_string()));
    }
    t
}

fn candidate(id: &str, endpoint: &str, compiled: bool) -> LoadCandidate {
    LoadCandidate { id: id.to_string(), endpoint: endpoint.to_string(), compiled }
}

#[test]
fn mount_strips_trailing_slashes() {
    assert_eq!(mount_of("/hello"), Ok("/hello".to_string()));
    assert_eq!(mount_of("/hello/"), Ok("/hello".to_string()));
    assert_eq!(mount_of("/a//"), Ok("/a".to_string()));
    assert_eq!(mount_of("/"), Ok(String::new()));
    assert_eq!(mount_of("//"), Ok(String::new()));
}

#[test]
fn mount_rejects_missing_leading_slash() {
    assert_eq!(mount_of("hello"), Err(EndpointError::MissingLeadingSlash));
    assert_eq!(mount_of(""), Err(EndpointError::MissingLeadingSlash));
}

#[test]
fn mount_rejects_braces() {
    assert_eq!(mount_of("/users/{id}"), Err(EndpointError::ReservedCharacter));
    assert_eq!(mount_of("/a}"), Err(EndpointError::ReservedCharacter));
}

#[test]
fn hello_scenario_routes() {
    let t = table(&[("/hello", "hello")]);
    assert_eq!(t.resolve("/hello"), Some("hello".to_string()));
    assert_eq!(t.resolve("/hello/x"), Some("hello".to_string()));
    assert_eq!(t.resolve("/hello/"), Some("hello".to_string()));
    assert_eq!(t.resolve("/hello/x/y"), Some("hello".to_string()));
    assert_eq!(t.resolve("/bye"), None);
    assert_eq!(t.resolve("/helloworld"), None);
    assert_eq!(t.resolve("/"), None);
}

#[test]
fn longest_mount_is_selected() {
    let t = table(&[("/", "root"), ("/api", "api"), ("/api/v1/", "v1")]);
    assert_eq!(t.resolve("/api/v1/users"), Some("v1".to_string()));
    assert_eq!(t.resolve("/api/v1"), Some("v1".to_string()));
    assert_eq!(t.resolve("/api/v2"), Some("api".to_string()));
    assert_eq!(t.resolve("/api"), Some("api".to_string()));
    assert_eq!(t.resolve("/apix"), Some("root".to_string()));
    assert_eq!(t.resolve("/"), Some("root".to_string()));
    assert_eq!(t.resolve("/other/deep/path"), Some("root".to_string()));
}

#[test]
fn no_route_without_root_mount() {
    let t = table(&[("/a", "a"), ("/b/c", "bc")]);
    assert_eq!(t.resolve("/b"), None);
    assert_eq!(t.resolve("/b/"), None);
    assert_eq!(t.resolve("/b/c/d"), Some("bc".to_string()));
    assert_eq!(t.resolve(""), None);
}

#[test]
fn duplicate_mount_is_refused() {
    let mut t = RouteTable::new();
    assert!(t.insert_mount("/x".to_string(), "first".to_string()));
    assert!(!t.insert_mount("/x".to_string(), "second".to_string()));
    assert_eq!(t.resolve("/x"), Some("first".to_string()));
    assert_eq!(t.resolve("/x/y"), Some("first".to_string()));
}

#[test]
fn load_counts_compile_failures() {
    let cands = vec![
        candidate("a", "/a", true),
        candidate("b", "/b", false),
        candidate("c", "/c", true),
        candidate("d", "/d", false),
        candidate("e", "/", true),
    ];
    let loaded = assemble(&cands);
    assert_eq!(loaded.report.successes, 3);
    assert_eq!(loaded.report.errors, 2);
    assert_eq!(loaded.accepted, vec![true, false, true, false, true]);
    assert_eq!(loaded.routes.resolve("/a/1"), Some("a".to_string()));
    assert_eq!(loaded.routes.resolve("/b/1"), Some("e".to_string()));
    assert_eq!(loaded.routes.resolve("/c"), Some("c".to_string()));
}

#[test]
fn route_collision_skips_second_plugin() {
    let cands = vec![candidate("first", "/x", true), candidate("second", "/x", true)];
    let loaded = assemble(&cands);
    assert_eq!(loaded.report.successes, 1);
    assert_eq!(loaded.report.errors, 1);
    assert_eq!(loaded.accepted, vec![true, false]);
    assert_eq!(loaded.routes.resolve("/x"), Some("first".to_string()));
}

#[test]
fn collision_after_trailing_slash_normalization() {
    let cands = vec![candidate("first", "/x/", true), candidate("second", "/x", true)];
    let loaded = assemble(&cands);
    assert_eq!(loaded.accepted, vec![true, false]);
    assert_eq!(loaded.routes.resolve("/x/"), Some("first".to_string()));
}

#[test]
fn invalid_endpoint_is_a_load_error() {
    let cands = vec![candidate("a", "a", true), candidate("b", "/b/{x}", true), candidate("c", "/c", true)];
    let loaded = assemble(&cands);
    assert_eq!(loaded.report.successes, 1);
    assert_eq!(loaded.report.errors, 2);
    assert_eq!(loaded.accepted, vec![false, false, true]);
}

#[test]
fn empty_stack_loads_nothing() {
    let loaded = assemble(&Vec::new());
    assert_eq!(loaded.report.successes, 0);
    assert_eq!(loaded.report.errors, 0);
    assert_eq!(loaded.routes.resolve("/"), None);
}

#[test]
fn unrouted_path_gets_not_found_reply() {
    let t = table(&[("/hello", "hello")]);
    assert_eq!(wassel::route_or_reply(&t, "/bye"), Err(wassel::Reply { status: 404, empty_body: true }));
    assert_eq!(wassel::route_or_reply(&t, "/hello/x"), Ok("hello".to_string()));
}
