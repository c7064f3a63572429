use router::compiler::compile_matcher;
use router::compiler::extract_variable_positions;
use router::router::Router;

#[test]
fn creates_valid_regex_for_var_routes() {
    let map = extract_variable_positions("foo/:uid/bar/:groupid");

    assert_eq!(map.len(), 2);
    assert_eq!(map.get(&":uid".to_string()), Some(0));
    assert_eq!(map.get(&":groupid".to_string()), Some(1));
}

#[test]
fn can_get_variable_infos() {
    let regex = compile_matcher("foo/:uid/bar/:groupid").unwrap();
    assert_eq!(regex.is_match("foo/4711/bar/5490"), true);

    let caps = regex.captures("foo/4711/bar/5490").unwrap();

    assert_eq!(caps[0].as_deref(), Some("4711"));
    assert_eq!(caps[1].as_deref(), Some("5490"));
    assert_eq!(regex.is_match("foo/"), false);
}

#[test]
fn can_match_var_routes() {
    let mut route_store = Router::new();

    let handler = "hello from foo";

    route_store
        .add_route("/foo/:userid".to_string(), handler)
        .unwrap();
    route_store.add_route("/bar".to_string(), handler).unwrap();

    let result = route_store.match_route("/foo/4711".to_string()).unwrap();
    let route = result.route;

    assert_eq!(route.variables().len(), 1);
    assert_eq!(route.variables().get(&":userid".to_string()), Some(0));
}

#[test]
fn match_binds_variable_values_by_name() {
    let mut router = Router::new();
    router.add_route("/foo/:userid".to_string(), 1u32).unwrap();
    router.add_route("/bar".to_string(), 2u32).unwrap();

    let result = router.match_route("/foo/4711".to_string()).unwrap();
    assert_eq!(result.bindings.len(), 1);
    assert_eq!(
        result.bindings.get(&":userid".to_string()),
        Some(&"4711".to_string())
    );
    assert_eq!(*result.route.handler(), 1u32);
}

#[test]
fn unmatched_path_yields_absent_result() {
    let mut router = Router::new();
    router.add_route("/bar".to_string(), 0u8).unwrap();
    router.add_route("/baz".to_string(), 1u8).unwrap();

    assert!(router.match_route("/foo/4711".to_string()).is_none());
    assert!(Router::<u8>::new().match_route("/foo".to_string()).is_none());
}

#[test]
fn earlier_registered_route_wins() {
    let mut router = Router::new();
    router.add_route("/x/:a".to_string(), "first").unwrap();
    router.add_route("/x/:b".to_string(), "second").unwrap();

    let result = router.match_route("/x/7".to_string()).unwrap();
    assert_eq!(result.route.path().as_str(), "/x/:a");
    assert_eq!(*result.route.handler(), "first");

    // The same two routes registered the other way round.
    let mut router = Router::new();
    router.add_route("/x/:b".to_string(), "second").unwrap();
    router.add_route("/x/:a".to_string(), "first").unwrap();
    let result = router.match_route("/x/7".to_string()).unwrap();
    assert_eq!(result.route.path().as_str(), "/x/:b");
}

#[test]
fn match_route_is_idempotent() {
    let mut router = Router::new();
    router.add_route("/foo/:userid".to_string(), 9i64).unwrap();

    let first = router.match_route("/foo/42".to_string()).unwrap();
    let second = router.match_route("/foo/42".to_string()).unwrap();

    assert_eq!(first.route.path(), second.route.path());
    assert_eq!(first.bindings.len(), second.bindings.len());
    assert_eq!(
        first.bindings.get(&":userid".to_string()),
        second.bindings.get(&":userid".to_string())
    );
    assert!(std::ptr::eq(first.route, second.route));
}

#[test]
fn invalid_pattern_leaves_router_unchanged() {
    let mut router = Router::new();
    router.add_route("/ok/:id".to_string(), ()).unwrap();

    assert!(router.add_route("/bad/(".to_string(), ()).is_err());
    assert_eq!(router.len(), 1);

    let result = router.match_route("/ok/5".to_string()).unwrap();
    assert_eq!(result.route.path().as_str(), "/ok/:id");
    assert_eq!(
        result.bindings.get(&":id".to_string()),
        Some(&"5".to_string())
    );
}

#[test]
fn invalid_pattern_is_a_pattern_error() {
    assert!(compile_matcher("/bad/(").is_err());
    assert!(compile_matcher("/good/:id").is_ok());
}

#[test]
fn repeated_variable_name_keeps_last_position() {
    let map = extract_variable_positions("/a/:x/b/:x");
    assert_eq!(map.len(), 1);
    assert_eq!(map.get(&":x".to_string()), Some(1));

    let mut router = Router::new();
    router.add_route("/a/:x/b/:x".to_string(), ()).unwrap();
    let result = router.match_route("/a/1/b/2".to_string()).unwrap();
    assert_eq!(result.bindings.len(), 1);
    assert_eq!(result.bindings.get(&":x".to_string()), Some(&"2".to_string()));
}

#[test]
fn pattern_without_variables_has_empty_mapping() {
    let map = extract_variable_positions("plain/path");
    assert_eq!(map.len(), 0);
    assert_eq!(map.get(&":id".to_string()), None);
}

#[test]
fn distinct_variables_are_numbered_left_to_right() {
    let map = extract_variable_positions(":a/:b/:c");
    assert_eq!(map.len(), 3);
    assert_eq!(map.get(&":a".to_string()), Some(0));
    assert_eq!(map.get(&":b".to_string()), Some(1));
    assert_eq!(map.get(&":c".to_string()), Some(2));
}

#[test]
fn matcher_is_anchored_at_both_ends() {
    let m = compile_matcher("foo").unwrap();
    assert!(m.is_match("foo"));
    assert!(!m.is_match("xfoo"));
    assert!(!m.is_match("foox"));
}

#[test]
fn variable_values_allow_name_characters_only() {
    let m = compile_matcher("/u/:id").unwrap();
    assert!(m.is_match("/u/a_b-9"));
    assert!(!m.is_match("/u/"));
    assert!(!m.is_match("/u/a/b"));
}

#[test]
fn lone_sigil_is_literal_text() {
    // A `:` not followed by a name character is no variable token.
    let map = extract_variable_positions("/a/:/b");
    assert_eq!(map.len(), 0);

    let m = compile_matcher("/a/:/b").unwrap();
    assert!(m.is_match("/a/:/b"));
    assert!(!m.is_match("/a/x/b"));
}

#[test]
fn empty_pattern_matches_empty_path_only() {
    let m = compile_matcher("").unwrap();
    assert!(m.is_match(""));
    assert!(!m.is_match("/"));
}

#[test]
fn cloned_router_resolves_like_the_original() {
    let mut router = Router::new();
    router.add_route("/foo/:userid".to_string(), 5u8).unwrap();

    let copy = router.clone();
    let a = router.match_route("/foo/9".to_string()).unwrap();
    let b = copy.match_route("/foo/9".to_string()).unwrap();

    assert_eq!(a.route.path(), b.route.path());
    assert_eq!(b.bindings.get(&":userid".to_string()), Some(&"9".to_string()));
    assert_eq!(*b.route.handler(), 5u8);
}
