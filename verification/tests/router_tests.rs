use ignyx_core::router::{Method, Router};

#[test]
fn test_basic_routing() {
    let mut router = Router::new();
    let idx = router.insert(Method::Get, "/hello").unwrap();
    assert_eq!(idx, 0);

    let m = router.find(Method::Get, "/hello").unwrap();
    assert_eq!(m.handler_index, 0);
    assert!(m.params.is_empty());
}

#[test]
fn test_path_params() {
    let mut router = Router::new();
    router.insert(Method::Get, "/users/{id}").unwrap();

    let m = router.find(Method::Get, "/users/42").unwrap();
    assert_eq!(m.handler_index, 0);
    assert_eq!(m.params.get("id").unwrap().as_str(), "42");
}

#[test]
fn test_method_isolation() {
    let mut router = Router::new();
    router.insert(Method::Get, "/test").unwrap();
    router.insert(Method::Post, "/test").unwrap();

    assert!(router.find(Method::Get, "/test").is_some());
    assert!(router.find(Method::Post, "/test").is_some());
    assert!(router.find(Method::Delete, "/test").is_none());
}

#[test]
fn unique_match_gets_exact_bindings() {
    let mut router = Router::new();
    router.insert(Method::Get, "/a/{x}/c").unwrap();
    router.insert(Method::Get, "/a/b/d").unwrap();
    router.insert(Method::Post, "/a/{x}/c").unwrap();

    let m = router.find(Method::Get, "/a/hello/c").unwrap();
    assert_eq!(m.handler_index, 0);
    assert_eq!(m.params.len(), 1);
    assert_eq!(m.params.get("x").unwrap().as_str(), "hello");

    let m2 = router.find(Method::Post, "/a/zz/c").unwrap();
    assert_eq!(m2.handler_index, 2);
    assert_eq!(m2.params.get("x").unwrap().as_str(), "zz");
}

#[test]
fn unregistered_combinations_do_not_match() {
    let mut router = Router::new();
    router.insert(Method::Get, "/users/{id}").unwrap();
    assert!(router.find(Method::Get, "/users").is_none());
    assert!(router.find(Method::Get, "/users/1/extra").is_none());
    assert!(router.find(Method::Put, "/users/1").is_none());
    assert!(router.find(Method::Get, "/other/1").is_none());
}

#[test]
fn multiple_params_bind_in_order() {
    let mut router = Router::new();
    router.insert(Method::Get, "/{a}/{b}").unwrap();
    let m = router.find(Method::Get, "/first/second").unwrap();
    assert_eq!(m.params.len(), 2);
    assert_eq!(m.params.get("a").unwrap().as_str(), "first");
    assert_eq!(m.params.get("b").unwrap().as_str(), "second");
}

#[test]
fn reregistration_yields_distinct_indices() {
    let mut router = Router::new();
    let i1 = router.insert(Method::Get, "/dup").unwrap();
    let i2 = router.insert(Method::Get, "/dup").unwrap();
    assert_ne!(i1, i2);
    assert_eq!(i1, 0);
    assert_eq!(i2, 1);
}

#[test]
fn duplicate_param_name_is_rejected() {
    let mut router = Router::new();
    assert!(router.insert(Method::Get, "/{x}/{x}").is_err());
    assert_eq!(router.len(), 0);
}

#[test]
fn method_from_str_is_case_insensitive() {
    assert_eq!(Method::from_str("GET"), Some(Method::Get));
    assert_eq!(Method::from_str("get"), Some(Method::Get));
    assert_eq!(Method::from_str("PoSt"), Some(Method::Post));
    assert_eq!(Method::from_str("put"), Some(Method::Put));
    assert_eq!(Method::from_str("DELETE"), Some(Method::Delete));
    assert_eq!(Method::from_str("patch"), Some(Method::Patch));
    assert_eq!(Method::from_str("HEAD"), Some(Method::Head));
    assert_eq!(Method::from_str("options"), Some(Method::Options));
    assert_eq!(Method::from_str("FOO"), None);
    assert_eq!(Method::from_str(""), None);
}
