use ignyx_core::middleware::{execute_after_middlewares, execute_before_middlewares, HookOutcome};
use ignyx_core::binding::FormFiles;
use ignyx_core::multipart::{classify_field, parse_multipart, FieldClass};
use ignyx_core::params::ParamMap;
use ignyx_core::response::Response;
use ignyx_core::router::Method;
use ignyx_core::server::{AppState, Server};
use ignyx_core::signature::{HandlerSignature, ParamKind};

fn simple_sig(names: Vec<&str>) -> HandlerSignature {
    let owned: Vec<String> = names.iter().map(|s| s.to_string()).collect();
    let kinds = vec![None; owned.len()];
    HandlerSignature::new(owned, kinds, false, false).unwrap()
}

#[test]
fn add_route_validates_method() {
    let mut server = Server::new();
    assert!(server.add_route("GET", "/a").is_ok());
    assert!(server.add_route("post", "/b").is_ok());
    let err = server.add_route("TELEPORT", "/c").unwrap_err();
    assert_eq!(err.as_str(), "Unsupported method: TELEPORT");
    assert_eq!(server.routes.len(), 2);
}

#[test]
fn build_keeps_tables_synchronized() {
    let mut server = Server::new();
    server.add_route("GET", "/users/{id}").unwrap();
    server.add_route("POST", "/users").unwrap();
    let sigs = vec![simple_sig(vec!["id"]), simple_sig(vec!["body"])];
    let state = AppState::build(&server, sigs).unwrap();

    let m = state.find_route(Method::Get, "/users/7").unwrap();
    assert_eq!(m.handler_index, 0);
    assert_eq!(m.params.get("id").unwrap().as_str(), "7");
    let sig = state.signature_at(m.handler_index);
    assert_eq!(sig.param_names[0].as_str(), "id");

    let m = state.find_route(Method::Post, "/users").unwrap();
    assert_eq!(m.handler_index, 1);
    assert!(state.find_route(Method::Delete, "/users").is_none());
}

#[test]
fn build_needs_one_signature_per_route() {
    let mut server = Server::new();
    server.add_route("GET", "/a").unwrap();
    assert!(AppState::build(&server, Vec::new()).is_err());
}

#[test]
fn signature_rejects_duplicate_names() {
    let names = vec!["a".to_string(), "a".to_string()];
    assert!(HandlerSignature::new(names, vec![None, None], false, false).is_err());
}

#[test]
fn signature_cost_rules() {
    let sig = simple_sig(vec!["request", "body"]);
    assert!(sig.needs_request(0));
    assert!(sig.needs_body());
    let sig = simple_sig(vec!["x"]);
    assert!(!sig.needs_request(0));
    assert!(sig.needs_request(2));
    assert!(!sig.needs_body());
}

#[test]
fn signature_kind_lookup() {
    let sig = HandlerSignature::new(
        vec!["id".to_string(), "q".to_string()],
        vec![Some(ParamKind::IntKind), None],
        true,
        true,
    )
    .unwrap();
    assert!(sig.kind_of("id") == Some(ParamKind::IntKind));
    assert!(sig.kind_of("q").is_none());
    assert!(sig.kind_of("missing").is_none());
    assert!(sig.has_param("q"));
    assert!(!sig.has_param("missing"));
    assert!(sig.is_async);
    assert!(sig.has_depends);
}

#[test]
fn before_hooks_fold_in_order() {
    let outcomes = vec![
        HookOutcome::Unchanged,
        HookOutcome::Replaced(5),
        HookOutcome::Replaced(9),
        HookOutcome::Unchanged,
    ];
    assert_eq!(execute_before_middlewares(1, &outcomes), Ok(9));

    let failing = vec![
        HookOutcome::Replaced(5),
        HookOutcome::Failed,
        HookOutcome::Replaced(9),
    ];
    assert_eq!(execute_before_middlewares(1, &failing), Err(1));
}

#[test]
fn after_hooks_fold_in_reverse() {
    // The hook at index 0 runs last, so its replacement wins.
    let outcomes = vec![
        HookOutcome::Replaced(3),
        HookOutcome::Replaced(7),
        HookOutcome::Failed,
    ];
    assert_eq!(execute_after_middlewares(1, &outcomes), 3);

    let outcomes = vec![HookOutcome::Unchanged, HookOutcome::Replaced(7)];
    assert_eq!(execute_after_middlewares(1, &outcomes), 7);
}

#[test]
fn response_builders() {
    let r = Response::new("x".to_string(), 204, None);
    assert_eq!(r.status_code, 204);
    assert_eq!(r.headers.get("content-type").unwrap().as_str(), "application/json");

    let mut h = ParamMap::new();
    h.insert("content-type".to_string(), "text/csv".to_string());
    let r = Response::new("x".to_string(), 200, Some(h));
    assert_eq!(r.headers.get("content-type").unwrap().as_str(), "text/csv");

    let r = Response::json("{}".to_string(), None);
    assert_eq!(r.status_code, 200);
    assert_eq!(r.headers.get("content-type").unwrap().as_str(), "application/json");

    let r = Response::text("hi".to_string(), Some(418));
    assert_eq!(r.status_code, 418);
    assert_eq!(r.headers.get("content-type").unwrap().as_str(), "text/plain");
    assert_eq!(r.body.as_str(), "hi");
}

#[test]
fn multipart_field_classification() {
    match classify_field(
        Some("a.bin".to_string()),
        None,
        vec![1, 2, 3],
        String::new(),
    ) {
        FieldClass::File(f) => {
            assert_eq!(f.filename.as_str(), "a.bin");
            assert_eq!(f.content_type.as_str(), "application/octet-stream");
            assert_eq!(f.data, vec![1, 2, 3]);
        }
        _ => panic!("a field with a filename is a file"),
    }
    match classify_field(None, None, Vec::new(), "words".to_string()) {
        FieldClass::Text(t) => assert_eq!(t.as_str(), "words"),
        _ => panic!("a field without a filename is text"),
    }
}

#[test]
fn multipart_decoding_end_to_end() {
    let mut text = String::new();
    text.push_str("--XBOUND\r\n");
    text.push_str("Content-Disposition: form-data; name=\"note\"\r\n");
    text.push_str("\r\n");
    text.push_str("hello\r\n");
    text.push_str("--XBOUND\r\n");
    text.push_str("Content-Disposition: form-data; name=\"doc\"; filename=\"a.txt\"\r\n");
    text.push_str("Content-Type: text/plain\r\n");
    text.push_str("\r\n");
    text.push_str("hi!\r\n");
    text.push_str("--XBOUND--\r\n");
    let body: Vec<u8> = text.as_bytes().to_vec();
    let mut fields = ParamMap::new();
    let mut files = FormFiles::new();
    parse_multipart(
        "multipart/form-data; boundary=XBOUND",
        &body,
        &mut fields,
        &mut files,
    );
    assert_eq!(fields.len(), 1);
    assert_eq!(fields.get("note").unwrap().as_str(), "hello");
    let doc = files.get("doc").unwrap();
    assert_eq!(doc.filename.as_str(), "a.txt");
    assert_eq!(doc.content_type.as_str(), "text/plain");
    assert_eq!(doc.data, b"hi!".to_vec());

    // Without a boundary nothing is decoded.
    let mut fields = ParamMap::new();
    let mut files = FormFiles::new();
    parse_multipart("text/plain", &body, &mut fields, &mut files);
    assert_eq!(fields.len(), 0);
    assert!(files.get("doc").is_none());
}
