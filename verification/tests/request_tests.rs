use ignyx_core::jsonio::json_escape;
use ignyx_core::params::ParamMap;
use ignyx_core::request::{is_json_content, is_multipart_content, parse_query, Request};

#[test]
fn query_parsing_basic() {
    let q = parse_query("a=1&b=hello+world");
    assert_eq!(q.len(), 2);
    assert_eq!(q.get("a").unwrap().as_str(), "1");
    assert_eq!(q.get("b").unwrap().as_str(), "hello world");
}

#[test]
fn query_parsing_edge_cases() {
    // Empty pieces are skipped; a piece without `=` maps to the empty
    // value; a duplicate key keeps the later value.
    let q = parse_query("");
    assert_eq!(q.len(), 0);

    let q = parse_query("&&flag&&x=1&");
    assert_eq!(q.len(), 2);
    assert_eq!(q.get("flag").unwrap().as_str(), "");
    assert_eq!(q.get("x").unwrap().as_str(), "1");

    let q = parse_query("k=first&k=second");
    assert_eq!(q.len(), 1);
    assert_eq!(q.get("k").unwrap().as_str(), "second");

    let q = parse_query("pair=a=b");
    assert_eq!(q.get("pair").unwrap().as_str(), "a=b");
}

#[test]
fn request_text_and_json() {
    let req = Request::new(
        "POST".to_string(),
        "/x".to_string(),
        ParamMap::new(),
        ParamMap::new(),
        ParamMap::new(),
        b"{\"k\": [1, 2]}".to_vec(),
    );
    assert_eq!(req.text().unwrap().as_str(), "{\"k\": [1, 2]}");
    let v = req.json().unwrap();
    assert!(v["k"].is_array());

    let bad_utf8 = Request::new(
        "POST".to_string(),
        "/x".to_string(),
        ParamMap::new(),
        ParamMap::new(),
        ParamMap::new(),
        vec![0xff, 0xfe],
    );
    assert!(bad_utf8.text().is_err());
    assert!(bad_utf8.json().is_err());

    let not_json = Request::new(
        "POST".to_string(),
        "/x".to_string(),
        ParamMap::new(),
        ParamMap::new(),
        ParamMap::new(),
        b"plain".to_vec(),
    );
    assert!(not_json.json().is_err());
}

#[test]
fn content_type_detection_is_case_insensitive() {
    let mut h = ParamMap::new();
    h.insert(
        "Content-Type".to_string(),
        "application/json; charset=utf-8".to_string(),
    );
    assert!(is_json_content(&h));
    assert!(!is_multipart_content(&h));

    let mut h = ParamMap::new();
    h.insert(
        "CONTENT-TYPE".to_string(),
        "multipart/form-data; boundary=xyz".to_string(),
    );
    assert!(is_multipart_content(&h));
    assert!(!is_json_content(&h));

    assert!(!is_json_content(&ParamMap::new()));
}

#[test]
fn param_map_insert_overwrites() {
    let mut m = ParamMap::new();
    m.insert("k".to_string(), "1".to_string());
    m.insert("k".to_string(), "2".to_string());
    assert_eq!(m.len(), 1);
    assert_eq!(m.get("k").unwrap().as_str(), "2");
    assert!(m.contains_key("k"));
    assert!(!m.contains_key("other"));
}

#[test]
fn json_escaping_exact() {
    assert_eq!(json_escape("plain").as_str(), "plain");
    assert_eq!(json_escape("a\"b").as_str(), "a\\\"b");
    assert_eq!(json_escape("back\\slash").as_str(), "back\\\\slash");
    assert_eq!(json_escape("line\nbreak\r\t").as_str(), "line\\nbreak\\r\\t");
    assert_eq!(json_escape("\u{0001}").as_str(), "\\u0001");
    assert_eq!(json_escape("\u{001f}").as_str(), "\\u001f");
    assert_eq!(json_escape("\u{0008}\u{000C}").as_str(), "\\b\\f");
}
