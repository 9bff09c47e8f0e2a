use ignyx_core::binding::{
    bind_arguments, coerce_value, BindOutcome, BoundValue, FormFiles, Kwargs, UploadFile,
};
use ignyx_core::params::ParamMap;
use ignyx_core::signature::{parse_int, HandlerSignature, ParamKind};

fn kwarg(kw: &Kwargs, name: &str) -> Option<BoundValue> {
    let mut i = 0;
    while i < kw.len() {
        let (k, v) = kw.entry_at(i);
        if k.as_str() == name {
            return Some(clone_value(v));
        }
        i += 1;
    }
    None
}

fn clone_value(v: &BoundValue) -> BoundValue {
    match v {
        BoundValue::IntVal(x) => BoundValue::IntVal(*x),
        BoundValue::TextVal(s) => BoundValue::TextVal(s.clone()),
        BoundValue::JsonVal(b) => BoundValue::JsonVal(b.clone()),
        BoundValue::NullVal => BoundValue::NullVal,
        BoundValue::RequestVal => BoundValue::RequestVal,
        BoundValue::BackgroundTaskVal => BoundValue::BackgroundTaskVal,
        BoundValue::UploadFileVal(f) => BoundValue::UploadFileVal(UploadFile {
            filename: f.filename.clone(),
            content_type: f.content_type.clone(),
            data: f.data.clone(),
        }),
        BoundValue::ModelVal(b) => BoundValue::ModelVal(b.clone()),
        BoundValue::DepVal(i) => BoundValue::DepVal(*i),
    }
}

fn sig(names: Vec<&str>, kinds: Vec<Option<ParamKind>>, has_depends: bool) -> HandlerSignature {
    let owned: Vec<String> = names.iter().map(|s| s.to_string()).collect();
    HandlerSignature::new(owned, kinds, false, has_depends).unwrap()
}

#[test]
fn int_parser_exact_values() {
    assert_eq!(parse_int("42"), Some(42));
    assert_eq!(parse_int("0"), Some(0));
    assert_eq!(parse_int("-7"), Some(-7));
    assert_eq!(parse_int("+9"), Some(9));
    assert_eq!(parse_int(""), None);
    assert_eq!(parse_int("-"), None);
    assert_eq!(parse_int("4x2"), None);
    assert_eq!(parse_int("9223372036854775807"), Some(i64::MAX));
    assert_eq!(parse_int("9223372036854775808"), None);
    assert_eq!(parse_int("-9223372036854775808"), Some(i64::MIN));
    assert_eq!(parse_int("-9223372036854775809"), None);
    assert_eq!(parse_int("00042"), Some(42));
}

#[test]
fn coercion_round_trip() {
    // A declared integer-typed parameter turns "42" into the integer 42.
    match coerce_value(Some(ParamKind::IntKind), "42") {
        Some(BoundValue::IntVal(v)) => assert_eq!(v, 42),
        _ => panic!("integer coercion failed"),
    }
    // Without a declared type the literal string "42" is bound.
    match coerce_value(None, "42") {
        Some(BoundValue::TextVal(s)) => assert_eq!(s.as_str(), "42"),
        _ => panic!("text pass-through failed"),
    }
    assert!(coerce_value(Some(ParamKind::IntKind), "not-a-number").is_none());
}

fn no_files() -> FormFiles {
    FormFiles::new()
}

#[test]
fn precedence_path_beats_query() {
    let s = sig(vec!["id", "q"], vec![Some(ParamKind::IntKind), None], false);
    let mut path = ParamMap::new();
    path.insert("id".to_string(), "42".to_string());
    let mut query = ParamMap::new();
    query.insert("id".to_string(), "99".to_string());
    query.insert("q".to_string(), "hello".to_string());
    let r = bind_arguments(
        &s,
        &path,
        &Vec::new(),
        false,
        &ParamMap::new(),
        &no_files(),
        &ParamMap::new(),
        &Vec::new(),
        &query,
        &Ok(()),
    );
    match r {
        BindOutcome::Bound(kw, has_task) => {
            assert!(!has_task);
            // The query's id=99 is ignored: the path parameter got there first.
            match kwarg(&kw, "id") {
                Some(BoundValue::IntVal(v)) => assert_eq!(v, 42),
                _ => panic!("id should be the integer 42"),
            }
            match kwarg(&kw, "q") {
                Some(BoundValue::TextVal(s)) => assert_eq!(s.as_str(), "hello"),
                _ => panic!("q should be the text hello"),
            }
        }
        _ => panic!("binding should succeed"),
    }
}

#[test]
fn precedence_path_beats_dependency() {
    let s = sig(vec!["token"], vec![None], true);
    let mut path = ParamMap::new();
    path.insert("token".to_string(), "from-path".to_string());
    let deps = vec!["token".to_string(), "extra".to_string()];
    let r = bind_arguments(
        &s,
        &path,
        &deps,
        false,
        &ParamMap::new(),
        &no_files(),
        &ParamMap::new(),
        &Vec::new(),
        &ParamMap::new(),
        &Ok(()),
    );
    match r {
        BindOutcome::Bound(kw, _) => {
            match kwarg(&kw, "token") {
                Some(BoundValue::TextVal(s)) => assert_eq!(s.as_str(), "from-path"),
                _ => panic!("the path parameter wins over the dependency"),
            }
            // A dependency name nothing earlier bound is merged.
            match kwarg(&kw, "extra") {
                Some(BoundValue::DepVal(i)) => assert_eq!(i, 1),
                _ => panic!("extra should come from the resolver"),
            }
        }
        _ => panic!("binding should succeed"),
    }
}

#[test]
fn dependencies_need_declaration() {
    // Without has_depends the resolver output is never consulted.
    let s = sig(vec!["token"], vec![None], false);
    let deps = vec!["token".to_string()];
    let r = bind_arguments(
        &s,
        &ParamMap::new(),
        &deps,
        false,
        &ParamMap::new(),
        &no_files(),
        &ParamMap::new(),
        &Vec::new(),
        &ParamMap::new(),
        &Ok(()),
    );
    match r {
        BindOutcome::Bound(kw, _) => assert!(kwarg(&kw, "token").is_none()),
        _ => panic!("binding should succeed"),
    }
}

#[test]
fn request_and_task_injection() {
    let s = sig(
        vec!["request", "task"],
        vec![None, Some(ParamKind::BackgroundTaskKind)],
        false,
    );
    let r = bind_arguments(
        &s,
        &ParamMap::new(),
        &Vec::new(),
        true,
        &ParamMap::new(),
        &no_files(),
        &ParamMap::new(),
        &Vec::new(),
        &ParamMap::new(),
        &Ok(()),
    );
    match r {
        BindOutcome::Bound(kw, has_task) => {
            assert!(has_task);
            assert!(matches!(kwarg(&kw, "request"), Some(BoundValue::RequestVal)));
            assert!(matches!(kwarg(&kw, "task"), Some(BoundValue::BackgroundTaskVal)));
        }
        _ => panic!("binding should succeed"),
    }
}

#[test]
fn upload_file_and_form_fields() {
    let s = sig(
        vec!["doc", "note"],
        vec![Some(ParamKind::UploadFileKind), None],
        false,
    );
    let mut files = FormFiles::new();
    files.insert(
        "doc".to_string(),
        UploadFile {
            filename: "a.txt".to_string(),
            content_type: "text/plain".to_string(),
            data: vec![104, 105],
        },
    );
    let mut fields = ParamMap::new();
    fields.insert("note".to_string(), "hello".to_string());
    let r = bind_arguments(
        &s,
        &ParamMap::new(),
        &Vec::new(),
        false,
        &fields,
        &files,
        &ParamMap::new(),
        &Vec::new(),
        &ParamMap::new(),
        &Ok(()),
    );
    match r {
        BindOutcome::Bound(kw, _) => {
            match kwarg(&kw, "doc") {
                Some(BoundValue::UploadFileVal(f)) => {
                    assert_eq!(f.filename.as_str(), "a.txt");
                    assert_eq!(f.content_type.as_str(), "text/plain");
                    assert_eq!(f.data, vec![104, 105]);
                }
                _ => panic!("doc should be the uploaded file"),
            }
            match kwarg(&kw, "note") {
                Some(BoundValue::TextVal(s)) => assert_eq!(s.as_str(), "hello"),
                _ => panic!("note should be the form text"),
            }
        }
        _ => panic!("binding should succeed"),
    }
}

fn json_headers() -> ParamMap {
    let mut h = ParamMap::new();
    h.insert("Content-Type".to_string(), "application/json".to_string());
    h
}

#[test]
fn body_binds_as_json_document() {
    let s = sig(vec!["body"], vec![None], false);
    let body: Vec<u8> = b"{\"age\": 3}".to_vec();
    let r = bind_arguments(
        &s,
        &ParamMap::new(),
        &Vec::new(),
        false,
        &ParamMap::new(),
        &no_files(),
        &json_headers(),
        &body,
        &ParamMap::new(),
        &Ok(()),
    );
    match r {
        BindOutcome::Bound(kw, _) => match kwarg(&kw, "body") {
            Some(BoundValue::JsonVal(b)) => assert_eq!(b, body),
            _ => panic!("a JSON body binds as a JSON document"),
        },
        _ => panic!("binding should succeed"),
    }
}

#[test]
fn invalid_json_body_binds_null() {
    let s = sig(vec!["body"], vec![None], false);
    let body: Vec<u8> = b"{not json".to_vec();
    let r = bind_arguments(
        &s,
        &ParamMap::new(),
        &Vec::new(),
        false,
        &ParamMap::new(),
        &no_files(),
        &json_headers(),
        &body,
        &ParamMap::new(),
        &Ok(()),
    );
    match r {
        BindOutcome::Bound(kw, _) => {
            assert!(matches!(kwarg(&kw, "body"), Some(BoundValue::NullVal)))
        }
        _ => panic!("binding should succeed"),
    }
}

#[test]
fn non_json_body_binds_text() {
    let s = sig(vec!["body"], vec![None], false);
    let body: Vec<u8> = b"plain words".to_vec();
    let r = bind_arguments(
        &s,
        &ParamMap::new(),
        &Vec::new(),
        false,
        &ParamMap::new(),
        &no_files(),
        &ParamMap::new(),
        &body,
        &ParamMap::new(),
        &Ok(()),
    );
    match r {
        BindOutcome::Bound(kw, _) => match kwarg(&kw, "body") {
            Some(BoundValue::TextVal(s)) => assert_eq!(s.as_str(), "plain words"),
            _ => panic!("a non-JSON body binds as text"),
        },
        _ => panic!("binding should succeed"),
    }
}

#[test]
fn validated_body_binds_model() {
    let s = sig(vec!["body"], vec![Some(ParamKind::ModelKind)], false);
    let body: Vec<u8> = b"{\"age\": 3}".to_vec();
    let r = bind_arguments(
        &s,
        &ParamMap::new(),
        &Vec::new(),
        false,
        &ParamMap::new(),
        &no_files(),
        &json_headers(),
        &body,
        &ParamMap::new(),
        &Ok(()),
    );
    match r {
        BindOutcome::Bound(kw, _) => match kwarg(&kw, "body") {
            Some(BoundValue::ModelVal(b)) => assert_eq!(b, body),
            _ => panic!("a validated body binds as the model"),
        },
        _ => panic!("binding should succeed"),
    }
}

#[test]
fn rejected_body_short_circuits_with_detail() {
    let s = sig(vec!["body"], vec![Some(ParamKind::ModelKind)], false);
    let body: Vec<u8> = b"{\"age\": \"not-a-number\"}".to_vec();
    let detail = "[{\"loc\": [\"age\"], \"msg\": \"value is not a valid integer\"}]";
    let r = bind_arguments(
        &s,
        &ParamMap::new(),
        &Vec::new(),
        false,
        &ParamMap::new(),
        &no_files(),
        &json_headers(),
        &body,
        &ParamMap::new(),
        &Err(detail.to_string()),
    );
    match r {
        BindOutcome::ValidationFailed(d) => assert_eq!(d.as_str(), detail),
        _ => panic!("validation failure must short-circuit binding"),
    }
}

#[test]
fn path_coercion_failure_aborts() {
    let s = sig(vec!["id"], vec![Some(ParamKind::IntKind)], false);
    let mut path = ParamMap::new();
    path.insert("id".to_string(), "abc".to_string());
    let r = bind_arguments(
        &s,
        &path,
        &Vec::new(),
        false,
        &ParamMap::new(),
        &no_files(),
        &ParamMap::new(),
        &Vec::new(),
        &ParamMap::new(),
        &Ok(()),
    );
    assert!(matches!(r, BindOutcome::CoercionFailed(_)));
}

#[test]
fn query_coercion_falls_back_to_text() {
    let s = sig(vec!["n"], vec![Some(ParamKind::IntKind)], false);
    let mut query = ParamMap::new();
    query.insert("n".to_string(), "abc".to_string());
    let r = bind_arguments(
        &s,
        &ParamMap::new(),
        &Vec::new(),
        false,
        &ParamMap::new(),
        &no_files(),
        &ParamMap::new(),
        &Vec::new(),
        &query,
        &Ok(()),
    );
    match r {
        BindOutcome::Bound(kw, _) => match kwarg(&kw, "n") {
            Some(BoundValue::TextVal(s)) => assert_eq!(s.as_str(), "abc"),
            _ => panic!("query coercion failure falls back to the raw text"),
        },
        _ => panic!("binding should succeed"),
    }
}
