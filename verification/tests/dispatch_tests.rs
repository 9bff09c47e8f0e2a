use ignyx_core::dispatch::{
    http_exception_response, internal_error_response, merge_headers, normalize_result,
    not_found_response, options_response, server_header, text_is_html,
    validation_failed_response, Action, Engine, Event, HandlerResult, HandlerStatus, HandlerValue,
};
use ignyx_core::params::ParamMap;

fn run(engine: &mut Engine, events: Vec<Event>) -> Vec<Action> {
    let mut actions = Vec::new();
    for e in events {
        actions.push(engine.step(e));
    }
    actions
}

#[test]
fn hooks_run_forward_then_reverse() {
    // With hooks A, B registered in that order: before-hooks run A then B,
    // after-hooks run B then A.
    let mut m = Engine::new(2, false);
    let actions = run(
        &mut m,
        vec![
            Event::Begin,
            Event::BeforeReturned(true),
            Event::BeforeReturned(true),
            Event::HandlerReturned(HandlerStatus::Succeeded(false)),
            Event::AfterReturned,
            Event::AfterReturned,
            Event::ResponseWritten,
        ],
    );
    assert!(actions[0] == Action::RunBeforeHook(0));
    assert!(actions[1] == Action::RunBeforeHook(1));
    assert!(actions[2] == Action::RunHandler);
    assert!(actions[3] == Action::RunAfterHook(1));
    assert!(actions[4] == Action::RunAfterHook(0));
    assert!(actions[5] == Action::RespondResult);
    assert!(actions[6] == Action::Stop);
}

#[test]
fn hooks_keep_order_on_error_paths() {
    // A failing handler walks the on-error chain forward; a hook that
    // produces a response sends it through the after-chain in reverse.
    let mut m = Engine::new(2, false);
    let actions = run(
        &mut m,
        vec![
            Event::Begin,
            Event::BeforeReturned(true),
            Event::BeforeReturned(true),
            Event::HandlerReturned(HandlerStatus::RaisedOther),
            Event::ErrorHookReturned(false),
            Event::ErrorHookReturned(true),
            Event::AfterReturned,
            Event::AfterReturned,
            Event::ResponseWritten,
        ],
    );
    assert!(actions[3] == Action::RunErrorHook(0));
    assert!(actions[4] == Action::RunErrorHook(1));
    assert!(actions[5] == Action::RunAfterHook(1));
    assert!(actions[6] == Action::RunAfterHook(0));
    assert!(actions[7] == Action::RespondResult);
}

#[test]
fn unhandled_error_responds_500() {
    let mut m = Engine::new(1, false);
    let actions = run(
        &mut m,
        vec![
            Event::Begin,
            Event::BeforeReturned(true),
            Event::HandlerReturned(HandlerStatus::RaisedOther),
            Event::ErrorHookReturned(false),
            Event::ResponseWritten,
        ],
    );
    assert!(actions[2] == Action::RunErrorHook(0));
    assert!(actions[3] == Action::RespondError);
    assert!(actions[4] == Action::Stop);
}

#[test]
fn http_exception_translates_directly() {
    let mut m = Engine::new(0, false);
    let actions = run(
        &mut m,
        vec![
            Event::Begin,
            Event::HandlerReturned(HandlerStatus::RaisedHttp),
            Event::ResponseWritten,
        ],
    );
    assert!(actions[0] == Action::RunHandler);
    assert!(actions[1] == Action::RespondHttpException);
    assert!(actions[2] == Action::Stop);
}

#[test]
fn validation_rejection_bypasses_after_hooks() {
    let mut m = Engine::new(2, false);
    let actions = run(
        &mut m,
        vec![
            Event::Begin,
            Event::BeforeReturned(true),
            Event::BeforeReturned(true),
            Event::HandlerReturned(HandlerStatus::ValidationRejected),
            Event::ResponseWritten,
        ],
    );
    assert!(actions[3] == Action::RespondValidation);
    assert!(actions[4] == Action::Stop);
}

#[test]
fn background_task_runs_after_response() {
    // The client gets the full response before the task's side effect.
    let mut m = Engine::new(0, false);
    let actions = run(
        &mut m,
        vec![
            Event::Begin,
            Event::HandlerReturned(HandlerStatus::Succeeded(true)),
            Event::ResponseWritten,
            Event::TaskFinished,
        ],
    );
    assert!(actions[0] == Action::RunHandler);
    assert!(actions[1] == Action::RespondResult);
    assert!(actions[2] == Action::RunBackgroundTask);
    assert!(actions[3] == Action::Stop);
    let respond_pos = actions.iter().position(|a| *a == Action::RespondResult).unwrap();
    let task_pos = actions.iter().position(|a| *a == Action::RunBackgroundTask).unwrap();
    assert!(respond_pos < task_pos);
}

#[test]
fn options_bypass_runs_only_after_hooks() {
    let mut m = Engine::new(2, true);
    let actions = run(
        &mut m,
        vec![
            Event::Begin,
            Event::AfterReturned,
            Event::AfterReturned,
            Event::ResponseWritten,
        ],
    );
    assert!(actions[0] == Action::RunAfterHook(1));
    assert!(actions[1] == Action::RunAfterHook(0));
    assert!(actions[2] == Action::RespondResult);
    assert!(actions[3] == Action::Stop);
}

#[test]
fn failing_before_hook_goes_to_error_chain() {
    let mut m = Engine::new(2, false);
    let actions = run(
        &mut m,
        vec![
            Event::Begin,
            Event::BeforeReturned(false),
            Event::ErrorHookReturned(false),
            Event::ErrorHookReturned(false),
            Event::ResponseWritten,
        ],
    );
    assert!(actions[0] == Action::RunBeforeHook(0));
    assert!(actions[1] == Action::RunErrorHook(0));
    assert!(actions[2] == Action::RunErrorHook(1));
    assert!(actions[3] == Action::RespondError);
}

#[test]
fn text_html_detection() {
    assert!(text_is_html("<html>"));
    assert!(text_is_html("  \t\n<div>"));
    assert!(!text_is_html("hello <b>"));
    assert!(!text_is_html(""));
    assert!(!text_is_html("   "));
}

#[test]
fn normalize_text_plain_and_html() {
    let r = normalize_result(
        HandlerResult::Plain(HandlerValue::Text("hello".to_string())),
        false,
    );
    assert_eq!(r.status_code, 200);
    assert_eq!(r.body.as_str(), "hello");
    assert_eq!(
        r.headers.get("content-type").unwrap().as_str(),
        "text/plain; charset=utf-8"
    );

    let r = normalize_result(
        HandlerResult::WithStatus(HandlerValue::Text("<h1>hi</h1>".to_string()), 201),
        false,
    );
    assert_eq!(r.status_code, 201);
    assert_eq!(
        r.headers.get("content-type").unwrap().as_str(),
        "text/html; charset=utf-8"
    );
}

#[test]
fn normalize_text_strict_mode_encodes_json_string() {
    let r = normalize_result(
        HandlerResult::Plain(HandlerValue::Text("he\"llo".to_string())),
        true,
    );
    assert_eq!(r.body.as_str(), "\"he\\\"llo\"");
    assert_eq!(r.headers.get("content-type").unwrap().as_str(), "application/json");
}

#[test]
fn normalize_structured_and_other() {
    let r = normalize_result(
        HandlerResult::WithStatus(HandlerValue::Structured("{\"a\":1}".to_string()), 202),
        false,
    );
    assert_eq!(r.status_code, 202);
    assert_eq!(r.body.as_str(), "{\"a\":1}");
    assert_eq!(r.headers.get("content-type").unwrap().as_str(), "application/json");

    let r = normalize_result(HandlerResult::Plain(HandlerValue::Other("3.5".to_string())), false);
    assert_eq!(r.body.as_str(), "3.5");
    assert_eq!(
        r.headers.get("content-type").unwrap().as_str(),
        "text/plain; charset=utf-8"
    );
}

#[test]
fn normalize_renderable_takes_its_own_status_and_headers() {
    let mut rh = ParamMap::new();
    rh.insert("x-extra".to_string(), "1".to_string());
    let mut tuple_h = ParamMap::new();
    tuple_h.insert("x-extra".to_string(), "0".to_string());
    tuple_h.insert("x-keep".to_string(), "yes".to_string());
    let r = normalize_result(
        HandlerResult::WithStatusHeaders(
            HandlerValue::Renderable("text/css".to_string(), 418, "body{}".to_string(), rh),
            200,
            tuple_h,
        ),
        false,
    );
    assert_eq!(r.status_code, 418);
    assert_eq!(r.body.as_str(), "body{}");
    assert_eq!(r.headers.get("content-type").unwrap().as_str(), "text/css");
    // The response object's headers override the tuple's.
    assert_eq!(r.headers.get("x-extra").unwrap().as_str(), "1");
    assert_eq!(r.headers.get("x-keep").unwrap().as_str(), "yes");
}

#[test]
fn error_responses_exact_bodies() {
    let r = not_found_response();
    assert_eq!(r.status_code, 404);
    assert_eq!(
        r.body.as_str(),
        "{\"detail\":\"No route found\",\"error\":\"Not Found\"}"
    );
    assert_eq!(r.headers.get("content-type").unwrap().as_str(), "application/json");

    let r = internal_error_response("boom \"quoted\"");
    assert_eq!(r.status_code, 500);
    assert_eq!(
        r.body.as_str(),
        "{\"detail\":\"boom \\\"quoted\\\"\",\"error\":\"Internal Server Error\"}"
    );

    let r = http_exception_response(403, "no\nentry", None);
    assert_eq!(r.status_code, 403);
    assert_eq!(r.body.as_str(), "{\"detail\":\"no\\nentry\"}");
}

#[test]
fn validation_response_carries_structured_detail() {
    // POSTing {"age": "not-a-number"} against a schema declaring an
    // integer age yields a 422 whose JSON body holds an error field and a
    // structured (list) detail, not a crash.
    let detail = "[{\"loc\": [\"age\"], \"msg\": \"value is not a valid integer\"}]";
    let r = validation_failed_response(detail);
    assert_eq!(r.status_code, 422);
    let parsed: serde_json::Value = serde_json::from_str(r.body.as_str()).unwrap();
    assert_eq!(parsed["error"], serde_json::Value::String("Validation failed".to_string()));
    assert!(parsed["detail"].is_array());
    assert_eq!(parsed["detail"][0]["msg"], "value is not a valid integer");
}

#[test]
fn options_response_shape() {
    let mut h = ParamMap::new();
    h.insert("x-after".to_string(), "1".to_string());
    let r = options_response(Some(h));
    assert_eq!(r.status_code, 200);
    assert_eq!(r.body.as_str(), "");
    assert_eq!(r.headers.get("content-type").unwrap().as_str(), "text/plain");
    assert_eq!(r.headers.get("x-after").unwrap().as_str(), "1");
}

#[test]
fn merge_headers_overwrites() {
    let mut base = ParamMap::new();
    base.insert("a".to_string(), "1".to_string());
    base.insert("b".to_string(), "2".to_string());
    let mut add = ParamMap::new();
    add.insert("b".to_string(), "3".to_string());
    add.insert("c".to_string(), "4".to_string());
    let m = merge_headers(base, &add);
    assert_eq!(m.get("a").unwrap().as_str(), "1");
    assert_eq!(m.get("b").unwrap().as_str(), "3");
    assert_eq!(m.get("c").unwrap().as_str(), "4");
}

#[test]
fn server_identification_header() {
    let (k, v) = server_header();
    assert_eq!(k, "server");
    assert_eq!(v, "Ignyx/1.0.3");
}
