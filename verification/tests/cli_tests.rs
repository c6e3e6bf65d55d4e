use runtrail::cli::{
    capturable_env_keys, choose_body, github_env_allowlist, jsonish_value, message_body, next_seq,
    parse_attrs, parse_body, tail_line, tail_start,
};
use runtrail::event::{Event, Level, NewEvent};
use runtrail::json::{to_json_text, JsonNumber, JsonValue};

#[test]
fn parse_attrs_decodes_json_scalars() {
    let attrs = parse_attrs(&[
        "a=1".to_string(),
        "b=true".to_string(),
        "c=text".to_string(),
    ])
    .unwrap();
    let find = |k: &str| &attrs.iter().find(|(key, _)| key == k).unwrap().1;
    assert!(matches!(find("a"), JsonValue::Number(JsonNumber::PosInt(1))));
    assert!(matches!(find("b"), JsonValue::Bool(true)));
    assert!(matches!(find("c"), JsonValue::String(s) if s == "text"));
}

#[test]
fn parse_attrs_splits_at_first_equals_and_keeps_last_value() {
    let attrs = parse_attrs(&[
        "z=1".to_string(),
        "tool.name=a=b".to_string(),
        "z=2".to_string(),
        "k=".to_string(),
        "o={\"b\":[1,-2],\"a\":null}".to_string(),
    ])
    .unwrap();
    let rendered: Vec<(String, String)> = attrs
        .iter()
        .map(|(k, v)| (k.clone(), to_json_text(v)))
        .collect();
    assert_eq!(
        rendered,
        vec![
            ("k".to_string(), "\"\"".to_string()),
            ("o".to_string(), "{\"a\":null,\"b\":[1,-2]}".to_string()),
            ("tool.name".to_string(), "\"a=b\"".to_string()),
            ("z".to_string(), "2".to_string()),
        ]
    );
}

#[test]
fn parse_body_prefers_body_over_message() {
    let v = parse_body(Some("{\"cmd\":\"cargo test\"}"), Some("ignored")).unwrap();
    assert_eq!(to_json_text(&v), "{\"cmd\":\"cargo test\"}");
    assert_eq!(
        parse_body(Some("{nope"), None).unwrap_err(),
        "--body must be valid JSON"
    );
    let m = parse_body(None, Some("hello")).unwrap();
    assert_eq!(to_json_text(&m), "{\"message\":\"hello\"}");
    assert_eq!(to_json_text(&parse_body(None, None).unwrap()), "{}");
}

#[test]
fn parse_attrs_rejects_missing_equals() {
    assert_eq!(
        parse_attrs(&["ok=1".to_string(), "novalue".to_string()]).unwrap_err(),
        "attribute must be key=value: novalue"
    );
}

#[test]
fn parse_attrs_rejects_blank_key() {
    assert_eq!(
        parse_attrs(&[" =1".to_string(), "x".to_string()]).unwrap_err(),
        "attribute key must not be empty"
    );
}

#[test]
fn capture_env_allowlist_ignores_assignment_like_names() {
    let keys = capturable_env_keys(&[
        "RUNTRAIL_SAFE_ENV".to_string(),
        "SECRET_TOKEN=abc123".to_string(),
        "".to_string(),
        "  ".to_string(),
        "GITHUB_SHA".to_string(),
    ]);
    assert_eq!(keys, vec!["RUNTRAIL_SAFE_ENV".to_string(), "GITHUB_SHA".to_string()]);
}

#[test]
fn message_body_wraps_text() {
    assert_eq!(
        to_json_text(&message_body(Some("hello \"you\""))),
        "{\"message\":\"hello \\\"you\\\"\"}"
    );
    assert_eq!(to_json_text(&message_body(None)), "{}");
}

fn at(seq: u64) -> Event {
    Event::new(NewEvent {
        seq,
        event: "agent.note".to_string(),
        level: Level::Info,
        src: None,
        attrs: Vec::new(),
        body: JsonValue::Null,
        trace_id: None,
        span_id: None,
        parent_span_id: None,
        duration_ms: None,
    })
}

#[test]
fn next_seq_is_one_past_the_largest() {
    assert_eq!(next_seq(&[]), Some(1));
    assert_eq!(next_seq(&[at(1), at(5), at(3)]), Some(6));
    assert_eq!(next_seq(&[at(u64::MAX)]), None);
}

#[test]
fn tail_shows_the_last_lines() {
    assert_eq!(tail_start(3, 2), 1);
    assert_eq!(tail_start(3, 20), 0);
    assert_eq!(tail_start(5, 5), 0);
}

#[test]
fn tail_line_formats_seq_ts_level_and_name() {
    let mut e = at(12);
    e.ts = "2026-05-22T12:00:00Z".to_string();
    e.level = Level::Warn;
    assert_eq!(tail_line(&e), "12 2026-05-22T12:00:00Z warn agent.note");
}

#[test]
fn jsonish_value_falls_back_to_the_text() {
    let raw = "not json".to_string();
    assert_eq!(to_json_text(&jsonish_value(None, &raw)), "\"not json\"");
    assert_eq!(to_json_text(&jsonish_value(Some(JsonValue::Bool(true)), &raw)), "true");
}

#[test]
fn choose_body_orders_body_message_and_default() {
    assert_eq!(
        to_json_text(&choose_body(Some(Some(JsonValue::Null)), Some("m")).unwrap()),
        "null"
    );
    assert_eq!(choose_body(Some(None), Some("m")).unwrap_err(), "--body must be valid JSON");
    assert_eq!(
        to_json_text(&choose_body(None, Some("m")).unwrap()),
        "{\"message\":\"m\"}"
    );
}

#[test]
fn github_allowlist_names_the_safe_variables() {
    let names = github_env_allowlist();
    assert_eq!(names.len(), 13);
    assert_eq!(names[0], "GITHUB_WORKFLOW");
    assert_eq!(names[12], "RUNNER_ARCH");
    assert!(!names.iter().any(|n| n.contains("TOKEN")));
    assert_eq!(capturable_env_keys(&names), names);
}
