use runtrail::event::{Event, Level, NewEvent};
use runtrail::json::{to_json_text, JsonNumber, JsonValue};
use runtrail::repair::{filter_events, repair_prompt, EventFilter};

fn s(text: &str) -> JsonValue {
    JsonValue::String(text.to_string())
}

fn obj(members: Vec<(&str, JsonValue)>) -> JsonValue {
    JsonValue::Object(
        members
            .into_iter()
            .map(|(k, v)| (k.to_string(), v))
            .collect(),
    )
}

fn uint(n: u64) -> JsonValue {
    JsonValue::Number(JsonNumber::PosInt(n))
}

fn event_with(seq: u64, name: &str, level: Level, body: JsonValue) -> Event {
    Event::new(NewEvent {
        seq,
        event: name.to_string(),
        level,
        src: Some("runtrail".to_string()),
        attrs: Vec::new(),
        body,
        trace_id: None,
        span_id: None,
        parent_span_id: None,
        duration_ms: None,
    })
}

#[test]
fn repair_prompt_includes_failed_command_and_safe_commands() {
    let event = event_with(
        1,
        "command.end",
        Level::Error,
        obj(vec![
            ("cmd", JsonValue::Array(vec![s("cargo"), s("test")])),
            ("exit_code", uint(101)),
            ("stderr_preview", s("boom")),
        ]),
    );
    let prompt = repair_prompt(&[event]);
    assert!(prompt.contains("Failure Evidence"));
    assert!(prompt.contains("cargo test"));
    assert!(prompt.contains("Safe Commands To Try"));
}

#[test]
fn repair_prompt_lines_for_a_failed_command() {
    let event = event_with(
        1,
        "command.end",
        Level::Info,
        obj(vec![
            ("cmd", JsonValue::Array(vec![s("cargo"), s("test")])),
            ("exit_code", uint(101)),
            ("stderr_preview", s("boom")),
        ]),
    );
    let prompt = repair_prompt(&[event]);
    assert!(prompt.starts_with(
        "# Agent Repair Prompt\n\nYou are repairing a failing local/CI run using runtrail evidence.\n\n## Failure Evidence\n\n- seq=1 event=command.end level=Info evidence={\"cmd\":[\"cargo\",\"test\"],\"exit_code\":101,\"stderr_preview\":\"boom\"}\n"
    ));
    assert!(prompt.contains(
        "\n## Recent Command Results\n\n- seq=1 exit=101 cmd=[\"cargo\",\"test\"] stderr=\"boom\" stdout=null\n"
    ));
    assert!(prompt.contains("No `repo.snapshot` event found."));
    assert!(prompt.ends_with(
        "5. Log follow-up evidence with `runtrail run`, `runtrail repo snapshot`, or `runtrail repo diff`.\n"
    ));
}

#[test]
fn repair_prompt_without_failures_says_so() {
    let ok = event_with(
        1,
        "command.end",
        Level::Info,
        obj(vec![("exit_code", uint(0))]),
    );
    let prompt = repair_prompt(&[ok]);
    assert!(prompt.contains(
        "## Failure Evidence\n\nNo warnings, errors, or failed command events were found."
    ));
    assert!(prompt.contains("- seq=1 exit=0 cmd=null stderr=null stdout=null\n"));
}

#[test]
fn repair_prompt_shows_last_snapshot() {
    let old = event_with(1, "repo.snapshot", Level::Info, obj(vec![("branch", s("old"))]));
    let snap = event_with(
        2,
        "repo.snapshot",
        Level::Info,
        obj(vec![
            ("branch", s("main")),
            ("dirty", JsonValue::Bool(true)),
            (
                "files",
                JsonValue::Array(vec![obj(vec![("path", s("README.md")), ("status", s("M"))])]),
            ),
            ("head", s("abc")),
        ]),
    );
    let prompt = repair_prompt(&[old, snap]);
    assert!(prompt.contains(
        "## Repository Context\n\n- branch: \"main\"\n- head: \"abc\"\n- dirty: true\n- changed files:\n  - \"M\" \"README.md\"\n"
    ));
    assert!(!prompt.contains("\"old\""));
}

#[test]
fn repair_prompt_keeps_last_ten_failures_and_five_commands() {
    let mut events = Vec::new();
    for seq in 1..=12u64 {
        events.push(event_with(seq, "command.end", Level::Warn, JsonValue::Null));
    }
    let prompt = repair_prompt(&events);
    assert!(!prompt.contains("- seq=2 event="));
    assert!(prompt.contains("- seq=3 event=command.end level=Warn evidence=null\n"));
    assert!(prompt.contains("- seq=12 event="));
    assert!(!prompt.contains("- seq=7 exit="));
    assert!(prompt.contains("- seq=8 exit=null"));
    assert_eq!(prompt.matches(" exit=").count(), 5);
    assert_eq!(prompt.matches(" evidence=").count(), 10);
}

#[test]
fn long_evidence_is_cut_to_240_characters() {
    let long = "x".repeat(300);
    let event = event_with(1, "error", Level::Error, s(&long));
    let prompt = repair_prompt(&[event]);
    let expected = format!("evidence=\"{}\u{2026}\n", "x".repeat(239));
    assert!(prompt.contains(&expected));
}

#[test]
fn negative_exit_code_counts_as_failure() {
    let event = event_with(
        4,
        "command.end",
        Level::Info,
        obj(vec![("exit_code", JsonValue::Number(JsonNumber::NegInt(-1)))]),
    );
    let prompt = repair_prompt(&[event]);
    assert!(prompt.contains("- seq=4 event=command.end level=Info evidence={\"exit_code\":-1}\n"));
}

#[test]
fn json_text_matches_serde_json() {
    let v = obj(vec![
        ("a", JsonValue::Array(vec![JsonValue::Null, JsonValue::Bool(false)])),
        ("b", s("line\n\"quoted\"\t\\")),
        ("c", JsonValue::Number(JsonNumber::NegInt(-42))),
        ("d", JsonValue::Number(JsonNumber::Float("1.5".to_string()))),
        ("e", obj(vec![])),
    ]);
    let mut m = serde_json::Map::new();
    m.insert(
        "a".to_string(),
        serde_json::Value::Array(vec![serde_json::Value::Null, serde_json::Value::Bool(false)]),
    );
    m.insert(
        "b".to_string(),
        serde_json::Value::String("line\n\"quoted\"\t\\".to_string()),
    );
    m.insert("c".to_string(), serde_json::Value::from(-42));
    m.insert("d".to_string(), serde_json::Value::from(1.5));
    m.insert("e".to_string(), serde_json::Value::Object(serde_json::Map::new()));
    let expected = serde_json::Value::Object(m).to_string();
    assert_eq!(to_json_text(&v), expected);
    assert_eq!(
        to_json_text(&v),
        "{\"a\":[null,false],\"b\":\"line\\n\\\"quoted\\\"\\t\\\\\",\"c\":-42,\"d\":1.5,\"e\":{}}"
    );
}

fn tagged(seq: u64, name: &str, level: Level, trace: Option<&str>) -> Event {
    let mut e = event_with(seq, name, level, JsonValue::Null);
    e.trace_id = trace.map(|t| t.to_string());
    e
}

#[test]
fn filter_matches_each_criterion() {
    let e = tagged(1, "agent.note", Level::Warn, Some("abc"));
    assert!(EventFilter::default().matches(&e));
    let by_name = EventFilter {
        event: Some("agent.note".to_string()),
        level: None,
        trace_id: None,
    };
    assert!(by_name.matches(&e));
    let other_name = EventFilter {
        event: Some("agent".to_string()),
        level: None,
        trace_id: None,
    };
    assert!(!other_name.matches(&e));
    let by_level = EventFilter {
        event: None,
        level: Some(Level::Error),
        trace_id: None,
    };
    assert!(!by_level.matches(&e));
    let by_trace = EventFilter {
        event: None,
        level: Some(Level::Warn),
        trace_id: Some("abc".to_string()),
    };
    assert!(by_trace.matches(&e));
    let untraced = tagged(2, "agent.note", Level::Warn, None);
    assert!(!by_trace.matches(&untraced));
}

#[test]
fn filter_events_keeps_matching_events_in_order() {
    let events = vec![
        tagged(1, "a", Level::Info, None),
        tagged(2, "b", Level::Error, None),
        tagged(3, "a", Level::Error, None),
        tagged(4, "a", Level::Info, None),
    ];
    let f = EventFilter {
        event: Some("a".to_string()),
        level: None,
        trace_id: None,
    };
    let kept: Vec<u64> = filter_events(&events, &f).iter().map(|e| e.seq).collect();
    assert_eq!(kept, vec![1, 3, 4]);
    let again: Vec<u64> = filter_events(&filter_events(&events, &f), &f)
        .iter()
        .map(|e| e.seq)
        .collect();
    assert_eq!(again, kept);
    assert_eq!(filter_events(&events, &EventFilter::default()).len(), 4);
}

#[test]
fn control_characters_are_escaped_as_lowercase_hex() {
    let v = JsonValue::String("\u{1}\u{1f}\u{8}\u{c}\r/\u{7f}".to_string());
    assert_eq!(to_json_text(&v), "\"\\u0001\\u001f\\b\\f\\r/\u{7f}\"");
}

#[test]
fn prompt_ignores_ids_timestamps_and_sources() {
    let a = event_with(1, "error", Level::Error, s("boom"));
    let mut b = event_with(1, "error", Level::Error, s("boom"));
    b.ts = "2000-01-01T00:00:00Z".to_string();
    b.src = None;
    b.trace_id = Some("0123456789abcdef0123456789abcdef".to_string());
    assert_ne!(a.id, b.id);
    assert_eq!(repair_prompt(&[a]), repair_prompt(&[b]));
}
