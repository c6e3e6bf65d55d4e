use runtrail::event::{validate_hex, Event, Level, NewEvent, SCHEMA};
use runtrail::json::JsonValue;

fn new_event(seq: u64, event: &str) -> Event {
    Event::new(NewEvent {
        seq,
        event: event.to_string(),
        level: Level::Info,
        src: Some("test".to_string()),
        attrs: Vec::new(),
        body: JsonValue::Object(Vec::new()),
        trace_id: None,
        span_id: None,
        parent_span_id: None,
        duration_ms: None,
    })
}

#[test]
fn new_events_use_runtrail_schema_identifier() {
    let event = new_event(1, "agent.note");
    assert_eq!(event.schema, "runtrail.v1");
    assert_eq!(SCHEMA, "runtrail.v1");
    assert!(event.validate().is_ok());
}

#[test]
fn empty_event_name_fails_validation() {
    let event = new_event(1, " ");
    assert_eq!(event.validate().unwrap_err(), "event is required");
}

#[test]
fn zero_sequence_fails_validation() {
    let event = new_event(0, "agent.note");
    assert_eq!(
        event.validate().unwrap_err(),
        "seq must be a positive integer"
    );
}

#[test]
fn unsupported_schema_fails_validation() {
    let mut event = new_event(1, "agent.note");
    event.schema = "cel.v1".to_string();
    assert_eq!(event.validate().unwrap_err(), "unsupported schema cel.v1");
}

#[test]
fn invalid_trace_id_fails_validation() {
    let mut event = new_event(1, "agent.note");
    event.trace_id = Some("ABC".to_string());
    assert!(event.validate().unwrap_err().contains("trace_id"));
}

#[test]
fn invalid_span_id_fails_validation() {
    let mut event = new_event(1, "agent.note");
    event.span_id = Some("123".to_string());
    assert!(event.validate().unwrap_err().contains("span_id"));
}

#[test]
fn stamped_event_has_ulid_id_and_copies_input() {
    let event = new_event(9, "browser.navigate");
    assert_eq!(event.id.chars().count(), 26);
    assert!(event
        .id
        .chars()
        .all(|c| "0123456789ABCDEFGHJKMNPQRSTVWXYZ".contains(c)));
    assert_eq!(event.seq, 9);
    assert_eq!(event.event, "browser.navigate");
    assert_eq!(event.level, Level::Info);
    assert_eq!(event.src.as_deref(), Some("test"));
}

#[test]
fn blank_id_fails_validation() {
    let mut event = new_event(1, "agent.note");
    event.id = "\t \u{3000}".to_string();
    assert_eq!(event.validate().unwrap_err(), "id is required");
}

#[test]
fn unicode_whitespace_event_name_is_blank() {
    let event = new_event(1, "\u{2003}\u{a0}");
    assert_eq!(event.validate().unwrap_err(), "event is required");
}

#[test]
fn unparsable_timestamp_fails_validation() {
    let mut event = new_event(1, "agent.note");
    event.ts = "yesterday".to_string();
    let err = event.validate().unwrap_err();
    assert!(err.starts_with("invalid ts: "));
    assert!(err.len() > "invalid ts: ".len());
}

#[test]
fn fixed_timestamp_validates() {
    let mut event = new_event(1, "agent.note");
    event.ts = "2026-05-22T12:00:00Z".to_string();
    assert!(event.validate().is_ok());
}

#[test]
fn well_formed_ids_validate() {
    let mut event = new_event(3, "agent.note");
    event.trace_id = Some("0123456789abcdef0123456789abcdef".to_string());
    event.span_id = Some("0123456789abcdef".to_string());
    event.parent_span_id = Some("fedcba9876543210".to_string());
    assert!(event.validate().is_ok());
}

#[test]
fn invalid_parent_span_id_message() {
    let mut event = new_event(3, "agent.note");
    event.parent_span_id = Some("0123456789ABCDEF".to_string());
    assert_eq!(
        event.validate().unwrap_err(),
        "parent_span_id must be 16 lowercase hex characters"
    );
}

#[test]
fn schema_is_checked_before_sequence() {
    let mut event = new_event(0, " ");
    event.schema = "x".to_string();
    assert_eq!(event.validate().unwrap_err(), "unsupported schema x");
}

#[test]
fn validate_hex_checks_length_and_case() {
    assert!(validate_hex("00ff", 4, "f").is_ok());
    assert_eq!(
        validate_hex("00f", 4, "f").unwrap_err(),
        "f must be 4 lowercase hex characters"
    );
    assert_eq!(
        validate_hex("00fG", 4, "trace_id").unwrap_err(),
        "trace_id must be 4 lowercase hex characters"
    );
    assert!(validate_hex("\u{e9}\u{e9}", 2, "x").is_err());
}

#[test]
fn level_default_is_info() {
    assert_eq!(Level::default(), Level::Info);
}

#[test]
fn cloned_event_keeps_fields() {
    let event = new_event(4, "agent.note");
    let copy = event.clone();
    assert_eq!(copy.id, event.id);
    assert_eq!(copy.ts, event.ts);
    assert_eq!(copy.seq, 4);
}

#[test]
fn stamped_timestamp_is_utc_rfc3339() {
    let event = new_event(1, "agent.note");
    assert!(event.ts.ends_with('Z'));
    assert!(event.ts.len() >= 20);
    assert_eq!(&event.ts[4..5], "-");
    assert_eq!(&event.ts[10..11], "T");
}
