use runtrail::event::{Event, Level, NewEvent};
use runtrail::index::{build_index, counts_by_event, level_name, IndexEntry};
use runtrail::json::JsonValue;

fn event(seq: u64, name: &str, level: Level) -> Event {
    Event::new(NewEvent {
        seq,
        event: name.to_string(),
        level,
        src: None,
        attrs: Vec::new(),
        body: JsonValue::Null,
        trace_id: None,
        span_id: None,
        parent_span_id: None,
        duration_ms: None,
    })
}

#[test]
fn build_index_extracts_query_fields() {
    let event = Event::new(NewEvent {
        seq: 7,
        event: "agent.note".to_string(),
        level: Level::Warn,
        src: None,
        attrs: Vec::new(),
        body: JsonValue::Null,
        trace_id: Some("0123456789abcdef0123456789abcdef".to_string()),
        span_id: None,
        parent_span_id: None,
        duration_ms: None,
    });
    let entries = build_index(&[event]);
    assert_eq!(entries[0].seq, 7);
    assert_eq!(entries[0].event, "agent.note");
    assert_eq!(entries[0].level, "warn");
    assert_eq!(
        entries[0].trace_id.as_deref(),
        Some("0123456789abcdef0123456789abcdef")
    );
}

#[test]
fn level_names_are_lowercase() {
    assert_eq!(level_name(Level::Trace), "trace");
    assert_eq!(level_name(Level::Debug), "debug");
    assert_eq!(level_name(Level::Info), "info");
    assert_eq!(level_name(Level::Warn), "warn");
    assert_eq!(level_name(Level::Error), "error");
}

#[test]
fn counts_by_event_sorts_names_and_totals_entries() {
    let events = vec![
        event(1, "error", Level::Error),
        event(2, "agent.note", Level::Info),
        event(3, "command.end", Level::Info),
        event(4, "agent.note", Level::Info),
        event(5, "agent.note", Level::Info),
        event(6, "Zeta", Level::Info),
    ];
    let entries: Vec<IndexEntry> = build_index(&events);
    let counts = counts_by_event(&entries);
    let names: Vec<&str> = counts.iter().map(|(n, _)| n.as_str()).collect();
    assert_eq!(names, vec!["Zeta", "agent.note", "command.end", "error"]);
    let values: Vec<usize> = counts.iter().map(|(_, c)| *c).collect();
    assert_eq!(values, vec![1, 3, 1, 1]);
    assert_eq!(values.iter().sum::<usize>(), entries.len());
}

#[test]
fn counts_by_event_of_nothing_is_empty() {
    assert!(counts_by_event(&[]).is_empty());
}

#[test]
fn counts_by_event_orders_prefixes_first() {
    let events = vec![
        event(1, "ab", Level::Info),
        event(2, "a", Level::Info),
        event(3, "\u{e9}", Level::Info),
        event(4, "b", Level::Info),
    ];
    let counts = counts_by_event(&build_index(&events));
    let names: Vec<&str> = counts.iter().map(|(n, _)| n.as_str()).collect();
    assert_eq!(names, vec!["a", "ab", "b", "\u{e9}"]);
}

#[test]
fn counts_add_up_over_concatenated_trails() {
    let a = build_index(&[event(1, "x", Level::Info), event(2, "y", Level::Info)]);
    let b = build_index(&[event(3, "x", Level::Info)]);
    let ab: Vec<IndexEntry> = a.iter().chain(b.iter()).cloned().collect();
    let ba: Vec<IndexEntry> = b.iter().chain(a.iter()).cloned().collect();
    assert_eq!(counts_by_event(&ab), vec![("x".to_string(), 2), ("y".to_string(), 1)]);
    assert_eq!(counts_by_event(&ab), counts_by_event(&ba));
}
