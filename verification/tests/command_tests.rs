use runtrail::command::{command_end_event, command_start_event, CommandOutcome};
use runtrail::event::Level;
use runtrail::json::{to_json_text, JsonValue};
use runtrail::redact::redact_args;

fn strings(xs: &[&str]) -> Vec<String> {
    xs.iter().map(|x| x.to_string()).collect()
}

fn outcome(exit_code: i32) -> CommandOutcome {
    CommandOutcome {
        exit_code,
        duration_ms: 12,
        stdout_preview: "ok".to_string(),
        stderr_preview: String::new(),
        stdout_truncated: false,
        stderr_truncated: false,
        spawn_error: None,
    }
}

#[test]
fn run_command_redacts_secret_argv_in_events_and_attrs() {
    let cmd = strings(&["sh", "-c", "printf ok", "--token", "SECRET123"]);
    let start = command_start_event(1, &cmd, &[], &Vec::new(), &"/tmp".to_string(), &"t".to_string());
    let end = command_end_event(1, &cmd, &[], &Vec::new(), &"/tmp".to_string(), &outcome(0)).unwrap();
    for e in [start, end] {
        let attrs = to_json_text(&JsonValue::Object(e.attrs));
        let body = to_json_text(&e.body);
        assert!(!attrs.contains("SECRET123"));
        assert!(!body.contains("SECRET123"));
        assert!(attrs.contains("[REDACTED]"));
        assert!(body.contains("[REDACTED]"));
    }
}

#[test]
fn redaction_covers_both_option_forms_and_keeps_the_rest() {
    let args = strings(&[
        "deploy",
        "--Api-Key=abc",
        "--password",
        "hunter2",
        "-v",
        "--name",
        "x",
        "--token",
    ]);
    assert_eq!(
        redact_args(&args),
        strings(&[
            "deploy",
            "--Api-Key=[REDACTED]",
            "--password",
            "[REDACTED]",
            "-v",
            "--name",
            "x",
            "--token",
        ])
    );
    assert_eq!(redact_args(&strings(&["token", "x"])), strings(&["token", "x"]));
}

#[test]
fn run_command_logs_start_and_end_events() {
    let cmd = strings(&["sh", "-c", "exit 7"]);
    let env = vec![("CI".to_string(), JsonValue::String("true".to_string()))];
    let allow = strings(&["CI"]);
    let start = command_start_event(4, &cmd, &allow, &env, &"/w".to_string(), &"2026-05-22T12:00:00Z".to_string());
    assert_eq!(start.seq, 4);
    assert_eq!(start.event, "command.start");
    assert_eq!(start.level, Level::Info);
    assert_eq!(start.src.as_deref(), Some("runtrail"));
    assert_eq!(
        to_json_text(&start.body),
        "{\"cmd\":[\"sh\",\"-c\",\"exit 7\"],\"cwd\":\"/w\",\"started_at\":\"2026-05-22T12:00:00Z\"}"
    );
    let end = command_end_event(4, &cmd, &allow, &env, &"/w".to_string(), &outcome(7)).unwrap();
    assert_eq!(end.seq, 5);
    assert_eq!(end.event, "command.end");
    assert_eq!(end.level, Level::Error);
    assert_eq!(
        to_json_text(&JsonValue::Object(end.attrs)),
        "{\"cmd\":\"sh -c exit 7\",\"env\":{\"CI\":\"true\"}}"
    );
    assert_eq!(
        to_json_text(&end.body),
        "{\"cmd\":[\"sh\",\"-c\",\"exit 7\"],\"cwd\":\"/w\",\"duration_ms\":12,\"exit_code\":7,\"stderr_preview\":\"\",\"stderr_truncated\":false,\"stdout_preview\":\"ok\",\"stdout_truncated\":false,\"success\":false}"
    );
}

#[test]
fn run_command_logs_spawn_failure_after_start() {
    let cmd = strings(&["runtrail-definitely-missing-command"]);
    let mut o = outcome(127);
    o.spawn_error = Some("not found".to_string());
    let end = command_end_event(1, &cmd, &[], &Vec::new(), &".".to_string(), &o).unwrap();
    let body = to_json_text(&end.body);
    assert!(body.contains("\"exit_code\":127"));
    assert!(body.contains("\"spawn_error\":\"not found\""));
    assert!(body.contains("\"success\":false"));
    assert_eq!(to_json_text(&JsonValue::Object(end.attrs)), "{\"cmd\":\"runtrail-definitely-missing-command\"}");
}

#[test]
fn successful_run_is_info_and_empty_allowlist_adds_no_env() {
    let cmd = strings(&["true"]);
    let captured = vec![("X".to_string(), JsonValue::Null)];
    let end = command_end_event(1, &cmd, &[], &captured, &".".to_string(), &outcome(0)).unwrap();
    assert_eq!(end.level, Level::Info);
    assert_eq!(to_json_text(&JsonValue::Object(end.attrs)), "{\"cmd\":\"true\"}");
    assert!(to_json_text(&end.body).ends_with("\"success\":true}"));
    assert!(command_end_event(u64::MAX, &cmd, &[], &captured, &".".to_string(), &outcome(0)).is_none());
}
