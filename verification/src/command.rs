//! The two events of a command run: `command.start` before the command
//! runs and `command.end` after it, with the command line redacted.

use vstd::prelude::*;
use crate::cli::texts_of;
use crate::event::{Level, NewEvent};
use crate::json::{
    clone_entries, entry_models, lemma_entry_models, lemma_models_of,
    models_of, JsonModel, JsonNumber, JsonValue,
};
use crate::redact::{redact_args, redacted};
use crate::text::{push_char, push_str};

verus! {

/// Words joined by single spaces.
pub open spec fn join_words(ws: Seq<Seq<char>>) -> Seq<char>
    decreases ws.len(),
{
    if ws.len() == 0 {
        Seq::empty()
    } else if ws.len() == 1 {
        ws[0]
    } else {
        join_words(ws.drop_last()) + seq![' '] + ws.last()
    }
}

pub fn join_with_spaces(words: &[String]) -> (r: String)
    ensures
        r@ == join_words(texts_of(words@)),
{
    let ghost ws = texts_of(words@);
    let mut r = String::new();
    let mut i: usize = 0;
    assert(ws.take(0) =~= Seq::<Seq<char>>::empty());
    while i < words.len()
        invariant
            i <= words.len(),
            ws == texts_of(words@),
            r@ == join_words(ws.take(i as int)),
        decreases words.len() - i,
    {
        assert(ws.take(i + 1).drop_last() =~= ws.take(i as int));
        assert(ws.take(i + 1).last() == words@[i as int]@);
        if i > 0 {
            push_char(&mut r, ' ');
        } else {
            assert(ws.take(1) =~= seq![words@[0]@]);
        }
        push_str(&mut r, words[i].as_str());
        i = i + 1;
    }
    assert(ws.take(words.len() as int) =~= ws);
    r
}

/// How a command ended, as the runner observed it.
#[derive(Debug)]
pub struct CommandOutcome {
    pub exit_code: i32,
    pub duration_ms: u64,
    pub stdout_preview: String,
    pub stderr_preview: String,
    pub stdout_truncated: bool,
    pub stderr_truncated: bool,
    pub spawn_error: Option<String>,
}

/// The attributes of both events: `cmd`, the redacted command line joined
/// by spaces, and `env`, the captured environment, exactly when an
/// allowlist was given.
pub open spec fn command_attrs_model(
    args: Seq<Seq<char>>,
    allowlist_len: nat,
    captured: Seq<(Seq<char>, JsonModel)>,
) -> Seq<(Seq<char>, JsonModel)> {
    seq![("cmd"@, JsonModel::Str(join_words(redacted(args))))] + if allowlist_len > 0 {
        seq![("env"@, JsonModel::Object(captured))]
    } else {
        Seq::empty()
    }
}

/// The redacted command line as a JSON array of strings.
pub open spec fn cmd_array_model(args: Seq<Seq<char>>) -> JsonModel {
    JsonModel::Array(redacted(args).map_values(|t: Seq<char>| JsonModel::Str(t)))
}

/// The body of `command.start`.
pub open spec fn start_body_model(args: Seq<Seq<char>>, cwd: Seq<char>, started_at: Seq<char>) -> JsonModel {
    JsonModel::Object(
        seq![
            ("cmd"@, cmd_array_model(args)),
            ("cwd"@, JsonModel::Str(cwd)),
            ("started_at"@, JsonModel::Str(started_at)),
        ],
    )
}

/// The body of `command.end`: the members in key order, `spawn_error` only
/// when the command could not be started, and `success` exactly when the
/// exit code is 0.
pub open spec fn end_body_model(args: Seq<Seq<char>>, cwd: Seq<char>, o: CommandOutcome) -> JsonModel {
    JsonModel::Object(
        seq![
            ("cmd"@, cmd_array_model(args)),
            ("cwd"@, JsonModel::Str(cwd)),
            ("duration_ms"@, JsonModel::Int(o.duration_ms as int)),
            ("exit_code"@, JsonModel::Int(o.exit_code as int)),
        ] + match o.spawn_error {
            Some(e) => seq![("spawn_error"@, JsonModel::Str(e@))],
            None => Seq::empty(),
        } + seq![
            ("stderr_preview"@, JsonModel::Str(o.stderr_preview@)),
            ("stderr_truncated"@, JsonModel::Bool(o.stderr_truncated)),
            ("stdout_preview"@, JsonModel::Str(o.stdout_preview@)),
            ("stdout_truncated"@, JsonModel::Bool(o.stdout_truncated)),
            ("success"@, JsonModel::Bool(o.exit_code == 0)),
        ],
    )
}

/// Whether `e` is the new event with these fields, from `runtrail`, without
/// trace, span or duration.
pub open spec fn is_command_event(
    e: NewEvent,
    seq: u64,
    name: Seq<char>,
    level: Level,
    attrs: Seq<(Seq<char>, JsonModel)>,
    body: JsonModel,
) -> bool {
    &&& e.seq == seq
    &&& e.event@ == name
    &&& e.level == level
    &&& e.src.deep_view() == Some("runtrail"@)
    &&& entry_models(e.attrs@) == attrs
    &&& e.body@ == body
    &&& e.trace_id is None && e.span_id is None && e.parent_span_id is None
    &&& e.duration_ms is None
}

fn command_attrs(args: &[String], env_allowlist: &[String], captured_env: &Vec<(String, JsonValue)>) -> (r: Vec<(String, JsonValue)>)
    ensures
        entry_models(r@) == command_attrs_model(
            texts_of(args@),
            env_allowlist.len() as nat,
            entry_models(captured_env@),
        ),
{
    let shown = redact_args(args);
    let cmd = join_with_spaces(shown.as_slice());
    let mut r: Vec<(String, JsonValue)> = Vec::new();
    r.push((String::from_str("cmd"), JsonValue::String(cmd)));
    if env_allowlist.len() > 0 {
        r.push((String::from_str("env"), JsonValue::Object(clone_entries(captured_env))));
    }
    proof {
        lemma_entry_models(r@);
        assert(entry_models(r@) =~= command_attrs_model(
            texts_of(args@),
            env_allowlist.len() as nat,
            entry_models(captured_env@),
        ));
    }
    r
}

fn cmd_array(args: &[String]) -> (r: JsonValue)
    ensures
        r@ == cmd_array_model(texts_of(args@)),
{
    let shown = redact_args(args);
    let ghost target = redacted(texts_of(args@)).map_values(|t: Seq<char>| JsonModel::Str(t));
    let mut items: Vec<JsonValue> = Vec::new();
    let mut i: usize = 0;
    while i < shown.len()
        invariant
            i <= shown.len(),
            texts_of(shown@) == redacted(texts_of(args@)),
            target == redacted(texts_of(args@)).map_values(|t: Seq<char>| JsonModel::Str(t)),
            items.len() == i,
            forall|j: int| 0 <= j < i ==> #[trigger] items@[j]@ == JsonModel::Str(shown@[j]@),
        decreases shown.len() - i,
    {
        items.push(JsonValue::String(shown[i].clone()));
        i = i + 1;
    }
    proof {
        lemma_models_of(items@);
        assert(texts_of(shown@).len() == shown.len());
        assert forall|j: int| 0 <= j < items.len() implies #[trigger] models_of(items@)[j]
            == target[j] by {
            assert(items@[j]@ == JsonModel::Str(shown@[j]@));
            assert(texts_of(shown@)[j] == shown@[j]@);
        }
        assert(models_of(items@) =~= target);
    }
    JsonValue::Array(items)
}

fn text_member(key: &str, value: &String) -> (r: (String, JsonValue))
    ensures
        r.0@ == key@,
        r.1@ == JsonModel::Str(value@),
{
    (String::from_str(key), JsonValue::String(value.clone()))
}

/// The `command.start` event: sequence number `seq`, level `info`.
pub fn command_start_event(
    seq: u64,
    args: &[String],
    env_allowlist: &[String],
    captured_env: &Vec<(String, JsonValue)>,
    cwd: &String,
    started_at: &String,
) -> (r: NewEvent)
    ensures
        is_command_event(
            r,
            seq,
            "command.start"@,
            Level::Info,
            command_attrs_model(texts_of(args@), env_allowlist.len() as nat, entry_models(captured_env@)),
            start_body_model(texts_of(args@), cwd@, started_at@),
        ),
{
    let mut members: Vec<(String, JsonValue)> = Vec::new();
    members.push((String::from_str("cmd"), cmd_array(args)));
    members.push(text_member("cwd", cwd));
    members.push(text_member("started_at", started_at));
    proof {
        lemma_entry_models(members@);
        assert(entry_models(members@) =~= start_body_model(texts_of(args@), cwd@, started_at@)->Object_0);
    }
    NewEvent {
        seq,
        event: String::from_str("command.start"),
        level: Level::Info,
        src: Some(String::from_str("runtrail")),
        attrs: command_attrs(args, env_allowlist, captured_env),
        body: JsonValue::Object(members),
        trace_id: None,
        span_id: None,
        parent_span_id: None,
        duration_ms: None,
    }
}

fn int_value(n: i32) -> (r: JsonValue)
    ensures
        r@ == JsonModel::Int(n as int),
{
    if n >= 0 {
        JsonValue::Number(JsonNumber::PosInt(n as u64))
    } else {
        JsonValue::Number(JsonNumber::NegInt(n as i64))
    }
}

/// The `command.end` event: sequence number `start_seq + 1`, level `info`
/// when the command exited with 0 and `error` otherwise, the same
/// attributes as `command.start`. `None` when `start_seq + 1` does not fit
/// in a `u64`.
pub fn command_end_event(
    start_seq: u64,
    args: &[String],
    env_allowlist: &[String],
    captured_env: &Vec<(String, JsonValue)>,
    cwd: &String,
    outcome: &CommandOutcome,
) -> (r: Option<NewEvent>)
    ensures
        r is None <==> start_seq == u64::MAX,
        r matches Some(e) ==> is_command_event(
            e,
            (start_seq + 1) as u64,
            "command.end"@,
            if outcome.exit_code == 0 {
                Level::Info
            } else {
                Level::Error
            },
            command_attrs_model(texts_of(args@), env_allowlist.len() as nat, entry_models(captured_env@)),
            end_body_model(texts_of(args@), cwd@, *outcome),
        ),
{
    if start_seq == u64::MAX {
        return None;
    }
    let mut members: Vec<(String, JsonValue)> = Vec::new();
    members.push((String::from_str("cmd"), cmd_array(args)));
    members.push(text_member("cwd", cwd));
    members.push((String::from_str("duration_ms"), JsonValue::Number(JsonNumber::PosInt(outcome.duration_ms))));
    members.push((String::from_str("exit_code"), int_value(outcome.exit_code)));
    match &outcome.spawn_error {
        Some(e) => members.push(text_member("spawn_error", e)),
        None => {},
    }
    members.push(text_member("stderr_preview", &outcome.stderr_preview));
    members.push((String::from_str("stderr_truncated"), JsonValue::Bool(outcome.stderr_truncated)));
    members.push(text_member("stdout_preview", &outcome.stdout_preview));
    members.push((String::from_str("stdout_truncated"), JsonValue::Bool(outcome.stdout_truncated)));
    members.push((String::from_str("success"), JsonValue::Bool(outcome.exit_code == 0)));
    proof {
        lemma_entry_models(members@);
        assert(entry_models(members@) =~= end_body_model(texts_of(args@), cwd@, *outcome)->Object_0);
    }
    Some(
        NewEvent {
            seq: start_seq + 1,
            event: String::from_str("command.end"),
            level: if outcome.exit_code == 0 {
                Level::Info
            } else {
                Level::Error
            },
            src: Some(String::from_str("runtrail")),
            attrs: command_attrs(args, env_allowlist, captured_env),
            body: JsonValue::Object(members),
            trace_id: None,
            span_id: None,
            parent_span_id: None,
            duration_ms: None,
        },
    )
}

} // verus!
