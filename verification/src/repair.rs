//! Filtering a trail and turning it into an agent-ready repair prompt.

use vstd::prelude::*;
use crate::event::{event_models, Event, EventModel, Level};
use crate::json::{
    json_as_i64, json_member, json_text, lemma_models_of, models_of, to_json_text, JsonModel,
    JsonValue,
};
use crate::text::{chars_of, decimal, push_char, push_decimal, push_str, str_eq};

verus! {

/// Which events to keep: each criterion that is set must hold.
#[derive(Debug, Clone, Default)]
pub struct EventFilter {
    pub event: Option<String>,
    pub level: Option<Level>,
    pub trace_id: Option<String>,
}

/// Whether an event meets every criterion that the filter sets.
pub open spec fn filter_accepts(f: EventFilter, e: EventModel) -> bool {
    &&& (f.event matches Some(name) ==> e.event == name@)
    &&& (f.level matches Some(level) ==> e.level == level)
    &&& (f.trace_id matches Some(t) ==> e.trace_id == Some(t@))
}

/// The events of `s` that the filter accepts, in order.
pub open spec fn accepted(f: EventFilter, s: Seq<EventModel>) -> Seq<EventModel>
    decreases s.len(),
{
    if s.len() == 0 {
        Seq::empty()
    } else {
        accepted(f, s.drop_last()) + (if filter_accepts(f, s.last()) {
            seq![s.last()]
        } else {
            Seq::empty()
        })
    }
}

impl EventFilter {
    /// Whether `event` meets every criterion that the filter sets.
    pub fn matches(&self, event: &Event) -> (r: bool)
        ensures
            r == filter_accepts(*self, event@),
            r <==> {
                &&& (self.event matches Some(name) ==> event.event@ == name@)
                &&& (self.level matches Some(level) ==> event.level == level)
                &&& (self.trace_id matches Some(t) ==> (event.trace_id matches Some(u) && u@
                    == t@))
            },
    {
        match &self.event {
            Some(name) => {
                if event.event != *name {
                    return false;
                }
            },
            None => {},
        }
        match &self.level {
            Some(level) => {
                if event.level != *level {
                    return false;
                }
            },
            None => {},
        }
        match &self.trace_id {
            Some(t) => match &event.trace_id {
                Some(u) => {
                    assert(event@.trace_id == Some(u@));
                    if *u != *t {
                        return false;
                    }
                },
                None => {
                    assert(event@.trace_id is None);
                    return false;
                },
            },
            None => {},
        }
        true
    }
}

/// The events that the filter accepts, in their order.
pub fn filter_events(events: &[Event], filter: &EventFilter) -> (r: Vec<Event>)
    ensures
        event_models(r@) == accepted(*filter, event_models(events@)),
{
    let mut r: Vec<Event> = Vec::new();
    let mut i: usize = 0;
    while i < events.len()
        invariant
            i <= events.len(),
            event_models(r@) == accepted(*filter, event_models(events@).take(i as int)),
        decreases events.len() - i,
    {
        let ghost ms = event_models(events@);
        assert(ms.take(i + 1).drop_last() =~= ms.take(i as int));
        assert(ms.take(i + 1).last() == events@[i as int]@);
        if filter.matches(&events[i]) {
            let ghost before = r@;
            r.push(events[i].clone());
            assert(event_models(r@) =~= event_models(before) + seq![events@[i as int]@]);
        } else {
            assert(event_models(r@) =~= event_models(r@) + Seq::<EventModel>::empty());
        }
        i = i + 1;
    }
    assert(event_models(events@).take(events.len() as int) =~= event_models(events@));
    r
}


/// Newlines written as the two characters `\n`.
pub open spec fn escape_newlines(s: Seq<char>) -> Seq<char>
    decreases s.len(),
{
    if s.len() == 0 {
        Seq::empty()
    } else {
        escape_newlines(s.drop_last()) + (if s.last() == '\n' {
            seq!['\\', 'n']
        } else {
            seq![s.last()]
        })
    }
}

/// A text cut to its first 240 characters (and an ellipsis) when longer,
/// with newlines escaped.
pub open spec fn preview_of_text(t: Seq<char>) -> Seq<char> {
    escape_newlines(
        if t.len() <= 240 {
            t
        } else {
            t.take(240).push('\u{2026}')
        },
    )
}

/// The preview of a JSON value: its compact text, cut and escaped.
pub open spec fn evidence_text(v: JsonModel) -> Seq<char> {
    preview_of_text(json_text(v))
}

/// The preview of an optional value; `null` when absent.
pub open spec fn compact_text(o: Option<JsonModel>) -> Seq<char> {
    match o {
        Some(v) => evidence_text(v),
        None => "null"@,
    }
}

pub open spec fn opt_model(o: Option<&JsonValue>) -> Option<JsonModel> {
    match o {
        Some(v) => Some(v@),
        None => None,
    }
}

fn push_escaped(out: &mut String, cs: &Vec<char>, n: usize)
    requires
        n <= cs.len(),
    ensures
        final(out)@ == old(out)@ + escape_newlines(cs@.take(n as int)),
{
    let ghost start = out@;
    let mut i: usize = 0;
    assert(cs@.take(0) =~= Seq::<char>::empty());
    while i < n
        invariant
            i <= n,
            n <= cs.len(),
            out@ == start + escape_newlines(cs@.take(i as int)),
        decreases n - i,
    {
        let c = cs[i];
        if c == '\n' {
            push_char(out, '\\');
            push_char(out, 'n');
        } else {
            push_char(out, c);
        }
        assert(cs@.take(i + 1).drop_last() =~= cs@.take(i as int));
        i = i + 1;
    }
}

/// The preview of a JSON value.
fn evidence_preview(v: &JsonValue) -> (r: String)
    ensures
        r@ == evidence_text(v@),
{
    let text = to_json_text(v);
    let cs = chars_of(text.as_str());
    let mut out = String::new();
    if cs.len() <= 240 {
        push_escaped(&mut out, &cs, cs.len());
        assert(cs@.take(cs.len() as int) =~= cs@);
    } else {
        push_escaped(&mut out, &cs, 240);
        push_char(&mut out, '\u{2026}');
        let ghost t = cs@.take(240).push('\u{2026}');
        assert(t.drop_last() =~= cs@.take(240));
    }
    out
}

/// The preview of an optional value; `null` when absent.
fn compact_json(v: Option<&JsonValue>) -> (r: String)
    ensures
        r@ == compact_text(opt_model(v)),
{
    match v {
        Some(x) => evidence_preview(x),
        None => String::from_str("null"),
    }
}

/// A finished command that exited with a non-zero code.
pub open spec fn is_failed_command(e: EventModel) -> bool {
    &&& e.event == "command.end"@
    &&& json_member(e.body, "exit_code"@) matches Some(v)
    &&& json_as_i64(v) matches Some(c)
    &&& c != 0
}

/// Evidence of a failure: a warning, an error or a failed command.
pub open spec fn is_failure(e: EventModel) -> bool {
    e.level == Level::Warn || e.level == Level::Error || is_failed_command(e)
}

/// The two kinds of events that the prompt lists.
pub enum Pick {
    Failure,
    CommandEnd,
}

pub open spec fn picks(k: Pick, e: EventModel) -> bool {
    match k {
        Pick::Failure => is_failure(e),
        Pick::CommandEnd => e.event == "command.end"@,
    }
}

/// The events of `s` of kind `k`, in order.
pub open spec fn picked(s: Seq<EventModel>, k: Pick) -> Seq<EventModel>
    decreases s.len(),
{
    if s.len() == 0 {
        Seq::empty()
    } else {
        picked(s.drop_last(), k) + (if picks(k, s.last()) {
            seq![s.last()]
        } else {
            Seq::empty()
        })
    }
}

/// The last `n` elements of `s`, in order.
pub open spec fn last_n(s: Seq<EventModel>, n: nat) -> Seq<EventModel> {
    if s.len() <= n {
        s
    } else {
        s.subrange(s.len() - n, s.len() as int)
    }
}

/// The `Debug` name of a level.
pub open spec fn level_debug_text(level: Level) -> Seq<char> {
    match level {
        Level::Trace => "Trace"@,
        Level::Debug => "Debug"@,
        Level::Info => "Info"@,
        Level::Warn => "Warn"@,
        Level::Error => "Error"@,
    }
}

/// What the prompt shows of an exit code: its JSON text, `null` when absent.
pub open spec fn exit_text(body: JsonModel) -> Seq<char> {
    match json_member(body, "exit_code"@) {
        Some(v) => json_text(v),
        None => "null"@,
    }
}

/// The line of the prompt for one listed event.
pub open spec fn line_text(k: Pick, e: EventModel) -> Seq<char> {
    match k {
        Pick::Failure => "- seq="@ + decimal(e.seq as nat) + " event="@ + e.event + " level="@
            + level_debug_text(e.level) + " evidence="@ + evidence_text(e.body) + "\n"@,
        Pick::CommandEnd => "- seq="@ + decimal(e.seq as nat) + " exit="@ + exit_text(e.body)
            + " cmd="@ + compact_text(json_member(e.body, "cmd"@)) + " stderr="@ + compact_text(
            json_member(e.body, "stderr_preview"@),
        ) + " stdout="@ + compact_text(json_member(e.body, "stdout_preview"@)) + "\n"@,
    }
}

/// The lines of the prompt for a list of events.
pub open spec fn lines_text(k: Pick, s: Seq<EventModel>) -> Seq<char>
    decreases s.len(),
{
    if s.len() == 0 {
        Seq::empty()
    } else {
        lines_text(k, s.drop_last()) + line_text(k, s.last())
    }
}

fn level_debug_name(level: Level) -> (r: &'static str)
    ensures
        r@ == level_debug_text(level),
{
    match level {
        Level::Trace => "Trace",
        Level::Debug => "Debug",
        Level::Info => "Info",
        Level::Warn => "Warn",
        Level::Error => "Error",
    }
}

fn failed_command(e: &Event) -> (r: bool)
    ensures
        r == is_failed_command(e@),
{
    if !str_eq(e.event.as_str(), "command.end") {
        return false;
    }
    match e.body.get("exit_code") {
        Some(v) => match v.as_i64() {
            Some(c) => c != 0,
            None => false,
        },
        None => false,
    }
}

fn picks_event(k: &Pick, e: &Event) -> (r: bool)
    ensures
        r == picks(*k, e@),
{
    match k {
        Pick::Failure => e.level == Level::Warn || e.level == Level::Error || failed_command(e),
        Pick::CommandEnd => str_eq(e.event.as_str(), "command.end"),
    }
}

/// The positions of the events of kind `k`, in order.
fn pick_indices(events: &[Event], k: &Pick) -> (r: Vec<usize>)
    ensures
        r.len() == picked(event_models(events@), *k).len(),
        forall|t: int|
            #![trigger r@[t]]
            0 <= t < r.len() ==> r@[t] < events.len() && picked(event_models(events@), *k)[t]
                == events@[r@[t] as int]@,
{
    let ghost ms = event_models(events@);
    let mut r: Vec<usize> = Vec::new();
    let mut i: usize = 0;
    while i < events.len()
        invariant
            i <= events.len(),
            ms == event_models(events@),
            r.len() == picked(ms.take(i as int), *k).len(),
            forall|t: int|
                #![trigger r@[t]]
                0 <= t < r.len() ==> r@[t] < i && picked(ms.take(i as int), *k)[t] == events@[r@[t] as int]@,
        decreases events.len() - i,
    {
        let ghost old_r = r@;
        let ghost before = picked(ms.take(i as int), *k);
        assert(ms.take(i + 1).drop_last() =~= ms.take(i as int));
        assert(ms.take(i + 1).last() == events@[i as int]@);
        let p = picks_event(k, &events[i]);
        if p {
            r.push(i);
            assert(picked(ms.take(i + 1), *k) == before + seq![events@[i as int]@]);
            assert forall|t: int| #![trigger r@[t]] 0 <= t < r.len() implies r@[t] < i + 1
                && picked(ms.take(i + 1), *k)[t] == events@[r@[t] as int]@ by {
                if t < old_r.len() {
                    assert(r@[t] == old_r[t]);
                    assert(picked(ms.take(i + 1), *k)[t] == before[t]);
                }
            }
        } else {
            assert(picked(ms.take(i + 1), *k) =~= before);
        }
        i = i + 1;
    }
    assert(ms.take(events.len() as int) =~= ms);
    r
}

fn push_failure_line(out: &mut String, e: &Event)
    ensures
        final(out)@ == old(out)@ + line_text(Pick::Failure, e@),
{
    let ghost start = out@;
    let mut line = String::new();
    push_str(&mut line, "- seq=");
    push_decimal(&mut line, e.seq);
    push_str(&mut line, " event=");
    push_str(&mut line, e.event.as_str());
    push_str(&mut line, " level=");
    push_str(&mut line, level_debug_name(e.level));
    push_str(&mut line, " evidence=");
    let ev = evidence_preview(&e.body);
    push_str(&mut line, ev.as_str());
    push_str(&mut line, "\n");
    push_str(out, line.as_str());
}

fn push_command_line(out: &mut String, e: &Event)
    ensures
        final(out)@ == old(out)@ + line_text(Pick::CommandEnd, e@),
{
    let exit = match e.body.get("exit_code") {
        Some(v) => to_json_text(v),
        None => String::from_str("null"),
    };
    assert(exit@ == exit_text(e@.body));
    let cmd = compact_json(e.body.get("cmd"));
    let stderr = compact_json(e.body.get("stderr_preview"));
    let stdout = compact_json(e.body.get("stdout_preview"));
    let mut line = String::new();
    push_str(&mut line, "- seq=");
    push_decimal(&mut line, e.seq);
    push_str(&mut line, " exit=");
    push_str(&mut line, exit.as_str());
    push_str(&mut line, " cmd=");
    push_str(&mut line, cmd.as_str());
    push_str(&mut line, " stderr=");
    push_str(&mut line, stderr.as_str());
    push_str(&mut line, " stdout=");
    push_str(&mut line, stdout.as_str());
    push_str(&mut line, "\n");
    push_str(out, line.as_str());
}

fn push_line(out: &mut String, k: &Pick, e: &Event)
    ensures
        final(out)@ == old(out)@ + line_text(*k, e@),
{
    match k {
        Pick::Failure => push_failure_line(out, e),
        Pick::CommandEnd => push_command_line(out, e),
    }
}

/// Appends the lines of the last `n` events of kind `k`.
fn push_last_lines(out: &mut String, events: &[Event], k: &Pick, n: usize)
    ensures
        final(out)@ == old(out)@ + lines_text(*k, last_n(picked(event_models(events@), *k), n as nat)),
{
    let ghost ps = picked(event_models(events@), *k);
    let idx = pick_indices(events, k);
    let start: usize = if idx.len() > n {
        idx.len() - n
    } else {
        0
    };
    let ghost out0 = out@;
    let mut t: usize = start;
    assert(ps.subrange(start as int, start as int) =~= Seq::<EventModel>::empty());
    while t < idx.len()
        invariant
            start <= t <= idx.len(),
            idx.len() == ps.len(),
            ps == picked(event_models(events@), *k),
            forall|u: int|
                #![trigger idx@[u]]
                0 <= u < idx.len() ==> idx@[u] < events.len() && ps[u] == events@[idx@[u] as int]@,
            out@ == out0 + lines_text(*k, ps.subrange(start as int, t as int)),
        decreases idx.len() - t,
    {
        let j = idx[t];
        assert(ps[t as int] == events@[j as int]@);
        push_line(out, k, &events[j]);
        assert(ps.subrange(start as int, t + 1).drop_last() =~= ps.subrange(
            start as int,
            t as int,
        ));
        t = t + 1;
    }
    assert(ps.subrange(start as int, ps.len() as int) =~= last_n(ps, n as nat));
}


/// The last `repo.snapshot` event, if any.
pub open spec fn last_snapshot(s: Seq<EventModel>) -> Option<EventModel>
    decreases s.len(),
{
    if s.len() == 0 {
        None
    } else if s.last().event == "repo.snapshot"@ {
        Some(s.last())
    } else {
        last_snapshot(s.drop_last())
    }
}

/// The line for one changed file of a snapshot.
pub open spec fn file_line(f: JsonModel) -> Seq<char> {
    "  - "@ + compact_text(json_member(f, "status"@)) + " "@ + compact_text(json_member(f, "path"@))
        + "\n"@
}

pub open spec fn file_lines(fs: Seq<JsonModel>) -> Seq<char>
    decreases fs.len(),
{
    if fs.len() == 0 {
        Seq::empty()
    } else {
        file_lines(fs.drop_last()) + file_line(fs.last())
    }
}

/// The first `n` elements of `s`, or all of them when fewer.
pub open spec fn first_n<A>(s: Seq<A>, n: nat) -> Seq<A> {
    if s.len() <= n {
        s
    } else {
        s.take(n as int)
    }
}

/// The changed files of a snapshot body, the first 20 of them, when `files`
/// is an array.
pub open spec fn changed_files_text(body: JsonModel) -> Seq<char> {
    match json_member(body, "files"@) {
        Some(JsonModel::Array(fs)) => "- changed files:\n"@ + file_lines(first_n(fs, 20)),
        _ => Seq::empty(),
    }
}

/// What the prompt shows of a snapshot body.
pub open spec fn snapshot_text(body: JsonModel) -> Seq<char> {
    "- branch: "@ + compact_text(json_member(body, "branch"@)) + "\n"@ + "- head: "@ + compact_text(
        json_member(body, "head"@),
    ) + "\n"@ + "- dirty: "@ + compact_text(json_member(body, "dirty"@)) + "\n"@
        + changed_files_text(body)
}

fn push_changed_files(out: &mut String, body: &JsonValue)
    ensures
        final(out)@ == old(out)@ + changed_files_text(body@),
{
    let files = match body.get("files") {
        Some(f) => f.as_array(),
        None => None,
    };
    match files {
        Some(fs) => {
            proof {
                lemma_models_of(fs@);
            }
            let ghost ms = models_of(fs@);
            let ghost out0 = out@;
            push_str(out, "- changed files:\n");
            let n: usize = if fs.len() <= 20 {
                fs.len()
            } else {
                20
            };
            let mut i: usize = 0;
            assert(ms.take(0) =~= Seq::<JsonModel>::empty());
            while i < n
                invariant
                    i <= n,
                    n <= fs.len(),
                    n == if fs.len() <= 20 {
                        fs.len()
                    } else {
                        20
                    },
                    ms == models_of(fs@),
                    ms.len() == fs.len(),
                    forall|j: int| 0 <= j < fs.len() ==> #[trigger] ms[j] == fs@[j]@,
                    out@ == out0 + "- changed files:\n"@ + file_lines(ms.take(i as int)),
                decreases n - i,
            {
                let f = &fs[i];
                let status = compact_json(f.get("status"));
                let path = compact_json(f.get("path"));
                let mut line = String::new();
                push_str(&mut line, "  - ");
                push_str(&mut line, status.as_str());
                push_str(&mut line, " ");
                push_str(&mut line, path.as_str());
                push_str(&mut line, "\n");
                assert(line@ == file_line(ms[i as int]));
                push_str(out, line.as_str());
                assert(ms.take(i + 1).drop_last() =~= ms.take(i as int));
                i = i + 1;
            }
            assert(ms.take(n as int) =~= first_n(ms, 20));
        },
        None => {},
    }
}

fn push_snapshot(out: &mut String, body: &JsonValue)
    ensures
        final(out)@ == old(out)@ + snapshot_text(body@),
{
    let ghost out0 = out@;
    let branch = compact_json(body.get("branch"));
    let head = compact_json(body.get("head"));
    let dirty = compact_json(body.get("dirty"));
    let mut text = String::new();
    push_str(&mut text, "- branch: ");
    push_str(&mut text, branch.as_str());
    push_str(&mut text, "\n");
    push_str(&mut text, "- head: ");
    push_str(&mut text, head.as_str());
    push_str(&mut text, "\n");
    push_str(&mut text, "- dirty: ");
    push_str(&mut text, dirty.as_str());
    push_str(&mut text, "\n");
    push_changed_files(&mut text, body);
    push_str(out, text.as_str());
}

/// What the prompt says when the trail has no snapshot.
pub open spec fn no_snapshot_text() -> Seq<char> {
    "No `repo.snapshot` event found. Run `runtrail repo snapshot` if repo context is needed.\n"@
}

/// The repository context section: the last snapshot, if any.
pub open spec fn repo_section(s: Seq<EventModel>) -> Seq<char> {
    match last_snapshot(s) {
        Some(e) => snapshot_text(e.body),
        None => no_snapshot_text(),
    }
}

fn last_snapshot_index(events: &[Event]) -> (r: Option<usize>)
    ensures
        match r {
            Some(j) => j < events.len() && last_snapshot(event_models(events@)) == Some(
                events@[j as int]@,
            ),
            None => last_snapshot(event_models(events@)) is None,
        },
{
    let ghost ms = event_models(events@);
    let mut i: usize = events.len();
    assert(ms.take(events.len() as int) =~= ms);
    while i > 0
        invariant
            i <= events.len(),
            ms == event_models(events@),
            last_snapshot(ms) == last_snapshot(ms.take(i as int)),
        decreases i,
    {
        assert(ms.take(i as int).last() == events@[i - 1]@);
        assert(ms.take(i as int).drop_last() =~= ms.take(i - 1));
        if str_eq(events[i - 1].event.as_str(), "repo.snapshot") {
            return Some(i - 1);
        }
        i = i - 1;
    }
    assert(ms.take(0) =~= Seq::<EventModel>::empty());
    None
}

fn push_repo_section(out: &mut String, events: &[Event])
    ensures
        final(out)@ == old(out)@ + repo_section(event_models(events@)),
{
    match last_snapshot_index(events) {
        Some(j) => push_snapshot(out, &events[j].body),
        None => push_str(
            out,
            "No `repo.snapshot` event found. Run `runtrail repo snapshot` if repo context is needed.\n",
        ),
    }
}

/// What the prompt says when the trail shows no failure.
pub open spec fn no_failure_text() -> Seq<char> {
    "No warnings, errors, or failed command events were found. Inspect the summary and recent events before changing code.\n"@
}

/// The failure evidence section: the last ten failures, in order.
pub open spec fn evidence_section(s: Seq<EventModel>) -> Seq<char> {
    if picked(s, Pick::Failure).len() == 0 {
        no_failure_text()
    } else {
        lines_text(Pick::Failure, last_n(picked(s, Pick::Failure), 10))
    }
}

fn push_evidence_section(out: &mut String, events: &[Event])
    ensures
        final(out)@ == old(out)@ + evidence_section(event_models(events@)),
{
    let k = Pick::Failure;
    let idx = pick_indices(events, &k);
    if idx.len() == 0 {
        push_str(out, "No warnings, errors, or failed command events were found. Inspect the summary and recent events before changing code.\n");
    } else {
        push_last_lines(out, events, &k, 10);
    }
}

/// The opening of every prompt.
pub open spec fn header_text() -> Seq<char> {
    "# Agent Repair Prompt\n\n"@ + "You are repairing a failing local/CI run using runtrail evidence.\n\n"@
        + "## Failure Evidence\n\n"@
}

/// The closing of every prompt: suspected causes, safe commands and
/// instructions.
pub open spec fn footer_text() -> Seq<char> {
    "\n## Suspected Causes\n\n"@
        + "- Failed command or test events usually identify the first broken check.\n"@
        + "- Recent `repo.diff` / `repo.snapshot` events identify likely changed files.\n"@
        + "- Prefer minimal fixes backed by a reproducing test or rerun command.\n"@
        + "\n## Safe Commands To Try\n\n"@ + "```bash\n"@
        + "runtrail summarise --file .runtrail/events.jsonl\n"@
        + "runtrail tail --file .runtrail/events.jsonl --lines 20\n"@ + "cargo fmt --check\n"@
        + "cargo clippy --all-targets -- -D warnings\n"@ + "cargo test\n"@ + "```\n"@
        + "\n## Repair Instructions\n\n"@
        + "1. Reproduce the failure with the narrowest command available.\n"@
        + "2. Inspect changed files and the failing evidence above.\n"@
        + "3. Make the smallest safe fix.\n"@
        + "4. Re-run the failing command and then the full quality gate.\n"@
        + "5. Log follow-up evidence with `runtrail run`, `runtrail repo snapshot`, or `runtrail repo diff`.\n"@
}

fn push_footer(out: &mut String)
    ensures
        final(out)@ == old(out)@ + footer_text(),
{
    let ghost out0 = out@;
    let mut t = String::new();
    push_str(&mut t, "\n## Suspected Causes\n\n");
    push_str(&mut t, "- Failed command or test events usually identify the first broken check.\n");
    push_str(&mut t, "- Recent `repo.diff` / `repo.snapshot` events identify likely changed files.\n");
    push_str(&mut t, "- Prefer minimal fixes backed by a reproducing test or rerun command.\n");
    push_str(&mut t, "\n## Safe Commands To Try\n\n");
    push_str(&mut t, "```bash\n");
    push_str(&mut t, "runtrail summarise --file .runtrail/events.jsonl\n");
    push_str(&mut t, "runtrail tail --file .runtrail/events.jsonl --lines 20\n");
    push_str(&mut t, "cargo fmt --check\n");
    push_str(&mut t, "cargo clippy --all-targets -- -D warnings\n");
    push_str(&mut t, "cargo test\n");
    push_str(&mut t, "```\n");
    push_str(&mut t, "\n## Repair Instructions\n\n");
    push_str(&mut t, "1. Reproduce the failure with the narrowest command available.\n");
    push_str(&mut t, "2. Inspect changed files and the failing evidence above.\n");
    push_str(&mut t, "3. Make the smallest safe fix.\n");
    push_str(&mut t, "4. Re-run the failing command and then the full quality gate.\n");
    push_str(
        &mut t,
        "5. Log follow-up evidence with `runtrail run`, `runtrail repo snapshot`, or `runtrail repo diff`.\n",
    );
    push_str(out, t.as_str());
}

/// The whole repair prompt for a trail.
pub open spec fn repair_prompt_text(s: Seq<EventModel>) -> Seq<char> {
    header_text() + evidence_section(s) + "\n## Repository Context\n\n"@ + repo_section(s)
        + "\n## Recent Command Results\n\n"@ + lines_text(
        Pick::CommandEnd,
        last_n(picked(s, Pick::CommandEnd), 5),
    ) + footer_text()
}

/// Builds the Markdown prompt that hands a failing run to an agent: the last
/// ten failures, the last repository snapshot, the last five command
/// results, and fixed guidance.
pub fn repair_prompt(events: &[Event]) -> (r: String)
    ensures
        r@ == repair_prompt_text(event_models(events@)),
{
    let mut out = String::new();
    push_str(&mut out, "# Agent Repair Prompt\n\n");
    push_str(&mut out, "You are repairing a failing local/CI run using runtrail evidence.\n\n");
    push_str(&mut out, "## Failure Evidence\n\n");
    push_evidence_section(&mut out, events);
    push_str(&mut out, "\n## Repository Context\n\n");
    push_repo_section(&mut out, events);
    push_str(&mut out, "\n## Recent Command Results\n\n");
    push_last_lines(&mut out, events, &Pick::CommandEnd, 5);
    push_footer(&mut out);
    out
}


proof fn lemma_accepted_all_pass(f: EventFilter, s: Seq<EventModel>)
    ensures
        forall|i: int|
            0 <= i < accepted(f, s).len() ==> filter_accepts(f, #[trigger] accepted(f, s)[i]),
    decreases s.len(),
{
    if s.len() > 0 {
        lemma_accepted_all_pass(f, s.drop_last());
        let a = accepted(f, s.drop_last());
        assert forall|i: int|
            0 <= i < accepted(f, s).len() implies filter_accepts(f, #[trigger] accepted(f, s)[i]) by {
            if i < a.len() {
                assert(accepted(f, s)[i] == a[i]);
            }
        }
    }
}

proof fn lemma_accepted_keeps_passing(f: EventFilter, s: Seq<EventModel>)
    requires
        forall|i: int| 0 <= i < s.len() ==> filter_accepts(f, #[trigger] s[i]),
    ensures
        accepted(f, s) == s,
    decreases s.len(),
{
    if s.len() > 0 {
        lemma_accepted_keeps_passing(f, s.drop_last());
        assert(s.drop_last() + seq![s.last()] =~= s);
    } else {
        assert(s =~= Seq::<EventModel>::empty());
    }
}

/// Filtering twice with the same filter gives what filtering once gives.
pub proof fn lemma_filter_idempotent(f: EventFilter, s: Seq<EventModel>)
    ensures
        accepted(f, accepted(f, s)) == accepted(f, s),
{
    lemma_accepted_all_pass(f, s);
    lemma_accepted_keeps_passing(f, accepted(f, s));
}

/// A filter that sets no criterion keeps every event.
pub proof fn lemma_empty_filter_keeps_all(f: EventFilter, s: Seq<EventModel>)
    requires
        f.event is None,
        f.level is None,
        f.trace_id is None,
    ensures
        accepted(f, s) == s,
{
    lemma_accepted_keeps_passing(f, s);
}

proof fn lemma_escape_without_newlines(t: Seq<char>)
    requires
        forall|i: int| 0 <= i < t.len() ==> t[i] != '\n',
    ensures
        escape_newlines(t) == t,
    decreases t.len(),
{
    if t.len() > 0 {
        lemma_escape_without_newlines(t.drop_last());
        assert(t.drop_last() + seq![t.last()] =~= t);
    } else {
        assert(t =~= Seq::<char>::empty());
    }
}

/// A preview of a text without newlines is at most 240 characters and an
/// ellipsis.
pub proof fn lemma_preview_bounded(t: Seq<char>)
    requires
        forall|i: int| 0 <= i < t.len() ==> t[i] != '\n',
    ensures
        preview_of_text(t).len() <= 241,
        t.len() <= 240 ==> preview_of_text(t) == t,
{
    if t.len() <= 240 {
        lemma_escape_without_newlines(t);
    } else {
        let u = t.take(240).push('\u{2026}');
        assert forall|i: int| 0 <= i < u.len() implies u[i] != '\n' by {
            if i < 240 {
                assert(u[i] == t[i]);
            }
        }
        lemma_escape_without_newlines(u);
    }
}

/// Every repair prompt opens with the same header, whose last section is
/// "Failure Evidence", and closes with the same guidance, "Safe Commands To
/// Try" among it.
pub proof fn lemma_prompt_frame(s: Seq<EventModel>)
    ensures
        repair_prompt_text(s).len() >= header_text().len() + footer_text().len(),
        repair_prompt_text(s).take(header_text().len() as int) == header_text(),
        repair_prompt_text(s).skip(repair_prompt_text(s).len() - footer_text().len())
            == footer_text(),
{
    let body = evidence_section(s) + "\n## Repository Context\n\n"@ + repo_section(s)
        + "\n## Recent Command Results\n\n"@ + lines_text(
        Pick::CommandEnd,
        last_n(picked(s, Pick::CommandEnd), 5),
    );
    let p = repair_prompt_text(s);
    assert(p =~= header_text() + body + footer_text());
    assert(p.take(header_text().len() as int) =~= header_text());
    assert(p.skip(p.len() - footer_text().len()) =~= footer_text());
}

/// The prompt lists at most ten failures and at most five command results.
pub proof fn lemma_prompt_listing_bounds(s: Seq<EventModel>)
    ensures
        last_n(picked(s, Pick::Failure), 10).len() <= 10,
        last_n(picked(s, Pick::CommandEnd), 5).len() <= 5,
{
}


/// Two events that the prompt cannot tell apart: same sequence number,
/// name, level and body.
pub open spec fn same_evidence(a: EventModel, b: EventModel) -> bool {
    a.seq == b.seq && a.event == b.event && a.level == b.level && a.body == b.body
}

pub open spec fn same_evidence_all(s1: Seq<EventModel>, s2: Seq<EventModel>) -> bool {
    &&& s1.len() == s2.len()
    &&& forall|i: int| 0 <= i < s1.len() ==> #[trigger] same_evidence(s1[i], s2[i])
}

proof fn lemma_picked_same(s1: Seq<EventModel>, s2: Seq<EventModel>, k: Pick)
    requires
        same_evidence_all(s1, s2),
    ensures
        same_evidence_all(picked(s1, k), picked(s2, k)),
    decreases s1.len(),
{
    if s1.len() > 0 {
        let (d1, d2) = (s1.drop_last(), s2.drop_last());
        assert forall|i: int| 0 <= i < d1.len() implies #[trigger] same_evidence(d1[i], d2[i]) by {
            assert(same_evidence(s1[i], s2[i]));
        }
        lemma_picked_same(d1, d2, k);
        assert(same_evidence(s1[s1.len() - 1], s2[s2.len() - 1]));
        let (p1, p2) = (picked(d1, k), picked(d2, k));
        assert forall|i: int| 0 <= i < picked(s1, k).len() implies #[trigger] same_evidence(
            picked(s1, k)[i],
            picked(s2, k)[i],
        ) by {
            if i < p1.len() {
                assert(same_evidence(p1[i], p2[i]));
            }
        }
    }
}

proof fn lemma_lines_same(k: Pick, t1: Seq<EventModel>, t2: Seq<EventModel>)
    requires
        same_evidence_all(t1, t2),
    ensures
        lines_text(k, t1) == lines_text(k, t2),
    decreases t1.len(),
{
    if t1.len() > 0 {
        let (d1, d2) = (t1.drop_last(), t2.drop_last());
        assert forall|i: int| 0 <= i < d1.len() implies #[trigger] same_evidence(d1[i], d2[i]) by {
            assert(same_evidence(t1[i], t2[i]));
        }
        lemma_lines_same(k, d1, d2);
        assert(same_evidence(t1[t1.len() - 1], t2[t2.len() - 1]));
    }
}

proof fn lemma_last_n_same(t1: Seq<EventModel>, t2: Seq<EventModel>, n: nat)
    requires
        same_evidence_all(t1, t2),
    ensures
        same_evidence_all(last_n(t1, n), last_n(t2, n)),
{
    if t1.len() > n {
        let off = t1.len() - n;
        assert forall|i: int| 0 <= i < last_n(t1, n).len() implies #[trigger] same_evidence(
            last_n(t1, n)[i],
            last_n(t2, n)[i],
        ) by {
            assert(same_evidence(t1[off + i], t2[off + i]));
        }
    }
}

proof fn lemma_snapshot_same(s1: Seq<EventModel>, s2: Seq<EventModel>)
    requires
        same_evidence_all(s1, s2),
    ensures
        repo_section(s1) == repo_section(s2),
    decreases s1.len(),
{
    if s1.len() > 0 {
        assert(same_evidence(s1[s1.len() - 1], s2[s2.len() - 1]));
        if s1.last().event != "repo.snapshot"@ {
            let (d1, d2) = (s1.drop_last(), s2.drop_last());
            assert forall|i: int| 0 <= i < d1.len() implies #[trigger] same_evidence(d1[i], d2[i]) by {
                assert(same_evidence(s1[i], s2[i]));
            }
            lemma_snapshot_same(d1, d2);
        }
    }
}

/// The prompt reads of each event only its sequence number, name, level and
/// body: two trails that agree on these, event by event, give the same
/// prompt.
pub proof fn lemma_prompt_reads_only_evidence(s1: Seq<EventModel>, s2: Seq<EventModel>)
    requires
        same_evidence_all(s1, s2),
    ensures
        repair_prompt_text(s1) == repair_prompt_text(s2),
{
    lemma_picked_same(s1, s2, Pick::Failure);
    lemma_picked_same(s1, s2, Pick::CommandEnd);
    lemma_last_n_same(picked(s1, Pick::Failure), picked(s2, Pick::Failure), 10);
    lemma_last_n_same(picked(s1, Pick::CommandEnd), picked(s2, Pick::CommandEnd), 5);
    lemma_lines_same(
        Pick::Failure,
        last_n(picked(s1, Pick::Failure), 10),
        last_n(picked(s2, Pick::Failure), 10),
    );
    lemma_lines_same(
        Pick::CommandEnd,
        last_n(picked(s1, Pick::CommandEnd), 5),
        last_n(picked(s2, Pick::CommandEnd), 5),
    );
    lemma_snapshot_same(s1, s2);
}


/// A filter keeps an event exactly when the event has the filter's name (if
/// it sets one), the filter's level (if it sets one) and the filter's trace
/// id (if it sets one): an event of another trace, or of none, is dropped.
pub proof fn lemma_filter_meaning(f: EventFilter, e: EventModel)
    ensures
        filter_accepts(f, e) <==> {
            &&& (f.event matches Some(name) ==> e.event == name@)
            &&& (f.level matches Some(level) ==> e.level == level)
            &&& (f.trace_id matches Some(t) ==> e.trace_id == Some(t@))
        },
{
}

/// Filtering keeps exactly the events that meet the filter's criteria, in
/// their order: it is the subsequence of those events.
pub proof fn lemma_filter_is_subsequence(f: EventFilter, s: Seq<EventModel>)
    ensures
        accepted(f, s) == s.filter(
            |e: EventModel|
                (f.event matches Some(name) ==> e.event == name@) && (f.level matches Some(level)
                    ==> e.level == level) && (f.trace_id matches Some(t) ==> e.trace_id == Some(
                    t@,
                )),
        ),
    decreases s.len(),
{
    reveal_with_fuel(Seq::filter, 1);
    if s.len() > 0 {
        lemma_filter_is_subsequence(f, s.drop_last());
    }
}

/// The kinds of events the prompt lists, stated directly: the command
/// results are exactly the events named `command.end`, and the failures are
/// exactly the warnings, the errors and the `command.end` events whose body
/// holds a non-zero integer `exit_code`; each list keeps trail order.
pub proof fn lemma_prompt_lists(s: Seq<EventModel>)
    ensures
        picked(s, Pick::CommandEnd) == s.filter(|e: EventModel| e.event == "command.end"@),
        picked(s, Pick::Failure) == s.filter(
            |e: EventModel|
                e.level == Level::Warn || e.level == Level::Error || (e.event == "command.end"@
                    && match json_member(e.body, "exit_code"@) {
                    Some(v) => match json_as_i64(v) {
                        Some(c) => c != 0,
                        None => false,
                    },
                    None => false,
                }),
        ),
    decreases s.len(),
{
    reveal_with_fuel(Seq::filter, 1);
    if s.len() > 0 {
        lemma_prompt_lists(s.drop_last());
    }
}

/// What the prompt takes of a list: its last `n` elements (all of them when
/// fewer), in order.
pub proof fn lemma_last_n_is_suffix(t: Seq<EventModel>, n: nat)
    ensures
        last_n(t, n).len() == if t.len() < n {
            t.len()
        } else {
            n
        },
        forall|i: int|
            0 <= i < last_n(t, n).len() ==> #[trigger] last_n(t, n)[i] == t[t.len() - last_n(
                t,
                n,
            ).len() + i],
{
}


/// The prompt's failure section lists the last ten failures (all of them
/// when fewer) and its command section the last five `command.end` events,
/// each in trail order and each as the line for that event.
pub proof fn lemma_prompt_sections(s: Seq<EventModel>)
    ensures
        ({
            let f = picked(s, Pick::Failure);
            let shown = if f.len() <= 10 {
                f
            } else {
                f.subrange(f.len() - 10, f.len() as int)
            };
            f.len() > 0 ==> evidence_section(s) == lines_text(Pick::Failure, shown)
        }),
        ({
            let c = picked(s, Pick::CommandEnd);
            let shown = if c.len() <= 5 {
                c
            } else {
                c.subrange(c.len() - 5, c.len() as int)
            };
            lines_text(Pick::CommandEnd, last_n(c, 5)) == lines_text(Pick::CommandEnd, shown)
        }),
        picked(s, Pick::Failure).len() == 0 ==> evidence_section(s)
            == "No warnings, errors, or failed command events were found. Inspect the summary and recent events before changing code.\n"@,
{
}

} // verus!
