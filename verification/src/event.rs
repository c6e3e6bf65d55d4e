//! The event envelope, how a new event is stamped, and how an event is
//! validated against schema v1.

use vstd::prelude::*;
use crate::json::{clone_entries, entry_models, JsonModel, JsonValue};
use crate::text::{blank, chars_of, decimal, is_blank, is_whitespace_char, push_decimal, push_str};

verus! {

/// Severity of an event.
#[derive(Clone, Copy, Debug, PartialEq, Eq, Structural)]
pub enum Level {
    Trace,
    Debug,
    Info,
    Warn,
    Error,
}

impl Default for Level {
    /// Events without a level are `info`.
    fn default() -> (r: Self)
        ensures
            r == Level::Info,
    {
        Level::Info
    }
}

/// The schema identifier that every event carries.
pub const SCHEMA: &'static str = "runtrail.v1";

/// One event of a trail.
#[derive(Debug)]
pub struct Event {
    pub schema: String,
    pub id: String,
    pub seq: u64,
    pub ts: String,
    pub event: String,
    pub level: Level,
    pub src: Option<String>,
    pub attrs: Vec<(String, JsonValue)>,
    pub body: JsonValue,
    pub trace_id: Option<String>,
    pub span_id: Option<String>,
    pub parent_span_id: Option<String>,
    pub duration_ms: Option<u64>,
}

/// What a caller supplies for a new event; the rest is stamped.
#[derive(Debug)]
pub struct NewEvent {
    pub seq: u64,
    pub event: String,
    pub level: Level,
    pub src: Option<String>,
    pub attrs: Vec<(String, JsonValue)>,
    pub body: JsonValue,
    pub trace_id: Option<String>,
    pub span_id: Option<String>,
    pub parent_span_id: Option<String>,
    pub duration_ms: Option<u64>,
}

/// The mathematical model of an event.
pub struct EventModel {
    pub schema: Seq<char>,
    pub id: Seq<char>,
    pub seq: u64,
    pub ts: Seq<char>,
    pub event: Seq<char>,
    pub level: Level,
    pub src: Option<Seq<char>>,
    pub attrs: Seq<(Seq<char>, JsonModel)>,
    pub body: JsonModel,
    pub trace_id: Option<Seq<char>>,
    pub span_id: Option<Seq<char>>,
    pub parent_span_id: Option<Seq<char>>,
    pub duration_ms: Option<u64>,
}

impl View for Event {
    type V = EventModel;

    open spec fn view(&self) -> EventModel {
        EventModel {
            schema: self.schema@,
            id: self.id@,
            seq: self.seq,
            ts: self.ts@,
            event: self.event@,
            level: self.level,
            src: self.src.deep_view(),
            attrs: entry_models(self.attrs@),
            body: self.body@,
            trace_id: self.trace_id.deep_view(),
            span_id: self.span_id.deep_view(),
            parent_span_id: self.parent_span_id.deep_view(),
            duration_ms: self.duration_ms,
        }
    }
}

/// The characters of the Crockford base-32 alphabet that ULIDs are written in.
pub open spec fn is_crockford_char(c: char) -> bool {
    ||| '0' <= c <= '9'
    ||| 'A' <= c <= 'H'
    ||| c == 'J' || c == 'K' || c == 'M' || c == 'N'
    ||| 'P' <= c <= 'T'
    ||| 'V' <= c <= 'Z'
}

/// The text form of a ULID: 26 Crockford base-32 characters.
pub open spec fn is_ulid_text(s: Seq<char>) -> bool {
    &&& s.len() == 26
    &&& forall|i: int| 0 <= i < s.len() ==> #[trigger] is_crockford_char(s[i])
}

/// `ulid::Ulid::new().to_string()`: a fresh ULID (from the clock and a random
/// source), written as 26 characters of the Crockford alphabet. Which ULID
/// comes back is left unsaid.
#[verifier::external_body]
fn new_ulid_text() -> (r: String)
    ensures
        is_ulid_text(r@),
{
    ulid::Ulid::new().to_string()
}

/// RFC 3339 text of a UTC time: `YYYY-MM-DDTHH:MM:SS`, an optional
/// fraction, and the zone designator `Z`.
pub open spec fn is_utc_text(ts: Seq<char>) -> bool {
    &&& ts.len() >= 20
    &&& ts[ts.len() - 1] == 'Z'
}

/// `time::OffsetDateTime::now_utc().format(&Rfc3339)`: the current UTC time
/// as RFC 3339 text, `YYYY-MM-DDTHH:MM:SS[.fraction]Z`, which the RFC 3339
/// parser of the same crate accepts. Which time it is stays unsaid: it
/// depends on the clock. The formatting fails, and the call panics, only for
/// a clock outside the years 0 to 9999.
#[verifier::external_body]
fn now_rfc3339() -> (r: String)
    ensures
        rfc3339_parse_error(r@) is None,
        is_utc_text(r@),
{
    time::OffsetDateTime::now_utc().format(&time::format_description::well_known::Rfc3339).expect(
        "RFC3339 formatting never fails",
    )
}

/// What `time::OffsetDateTime::parse(ts, &Rfc3339)` reports on `ts`:
/// `None` when it parses, otherwise the error's display text.
pub uninterp spec fn rfc3339_parse_error(ts: Seq<char>) -> Option<Seq<char>>;

/// `time::OffsetDateTime::parse` with the RFC 3339 description; the result
/// is named by `rfc3339_parse_error`.
#[verifier::external_body]
fn check_rfc3339(ts: &str) -> (r: Option<String>)
    ensures
        match r {
            None => rfc3339_parse_error(ts@) is None,
            Some(m) => rfc3339_parse_error(ts@) == Some(m@),
        },
{
    match time::OffsetDateTime::parse(ts, &time::format_description::well_known::Rfc3339) {
        Ok(_) => None,
        Err(err) => Some(err.to_string()),
    }
}

impl Event {
    /// Stamps a new event: the schema identifier, a fresh ULID and the
    /// current time as RFC 3339 text; every other field is taken from
    /// `input`.
    pub fn new(input: NewEvent) -> (r: Event)
        ensures
            r@.schema == SCHEMA@,
            is_ulid_text(r@.id),
            rfc3339_parse_error(r@.ts) is None,
            is_utc_text(r@.ts),
            r@.seq == input.seq,
            r@.event == input.event@,
            r@.level == input.level,
            r@.src == input.src.deep_view(),
            r@.attrs == entry_models(input.attrs@),
            r@.body == input.body@,
            r@.trace_id == input.trace_id.deep_view(),
            r@.span_id == input.span_id.deep_view(),
            r@.parent_span_id == input.parent_span_id.deep_view(),
            r@.duration_ms == input.duration_ms,
    {
        Event {
            schema: String::from_str(SCHEMA),
            id: new_ulid_text(),
            seq: input.seq,
            ts: now_rfc3339(),
            event: input.event,
            level: input.level,
            src: input.src,
            attrs: input.attrs,
            body: input.body,
            trace_id: input.trace_id,
            span_id: input.span_id,
            parent_span_id: input.parent_span_id,
            duration_ms: input.duration_ms,
        }
    }
}


/// A lowercase hexadecimal digit: what `is_ascii_hexdigit() &&
/// !is_ascii_uppercase()` accepts.
pub open spec fn is_lower_hex_char(c: char) -> bool {
    ('0' <= c <= '9') || ('a' <= c <= 'f')
}

/// The complaint about an identifier that must be `len` lowercase hex
/// characters, or `None` when it is.
pub open spec fn hex_field_error(value: Seq<char>, len: nat, field: Seq<char>) -> Option<
    Seq<char>,
> {
    if value.len() == len && forall|i: int|
        0 <= i < value.len() ==> #[trigger] is_lower_hex_char(value[i]) {
        None
    } else {
        Some(field + " must be "@ + decimal(len) + " lowercase hex characters"@)
    }
}

pub open spec fn optional_hex_error(value: Option<Seq<char>>, len: nat, field: Seq<char>) -> Option<
    Seq<char>,
> {
    match value {
        Some(v) => hex_field_error(v, len, field),
        None => None,
    }
}

/// The first rule of schema v1 that `e` breaks, as the message that
/// validation reports, or `None` when `e` is valid. The rules are checked in
/// this order: schema, id, seq, event name, timestamp, trace id, span id,
/// parent span id.
pub open spec fn validation_error(e: EventModel) -> Option<Seq<char>> {
    if e.schema != SCHEMA@ {
        Some("unsupported schema "@ + e.schema)
    } else if is_blank(e.id) {
        Some("id is required"@)
    } else if e.seq == 0 {
        Some("seq must be a positive integer"@)
    } else if is_blank(e.event) {
        Some("event is required"@)
    } else if rfc3339_parse_error(e.ts) is Some {
        Some("invalid ts: "@ + rfc3339_parse_error(e.ts)->0)
    } else if optional_hex_error(e.trace_id, 32, "trace_id"@) is Some {
        optional_hex_error(e.trace_id, 32, "trace_id"@)
    } else if optional_hex_error(e.span_id, 16, "span_id"@) is Some {
        optional_hex_error(e.span_id, 16, "span_id"@)
    } else {
        optional_hex_error(e.parent_span_id, 16, "parent_span_id"@)
    }
}

/// Checks that `value` is exactly `len` lowercase hex characters; the error
/// names `field`.
pub fn validate_hex(value: &str, len: usize, field: &str) -> (r: Result<(), String>)
    ensures
        match r {
            Ok(()) => hex_field_error(value@, len as nat, field@) is None,
            Err(m) => hex_field_error(value@, len as nat, field@) == Some(m@),
        },
        r is Ok <==> (value@.len() == len && forall|i: int|
            0 <= i < value@.len() ==> ('0' <= #[trigger] value@[i] <= '9') || ('a' <= value@[i]
                <= 'f')),
{
    let cs = chars_of(value);
    let mut ok = cs.len() == len;
    let mut i: usize = 0;
    while i < cs.len()
        invariant
            i <= cs.len(),
            cs@ == value@,
            ok == (cs.len() == len && forall|j: int|
                0 <= j < i ==> #[trigger] is_lower_hex_char(cs@[j])),
        decreases cs.len() - i,
    {
        let c = cs[i];
        let hex = ('0' <= c && c <= '9') || ('a' <= c && c <= 'f');
        assert(is_lower_hex_char(cs@[i as int]) == hex);
        if !hex {
            ok = false;
        }
        i = i + 1;
    }
    proof {
        lemma_hex_field_meaning(value@, len as nat, field@);
    }
    if ok {
        Ok(())
    } else {
        let mut m = String::new();
        push_str(&mut m, field);
        push_str(&mut m, " must be ");
        push_decimal(&mut m, len as u64);
        push_str(&mut m, " lowercase hex characters");
        Err(m)
    }
}

fn validate_optional_hex(value: &Option<String>, len: usize, field: &str) -> (r: Result<
    (),
    String,
>)
    ensures
        match r {
            Ok(()) => optional_hex_error(value.deep_view(), len as nat, field@) is None,
            Err(m) => optional_hex_error(value.deep_view(), len as nat, field@) == Some(m@),
        },
{
    match value {
        Some(v) => validate_hex(v.as_str(), len, field),
        None => Ok(()),
    }
}

impl Event {
    /// Checks the event against schema v1 and reports the first broken rule.
    pub fn validate(&self) -> (r: Result<(), String>)
        ensures
            match r {
                Ok(()) => validation_error(self@) is None,
                Err(m) => validation_error(self@) == Some(m@),
            },
            r is Ok ==> {
                &&& self.seq > 0
                &&& (self.trace_id matches Some(t) ==> t@.len() == 32)
                &&& (self.span_id matches Some(t) ==> t@.len() == 16)
                &&& (self.parent_span_id matches Some(t) ==> t@.len() == 16)
            },
    {
        if self.schema != String::from_str(SCHEMA) {
            let mut m = String::new();
            push_str(&mut m, "unsupported schema ");
            push_str(&mut m, self.schema.as_str());
            return Err(m);
        }
        if blank(self.id.as_str()) {
            return Err(String::from_str("id is required"));
        }
        if self.seq == 0 {
            return Err(String::from_str("seq must be a positive integer"));
        }
        if blank(self.event.as_str()) {
            return Err(String::from_str("event is required"));
        }
        match check_rfc3339(self.ts.as_str()) {
            Some(err) => {
                let mut m = String::new();
                push_str(&mut m, "invalid ts: ");
                push_str(&mut m, err.as_str());
                return Err(m);
            },
            None => {},
        }
        validate_optional_hex(&self.trace_id, 32, "trace_id")?;
        validate_optional_hex(&self.span_id, 16, "span_id")?;
        validate_optional_hex(&self.parent_span_id, 16, "parent_span_id")?;
        Ok(())
    }
}


/// A copy of an optional text.
pub fn copy_text(o: &Option<String>) -> (r: Option<String>)
    ensures
        r.deep_view() == o.deep_view(),
{
    match o {
        Some(s) => Some(s.clone()),
        None => None,
    }
}

impl Clone for Event {
    fn clone(&self) -> (r: Self)
        ensures
            r@ == self@,
    {
        Event {
            schema: self.schema.clone(),
            id: self.id.clone(),
            seq: self.seq,
            ts: self.ts.clone(),
            event: self.event.clone(),
            level: self.level,
            src: copy_text(&self.src),
            attrs: clone_entries(&self.attrs),
            body: self.body.clone(),
            trace_id: copy_text(&self.trace_id),
            span_id: copy_text(&self.span_id),
            parent_span_id: copy_text(&self.parent_span_id),
            duration_ms: self.duration_ms,
        }
    }
}

/// The models of a list of events.
pub open spec fn event_models(s: Seq<Event>) -> Seq<EventModel> {
    s.map_values(|e: Event| e@)
}


/// The rules that a caller's input can break, in the order validation
/// checks them: sequence number, event name, trace id, span id, parent span
/// id.
pub open spec fn input_error(e: EventModel) -> Option<Seq<char>> {
    if e.seq == 0 {
        Some("seq must be a positive integer"@)
    } else if is_blank(e.event) {
        Some("event is required"@)
    } else if optional_hex_error(e.trace_id, 32, "trace_id"@) is Some {
        optional_hex_error(e.trace_id, 32, "trace_id"@)
    } else if optional_hex_error(e.span_id, 16, "span_id"@) is Some {
        optional_hex_error(e.span_id, 16, "span_id"@)
    } else {
        optional_hex_error(e.parent_span_id, 16, "parent_span_id"@)
    }
}

/// Stamping never breaks the schema, id or timestamp rule: a stamped event
/// (schema identifier, ULID id, RFC 3339 timestamp) is reported exactly as
/// its caller-supplied fields are; in particular it is valid exactly when
/// its sequence number is positive, its name is not blank and its trace and
/// span ids are well-formed.
pub proof fn lemma_stamped_event_validation(e: EventModel)
    requires
        e.schema == SCHEMA@,
        is_ulid_text(e.id),
        rfc3339_parse_error(e.ts) is None,
    ensures
        validation_error(e) == input_error(e),
{
    assert(is_crockford_char(e.id[0]));
    assert(!is_whitespace_char(e.id[0]));
    assert(!is_blank(e.id));
}


/// An identifier passes exactly when it has the required number of
/// characters, no more and no fewer, each a digit or a lowercase `a`–`f`.
pub proof fn lemma_hex_field_meaning(value: Seq<char>, len: nat, field: Seq<char>)
    ensures
        hex_field_error(value, len, field) is None <==> (value.len() == len && forall|i: int|
            0 <= i < value.len() ==> ('0' <= #[trigger] value[i] <= '9') || ('a' <= value[i]
                <= 'f')),
{
    if hex_field_error(value, len, field) is None {
        assert forall|i: int| 0 <= i < value.len() implies ('0' <= #[trigger] value[i] <= '9') || (
        'a' <= value[i] <= 'f') by {
            assert(is_lower_hex_char(value[i]));
        }
    }
    if value.len() == len && forall|i: int|
        0 <= i < value.len() ==> ('0' <= #[trigger] value[i] <= '9') || ('a' <= value[i] <= 'f') {
        assert forall|i: int| 0 <= i < value.len() implies #[trigger] is_lower_hex_char(value[i]) by {
            assert(('0' <= value[i] <= '9') || ('a' <= value[i] <= 'f'));
        }
    }
}

/// An event is valid exactly when it has the schema identifier, a non-blank
/// id and name, a positive sequence number, a timestamp that parses, a trace
/// id of exactly 32 lowercase hex characters and span ids of exactly 16,
/// where present.
pub proof fn lemma_valid_event_meaning(e: EventModel)
    ensures
        validation_error(e) is None <==> {
            &&& e.schema == SCHEMA@
            &&& !is_blank(e.id)
            &&& e.seq > 0
            &&& !is_blank(e.event)
            &&& rfc3339_parse_error(e.ts) is None
            &&& (e.trace_id matches Some(t) ==> t.len() == 32 && forall|i: int|
                0 <= i < t.len() ==> #[trigger] is_lower_hex_char(t[i]))
            &&& (e.span_id matches Some(t) ==> t.len() == 16 && forall|i: int|
                0 <= i < t.len() ==> #[trigger] is_lower_hex_char(t[i]))
            &&& (e.parent_span_id matches Some(t) ==> t.len() == 16 && forall|i: int|
                0 <= i < t.len() ==> #[trigger] is_lower_hex_char(t[i]))
        },
{
}

} // verus!
