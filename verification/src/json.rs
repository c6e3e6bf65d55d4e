//! JSON values as the library holds them, their compact text, and the few
//! lookups that the repair prompt makes on event bodies.

use vstd::prelude::*;
use crate::text::{text_less, str_eq, push_char, push_decimal, push_signed_decimal, push_str, signed_decimal};

verus! {

/// A JSON number: a non-negative or a negative integer, or any other number
/// kept as the text that renders it.
#[derive(Debug)]
pub enum JsonNumber {
    PosInt(u64),
    NegInt(i64),
    Float(String),
}

/// A JSON value. Object members keep their order; lookups take the first
/// member with a given key. Values read from JSON text have the keys of each
/// object in increasing order, each once (`json_wf`).
#[derive(Debug)]
pub enum JsonValue {
    Null,
    Bool(bool),
    Number(JsonNumber),
    String(String),
    Array(Vec<JsonValue>),
    Object(Vec<(String, JsonValue)>),
}

/// The mathematical model of a JSON value.
pub enum JsonModel {
    Null,
    Bool(bool),
    Int(int),
    Float(Seq<char>),
    Str(Seq<char>),
    Array(Seq<JsonModel>),
    Object(Seq<(Seq<char>, JsonModel)>),
}

pub open spec fn json_model(v: JsonValue) -> JsonModel
    decreases v,
{
    match v {
        JsonValue::Null => JsonModel::Null,
        JsonValue::Bool(b) => JsonModel::Bool(b),
        JsonValue::Number(JsonNumber::PosInt(n)) => JsonModel::Int(n as int),
        JsonValue::Number(JsonNumber::NegInt(n)) => JsonModel::Int(n as int),
        JsonValue::Number(JsonNumber::Float(t)) => JsonModel::Float(t@),
        JsonValue::String(s) => JsonModel::Str(s@),
        JsonValue::Array(items) => JsonModel::Array(models_of(items@)),
        JsonValue::Object(entries) => JsonModel::Object(entry_models(entries@)),
    }
}

pub open spec fn models_of(s: Seq<JsonValue>) -> Seq<JsonModel>
    decreases s,
{
    if s.len() == 0 {
        Seq::empty()
    } else {
        models_of(s.drop_last()).push(json_model(s.last()))
    }
}

pub open spec fn entry_models(s: Seq<(String, JsonValue)>) -> Seq<(Seq<char>, JsonModel)>
    decreases s,
{
    if s.len() == 0 {
        Seq::empty()
    } else {
        entry_models(s.drop_last()).push((s.last().0@, json_model(s.last().1)))
    }
}

impl View for JsonValue {
    type V = JsonModel;

    open spec fn view(&self) -> JsonModel {
        json_model(*self)
    }
}


pub proof fn lemma_models_of(s: Seq<JsonValue>)
    ensures
        models_of(s).len() == s.len(),
        forall|i: int| 0 <= i < s.len() ==> #[trigger] models_of(s)[i] == json_model(s[i]),
    decreases s.len(),
{
    if s.len() > 0 {
        lemma_models_of(s.drop_last());
    }
}

pub proof fn lemma_entry_models(s: Seq<(String, JsonValue)>)
    ensures
        entry_models(s).len() == s.len(),
        forall|i: int|
            0 <= i < s.len() ==> #[trigger] entry_models(s)[i] == (s[i].0@, json_model(s[i].1)),
    decreases s.len(),
{
    if s.len() > 0 {
        lemma_entry_models(s.drop_last());
    }
}

/// A hexadecimal digit as `serde_json` writes it in `\u00xx`: lowercase.
pub open spec fn hex_digit_char(d: nat) -> char {
    if d < 10 {
        (d + 48) as char
    } else {
        (d + 87) as char
    }
}

/// How `serde_json` writes one character inside a string literal: `"` and
/// `\` behind a backslash; backspace, tab, newline, form feed and carriage
/// return as `\b` `\t` `\n` `\f` `\r`; every other character below 0x20 as
/// `\u00` and two lowercase hex digits; anything else as it is.
pub open spec fn escape_char(c: char) -> Seq<char> {
    let u = c as u32;
    if c == '"' {
        seq!['\\', '"']
    } else if c == '\\' {
        seq!['\\', '\\']
    } else if u == 0x08 {
        seq!['\\', 'b']
    } else if u == 0x09 {
        seq!['\\', 't']
    } else if u == 0x0a {
        seq!['\\', 'n']
    } else if u == 0x0c {
        seq!['\\', 'f']
    } else if u == 0x0d {
        seq!['\\', 'r']
    } else if u < 0x20 {
        seq!['\\', 'u', '0', '0', hex_digit_char((u / 16) as nat), hex_digit_char((u % 16) as nat)]
    } else {
        seq![c]
    }
}

/// The characters of a text, each escaped.
pub open spec fn escape_text(s: Seq<char>) -> Seq<char>
    decreases s.len(),
{
    if s.len() == 0 {
        Seq::empty()
    } else {
        escape_text(s.drop_last()) + escape_char(s.last())
    }
}

/// What `serde_json` writes for a string: the escaped text between quotes.
pub open spec fn json_string_literal(s: Seq<char>) -> Seq<char> {
    seq!['"'] + escape_text(s) + seq!['"']
}

/// `serde_json::to_string` on a string slice: the quoted, escaped literal.
/// Serializing a `str` into memory cannot fail.
#[verifier::external_body]
pub fn json_quote(s: &str) -> (r: String)
    ensures
        r@ == json_string_literal(s@),
{
    serde_json::to_string(s).unwrap_or_default()
}

/// Whether the keys of a list of members are in strictly increasing order,
/// so that no key occurs twice.
pub open spec fn keys_ordered(entries: Seq<(Seq<char>, JsonModel)>) -> bool {
    forall|i: int, j: int|
        0 <= i < j < entries.len() ==> text_less(#[trigger] entries[i].0, #[trigger] entries[j].0)
}

/// Whether every object within `v` has its keys in strictly increasing
/// order: the form of the values that `serde_json` reads, whose objects are
/// ordered maps.
pub open spec fn json_wf(v: JsonModel) -> bool
    decreases v,
{
    match v {
        JsonModel::Array(items) => items_wf(items),
        JsonModel::Object(entries) => keys_ordered(entries) && entries_wf(entries),
        _ => true,
    }
}

pub open spec fn items_wf(items: Seq<JsonModel>) -> bool
    decreases items,
{
    if items.len() == 0 {
        true
    } else {
        items_wf(items.drop_last()) && json_wf(items.last())
    }
}

pub open spec fn entries_wf(entries: Seq<(Seq<char>, JsonModel)>) -> bool
    decreases entries,
{
    if entries.len() == 0 {
        true
    } else {
        entries_wf(entries.drop_last()) && json_wf(entries.last().1)
    }
}

/// What `serde_json::from_str::<serde_json::Value>` reads from a text:
/// `None` when the text is not JSON.
pub uninterp spec fn json_parse(text: Seq<char>) -> Option<JsonModel>;

#[verifier::external_type_specification]
#[verifier::external_body]
pub struct ExSerdeJsonValue(serde_json::Value);

#[verifier::external_type_specification]
#[verifier::external_body]
pub struct ExSerdeJsonNumber(serde_json::Number);

/// Turns a `serde_json::Number` into the library's number: one that fits a
/// `u64` as `PosInt`, another integer as `NegInt`, any other as its display
/// text.
#[verifier::external_body]
fn number_from_serde(n: serde_json::Number) -> JsonNumber {
    match (n.as_u64(), n.as_i64()) {
        (Some(u), _) => JsonNumber::PosInt(u),
        (None, Some(i)) => JsonNumber::NegInt(i),
        (None, None) => JsonNumber::Float(n.to_string()),
    }
}

/// Turns a `serde_json::Value` into the library's value, variant for
/// variant, object members in the map's order.
#[verifier::external_body]
fn json_from_serde(v: serde_json::Value) -> JsonValue {
    match v {
        serde_json::Value::Null => JsonValue::Null,
        serde_json::Value::Bool(b) => JsonValue::Bool(b),
        serde_json::Value::Number(n) => JsonValue::Number(number_from_serde(n)),
        serde_json::Value::String(s) => JsonValue::String(s),
        serde_json::Value::Array(a) => JsonValue::Array(a.into_iter().map(json_from_serde).collect()),
        serde_json::Value::Object(m) => JsonValue::Object(
            m.into_iter().map(|(k, x)| (k, json_from_serde(x))).collect(),
        ),
    }
}

/// `serde_json::from_str::<serde_json::Value>`: the value that `text` reads
/// as, named by `json_parse`, or `None` when it is not JSON. `serde_json`
/// keeps objects in an ordered map (`BTreeMap<String, Value>` without the
/// `preserve_order` feature), so the keys of every object come out in
/// increasing order, each once.
#[verifier::external_body]
pub(crate) fn parse_json(text: &str) -> (r: Option<JsonValue>)
    ensures
        match r {
            Some(v) => json_parse(text@) == Some(v@) && json_wf(v@),
            None => json_parse(text@) is None,
        },
{
    serde_json::from_str::<serde_json::Value>(text).ok().map(json_from_serde)
}

/// The compact JSON text of a value, as `serde_json`'s `Display` writes it:
/// no whitespace, members in order.
pub open spec fn json_text(v: JsonModel) -> Seq<char>
    decreases v,
{
    match v {
        JsonModel::Null => "null"@,
        JsonModel::Bool(b) => if b {
            "true"@
        } else {
            "false"@
        },
        JsonModel::Int(n) => signed_decimal(n),
        JsonModel::Float(t) => t,
        JsonModel::Str(s) => json_string_literal(s),
        JsonModel::Array(items) => seq!['['] + items_text(items) + seq![']'],
        JsonModel::Object(entries) => seq!['{'] + entries_text(entries) + seq!['}'],
    }
}

/// The elements of an array, separated by commas.
pub open spec fn items_text(items: Seq<JsonModel>) -> Seq<char>
    decreases items,
{
    if items.len() == 0 {
        Seq::empty()
    } else {
        items_text(items.drop_last()) + (if items.len() > 1 {
            seq![',']
        } else {
            Seq::empty()
        }) + json_text(items.last())
    }
}

/// The members of an object, `"key":value`, separated by commas.
pub open spec fn entries_text(entries: Seq<(Seq<char>, JsonModel)>) -> Seq<char>
    decreases entries,
{
    if entries.len() == 0 {
        Seq::empty()
    } else {
        entries_text(entries.drop_last()) + (if entries.len() > 1 {
            seq![',']
        } else {
            Seq::empty()
        }) + json_string_literal(entries.last().0) + seq![':'] + json_text(entries.last().1)
    }
}

/// The member of an object under `key` (the first such), as `Value::get`.
pub open spec fn json_member(v: JsonModel, key: Seq<char>) -> Option<JsonModel> {
    match v {
        JsonModel::Object(entries) => find_entry(entries, key),
        _ => None,
    }
}

pub open spec fn find_entry(entries: Seq<(Seq<char>, JsonModel)>, key: Seq<char>) -> Option<
    JsonModel,
>
    decreases entries.len(),
{
    if entries.len() == 0 {
        None
    } else if entries[0].0 == key {
        Some(entries[0].1)
    } else {
        find_entry(entries.drop_first(), key)
    }
}

/// The value as a signed 64-bit integer, as `Value::as_i64`.
pub open spec fn json_as_i64(v: JsonModel) -> Option<int> {
    match v {
        JsonModel::Int(n) => if i64::MIN <= n <= i64::MAX {
            Some(n)
        } else {
            None
        },
        _ => None,
    }
}

/// Appends the compact JSON text of `v`.
pub fn write_json(out: &mut String, v: &JsonValue)
    ensures
        final(out)@ == old(out)@ + json_text(v@),
    decreases v,
{
    match v {
        JsonValue::Null => push_str(out, "null"),
        JsonValue::Bool(b) => {
            if *b {
                push_str(out, "true");
            } else {
                push_str(out, "false");
            }
        },
        JsonValue::Number(JsonNumber::PosInt(n)) => push_decimal(out, *n),
        JsonValue::Number(JsonNumber::NegInt(n)) => push_signed_decimal(out, *n),
        JsonValue::Number(JsonNumber::Float(t)) => push_str(out, t.as_str()),
        JsonValue::String(s) => {
            let q = json_quote(s.as_str());
            push_str(out, q.as_str());
        },
        JsonValue::Array(items) => {
            proof {
                lemma_models_of(items@);
            }
            let ghost start = out@;
            let ghost ms = models_of(items@);
            push_char(out, '[');
            let mut i: usize = 0;
            while i < items.len()
                invariant
                    i <= items.len(),
                    *v == JsonValue::Array(*items),
                    ms == models_of(items@),
                    ms.len() == items.len(),
                    forall|j: int| 0 <= j < items.len() ==> #[trigger] ms[j] == json_model(items@[j]),
                    out@ == start + seq!['['] + items_text(ms.take(i as int)),
                decreases items.len() - i,
            {
                if i > 0 {
                    push_char(out, ',');
                }
                assert(decreases_to!(*items => items[i as int]));
                assert(decreases_to!(*v => (*v)->Array_0));
                assert(decreases_to!(*v => items[i as int]));
                write_json(out, &items[i]);
                assert(ms.take(i + 1).drop_last() =~= ms.take(i as int));
                i = i + 1;
            }
            push_char(out, ']');
            assert(ms.take(items.len() as int) =~= ms);
        },
        JsonValue::Object(entries) => {
            proof {
                lemma_entry_models(entries@);
            }
            let ghost start = out@;
            let ghost ms = entry_models(entries@);
            push_char(out, '{');
            let mut i: usize = 0;
            while i < entries.len()
                invariant
                    i <= entries.len(),
                    *v == JsonValue::Object(*entries),
                    ms == entry_models(entries@),
                    ms.len() == entries.len(),
                    forall|j: int|
                        0 <= j < entries.len() ==> #[trigger] ms[j] == (
                        entries@[j].0@,
                        json_model(entries@[j].1),
                    ),
                    out@ == start + seq!['{'] + entries_text(ms.take(i as int)),
                decreases entries.len() - i,
            {
                if i > 0 {
                    push_char(out, ',');
                }
                let entry = &entries[i];
                let q = json_quote(entry.0.as_str());
                push_str(out, q.as_str());
                push_char(out, ':');
                assert(decreases_to!(*entries => entries[i as int]));
                assert(decreases_to!(*v => (*v)->Object_0));
                assert(decreases_to!(entries[i as int] => entries[i as int].1));
                write_json(out, &entry.1);
                assert(ms.take(i + 1).drop_last() =~= ms.take(i as int));
                i = i + 1;
            }
            push_char(out, '}');
            assert(ms.take(entries.len() as int) =~= ms);
        },
    }
}

/// The compact JSON text of `v`, as `v.to_string()`.
pub fn to_json_text(v: &JsonValue) -> (r: String)
    ensures
        r@ == json_text(v@),
{
    let mut r = String::new();
    write_json(&mut r, v);
    r
}


pub proof fn lemma_find_entry_skip(entries: Seq<(Seq<char>, JsonModel)>, key: Seq<char>, i: int)
    requires
        0 <= i < entries.len(),
        entries[i].0 != key,
    ensures
        find_entry(entries.skip(i), key) == find_entry(entries.skip(i + 1), key),
{
    assert(entries.skip(i).drop_first() =~= entries.skip(i + 1));
}

impl JsonValue {
    /// The member under `key` of an object, as `Value::get`.
    pub fn get(&self, key: &str) -> (r: Option<&JsonValue>)
        ensures
            match r {
                Some(x) => json_member(self@, key@) == Some(x@),
                None => json_member(self@, key@) is None,
            },
    {
        match self {
            JsonValue::Object(entries) => {
                proof {
                    lemma_entry_models(entries@);
                }
                let ghost ms = entry_models(entries@);
                assert(ms.skip(0) =~= ms);
                let mut i: usize = 0;
                while i < entries.len()
                    invariant
                        i <= entries.len(),
                        *self == JsonValue::Object(*entries),
                        ms == entry_models(entries@),
                        ms.len() == entries.len(),
                        forall|j: int|
                            0 <= j < entries.len() ==> #[trigger] ms[j] == (
                            entries@[j].0@,
                            json_model(entries@[j].1),
                        ),
                        find_entry(ms, key@) == find_entry(ms.skip(i as int), key@),
                    decreases entries.len() - i,
                {
                    assert(ms.skip(i as int)[0] == ms[i as int]);
                    if str_eq(entries[i].0.as_str(), key) {
                        return Some(&entries[i].1);
                    }
                    proof {
                        lemma_find_entry_skip(ms, key@, i as int);
                    }
                    i = i + 1;
                }
                assert(ms.skip(i as int).len() == 0);
                None
            },
            _ => None,
        }
    }

    /// The value as a signed 64-bit integer, as `Value::as_i64`.
    pub fn as_i64(&self) -> (r: Option<i64>)
        ensures
            match r {
                Some(n) => json_as_i64(self@) == Some(n as int),
                None => json_as_i64(self@) is None,
            },
    {
        match self {
            JsonValue::Number(JsonNumber::PosInt(n)) => {
                if *n <= 0x7fff_ffff_ffff_ffffu64 {
                    Some(*n as i64)
                } else {
                    None
                }
            },
            JsonValue::Number(JsonNumber::NegInt(n)) => Some(*n),
            _ => None,
        }
    }

    /// The elements of an array, as `Value::as_array`.
    pub fn as_array(&self) -> (r: Option<&Vec<JsonValue>>)
        ensures
            match r {
                Some(items) => self@ == JsonModel::Array(models_of(items@)),
                None => !(self@ is Array),
            },
    {
        match self {
            JsonValue::Array(items) => Some(items),
            _ => None,
        }
    }
}

/// A copy of a list of object members.
pub fn clone_entries(entries: &Vec<(String, JsonValue)>) -> (r: Vec<(String, JsonValue)>)
    ensures
        entry_models(r@) == entry_models(entries@),
    decreases entries,
{
    proof {
        lemma_entry_models(entries@);
    }
    let mut out: Vec<(String, JsonValue)> = Vec::new();
    let mut i: usize = 0;
    while i < entries.len()
        invariant
            i <= entries.len(),
            out.len() == i,
            entry_models(entries@).len() == entries.len(),
            forall|j: int|
                0 <= j < entries.len() ==> #[trigger] entry_models(entries@)[j] == (
                    entries@[j].0@,
                    json_model(entries@[j].1),
                ),
            forall|j: int|
                0 <= j < i ==> #[trigger] out@[j].0@ == entries@[j].0@ && json_model(out@[j].1)
                    == json_model(entries@[j].1),
        decreases entries.len() - i,
    {
        assert(decreases_to!(*entries => entries[i as int]));
        assert(decreases_to!(entries[i as int] => entries[i as int].1));
        let key = entries[i].0.clone();
        let val = entries[i].1.clone();
        out.push((key, val));
        i = i + 1;
    }
    proof {
        lemma_entry_models(out@);
        assert(entry_models(out@) =~= entry_models(entries@));
    }
    out
}

impl Clone for JsonNumber {
    fn clone(&self) -> (r: Self)
        ensures
            json_model(JsonValue::Number(r)) == json_model(JsonValue::Number(*self)),
    {
        match self {
            JsonNumber::PosInt(n) => JsonNumber::PosInt(*n),
            JsonNumber::NegInt(n) => JsonNumber::NegInt(*n),
            JsonNumber::Float(t) => JsonNumber::Float(t.clone()),
        }
    }
}

impl Clone for JsonValue {
    fn clone(&self) -> (r: Self)
        ensures
            r@ == self@,
        decreases self,
    {
        match self {
            JsonValue::Null => JsonValue::Null,
            JsonValue::Bool(b) => JsonValue::Bool(*b),
            JsonValue::Number(n) => JsonValue::Number(n.clone()),
            JsonValue::String(s) => JsonValue::String(s.clone()),
            JsonValue::Array(items) => {
                proof {
                    lemma_models_of(items@);
                }
                let mut out: Vec<JsonValue> = Vec::new();
                let mut i: usize = 0;
                while i < items.len()
                    invariant
                        i <= items.len(),
                        *self == JsonValue::Array(*items),
                        out.len() == i,
                        models_of(items@).len() == items.len(),
                        forall|j: int|
                            0 <= j < items.len() ==> #[trigger] models_of(items@)[j] == json_model(
                                items@[j],
                            ),
                        forall|j: int| 0 <= j < i ==> #[trigger] json_model(out@[j]) == json_model(
                            items@[j],
                        ),
                    decreases items.len() - i,
                {
                    assert(decreases_to!(*items => items[i as int]));
                    assert(decreases_to!(*self => (*self)->Array_0));
                    out.push(items[i].clone());
                    i = i + 1;
                }
                proof {
                    lemma_models_of(out@);
                    assert(models_of(out@) =~= models_of(items@));
                }
                JsonValue::Array(out)
            },
            JsonValue::Object(entries) => {
                assert(decreases_to!(*self => (*self)->Object_0));
                JsonValue::Object(clone_entries(entries))
            },
        }
    }
}

} // verus!
