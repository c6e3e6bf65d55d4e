//! The parts of the command line that decide rather than do: reading
//! `key=value` attributes and the event body, choosing which environment
//! names may be captured, the next sequence number, what `tail` shows, and
//! the two events of a command run.

use vstd::prelude::*;
use crate::event::{event_models, Event, EventModel};
use crate::index::level_text;
use crate::json::{json_model, json_parse, json_wf, parse_json, JsonModel, JsonValue};
use crate::text::{
    blank, chars_of, decimal, is_blank, push_decimal, lemma_text_less_asymmetric, lemma_text_less_irreflexive,
    lemma_text_less_total, lemma_text_less_transitive, push_str, str_less, string_of, text_less,
};

verus! {

/// Where the first `=` of `s` stands, if any.
pub open spec fn first_eq(s: Seq<char>) -> Option<int>
    decreases s.len(),
{
    if s.len() == 0 {
        None
    } else if s[0] == '=' {
        Some(0)
    } else {
        match first_eq(s.drop_first()) {
            Some(i) => Some(i + 1),
            None => None,
        }
    }
}

pub proof fn lemma_first_eq(s: Seq<char>)
    ensures
        match first_eq(s) {
            Some(i) => 0 <= i < s.len() && s[i] == '=' && forall|j: int| 0 <= j < i ==> s[j] != '=',
            None => forall|j: int| 0 <= j < s.len() ==> s[j] != '=',
        },
    decreases s.len(),
{
    if s.len() > 0 && s[0] != '=' {
        lemma_first_eq(s.drop_first());
        match first_eq(s.drop_first()) {
            Some(i) => {
                assert forall|j: int| 0 <= j < i + 1 implies s[j] != '=' by {
                    if j > 0 {
                        assert(s[j] == s.drop_first()[j - 1]);
                    }
                }
            },
            None => {
                assert forall|j: int| 0 <= j < s.len() implies s[j] != '=' by {
                    if j > 0 {
                        assert(s[j] == s.drop_first()[j - 1]);
                    }
                }
            },
        }
    }
}

/// How one `--attr` argument reads: the key before the first `=` and the
/// raw value after it, or the complaint.
pub open spec fn attr_pair(s: Seq<char>) -> Result<(Seq<char>, Seq<char>), Seq<char>> {
    match first_eq(s) {
        None => Err("attribute must be key=value: "@ + s),
        Some(i) => if is_blank(s.take(i)) {
            Err("attribute key must not be empty"@)
        } else {
            Ok((s.take(i), s.skip(i + 1)))
        },
    }
}

/// The pairs of a list of attribute arguments, in order, or the complaint
/// about the first one that does not read.
pub open spec fn attr_pairs(vs: Seq<Seq<char>>) -> Result<Seq<(Seq<char>, Seq<char>)>, Seq<char>>
    decreases vs.len(),
{
    if vs.len() == 0 {
        Ok(Seq::empty())
    } else {
        match attr_pairs(vs.drop_last()) {
            Err(e) => Err(e),
            Ok(ps) => match attr_pair(vs.last()) {
                Err(e) => Err(e),
                Ok(p) => Ok(ps.push(p)),
            },
        }
    }
}

/// The attributes that a list of pairs sets: a later pair under a key
/// replaces an earlier one.
pub open spec fn pairs_map(ps: Seq<(Seq<char>, Seq<char>)>) -> Map<Seq<char>, Seq<char>>
    decreases ps.len(),
{
    if ps.len() == 0 {
        Map::empty()
    } else {
        pairs_map(ps.drop_last()).insert(ps.last().0, ps.last().1)
    }
}

pub open spec fn texts_of(vs: Seq<String>) -> Seq<Seq<char>> {
    vs.map_values(|v: String| v@)
}

/// Whether the keys of `r` are in strictly increasing order.
pub open spec fn keys_increasing(r: Seq<(String, String)>) -> bool {
    forall|i: int, j: int| 0 <= i < j < r.len() ==> text_less(#[trigger] r[i].0@, #[trigger] r[j].0@)
}

/// Whether `r`, read as a map from keys to raw values, is `m`.
pub open spec fn holds_map(r: Seq<(String, String)>, m: Map<Seq<char>, Seq<char>>) -> bool {
    &&& forall|i: int|
        0 <= i < r.len() ==> m.contains_key(#[trigger] r[i].0@) && m[r[i].0@] == r[i].1@
    &&& forall|k: Seq<char>|
        #[trigger] m.contains_key(k) ==> exists|i: int| 0 <= i < r.len() && r[i].0@ == k
}

fn split_attr(value: &str) -> (r: Result<(String, String), String>)
    ensures
        match r {
            Ok(p) => attr_pair(value@) == Ok::<(Seq<char>, Seq<char>), Seq<char>>((p.0@, p.1@)),
            Err(m) => attr_pair(value@) == Err::<(Seq<char>, Seq<char>), Seq<char>>(m@),
        },
{
    proof {
        lemma_first_eq(value@);
    }
    let cs = chars_of(value);
    let mut i: usize = 0;
    while i < cs.len() && cs[i] != '='
        invariant
            i <= cs.len(),
            cs@ == value@,
            forall|j: int| 0 <= j < i ==> cs@[j] != '=',
        decreases cs.len() - i,
    {
        i = i + 1;
    }
    if i == cs.len() {
        let mut m = String::new();
        push_str(&mut m, "attribute must be key=value: ");
        push_str(&mut m, value);
        return Err(m);
    }
    assert(first_eq(value@) == Some(i as int));
    let mut key_chars: Vec<char> = Vec::new();
    let mut j: usize = 0;
    while j < i
        invariant
            j <= i,
            i < cs.len(),
            key_chars@ == cs@.take(j as int),
        decreases i - j,
    {
        key_chars.push(cs[j]);
        j = j + 1;
        assert(key_chars@ =~= cs@.take(j as int));
    }
    let key = string_of(&key_chars);
    if blank(key.as_str()) {
        return Err(String::from_str("attribute key must not be empty"));
    }
    let mut raw_chars: Vec<char> = Vec::new();
    let mut j: usize = i + 1;
    while j < cs.len()
        invariant
            i < j <= cs.len(),
            raw_chars@ == cs@.subrange(i + 1, j as int),
        decreases cs.len() - j,
    {
        raw_chars.push(cs[j]);
        j = j + 1;
        assert(raw_chars@ =~= cs@.subrange(i + 1, j as int));
    }
    assert(cs@.subrange(i + 1, cs.len() as int) =~= cs@.skip(i + 1));
    Ok((key, string_of(&raw_chars)))
}

fn attr_texts(values: &[String]) -> (r: Result<Vec<(String, String)>, String>)
    ensures
        match r {
            Ok(kv) => attr_pairs(texts_of(values@)) matches Ok(ps) && keys_increasing(kv@)
                && holds_map(kv@, pairs_map(ps)),
            Err(m) => attr_pairs(texts_of(values@)) == Err::<Seq<(Seq<char>, Seq<char>)>, Seq<char>>(m@),
        },
{
    let ghost vs = texts_of(values@);
    let mut r: Vec<(String, String)> = Vec::new();
    let ghost mut ps: Seq<(Seq<char>, Seq<char>)> = Seq::empty();
    let mut k: usize = 0;
    assert(vs.take(0) =~= Seq::<Seq<char>>::empty());
    while k < values.len()
        invariant
            k <= values.len(),
            vs == texts_of(values@),
            attr_pairs(vs.take(k as int)) == Ok::<Seq<(Seq<char>, Seq<char>)>, Seq<char>>(ps),
            keys_increasing(r@),
            holds_map(r@, pairs_map(ps)),
        decreases values.len() - k,
    {
        assert(vs.take(k + 1).drop_last() =~= vs.take(k as int));
        assert(vs.take(k + 1).last() == values@[k as int]@);
        let pair = split_attr(values[k].as_str());
        let (key, raw) = match pair {
            Ok(p) => p,
            Err(m) => {
                assert(attr_pairs(vs.take(k + 1)) == Err::<Seq<(Seq<char>, Seq<char>)>, Seq<char>>(m@));
                proof {
                    lemma_attr_pairs_err_prefix(vs, k as int + 1);
                }
                return Err(m);
            },
        };
        let ghost km = key@;
        let ghost old_r = r@;
        let ghost old_map = pairs_map(ps);
        let ghost old_ps = ps;
        proof {
            ps = old_ps.push((key@, raw@));
            assert(ps.drop_last() =~= old_ps);
        }
        let ghost new_map = pairs_map(ps);
        assert(new_map == old_map.insert(km, raw@));
        let mut p: usize = 0;
        while p < r.len() && str_less(r[p].0.as_str(), key.as_str())
            invariant
                p <= r.len(),
                km == key@,
                forall|i: int| 0 <= i < p ==> text_less(#[trigger] r@[i].0@, km),
            decreases r.len() - p,
        {
            p = p + 1;
        }
        proof {
            assert forall|i: int| 0 <= i < p implies #[trigger] r@[i].0@ != km by {
                lemma_text_less_irreflexive(km);
            }
        }
        if p < r.len() && r[p].0 == key {
            assert forall|i: int| 0 <= i < r.len() && i != p implies #[trigger] r@[i].0@ != km by {
                if i > p {
                    lemma_text_less_asymmetric(r@[p as int].0@, r@[i].0@);
                    lemma_text_less_irreflexive(km);
                }
            }
            r.set(p, (key, raw));
            proof {
                assert forall|i: int| 0 <= i < r.len() implies new_map.contains_key(
                    #[trigger] r@[i].0@,
                ) && new_map[r@[i].0@] == r@[i].1@ by {
                    if i != p {
                        assert(r@[i] == old_r[i]);
                    }
                }
                assert forall|x: Seq<char>| #[trigger] new_map.contains_key(x) implies exists|i: int|
                    0 <= i < r.len() && r@[i].0@ == x by {
                    if x == km {
                        assert(r@[p as int].0@ == x);
                    } else {
                        assert(old_map.contains_key(x));
                        let i = choose|i: int| 0 <= i < old_r.len() && old_r[i].0@ == x;
                        assert(r@[i].0@ == x);
                    }
                }
                assert forall|i: int, j: int| 0 <= i < j < r.len() implies text_less(
                    #[trigger] r@[i].0@,
                    #[trigger] r@[j].0@,
                ) by {
                    assert(r@[i].0@ == old_r[i].0@);
                    assert(r@[j].0@ == old_r[j].0@);
                }
            }
        } else {
            proof {
                if p < r.len() {
                    lemma_text_less_total(r@[p as int].0@, km);
                }
                assert forall|i: int| p <= i < r.len() implies text_less(km, #[trigger] r@[i].0@) by {
                    if i > p {
                        lemma_text_less_transitive(km, r@[p as int].0@, r@[i].0@);
                    }
                }
                assert forall|i: int| p <= i < r.len() implies #[trigger] r@[i].0@ != km by {
                    lemma_text_less_irreflexive(km);
                }
            }
            r.insert(p, (key, raw));
            proof {
                assert forall|i: int, j: int| 0 <= i < j < r.len() implies text_less(
                    #[trigger] r@[i].0@,
                    #[trigger] r@[j].0@,
                ) by {
                    if j < p {
                    } else if j == p {
                    } else if i < p {
                        lemma_text_less_transitive(r@[i].0@, km, r@[j].0@);
                    } else if i == p {
                    } else {
                        assert(r@[i].0@ == old_r[i - 1].0@);
                        assert(r@[j].0@ == old_r[j - 1].0@);
                    }
                }
                assert forall|i: int| 0 <= i < r.len() implies new_map.contains_key(
                    #[trigger] r@[i].0@,
                ) && new_map[r@[i].0@] == r@[i].1@ by {
                    if i < p {
                        assert(r@[i] == old_r[i]);
                    } else if i > p {
                        assert(r@[i] == old_r[i - 1]);
                    }
                }
                assert forall|x: Seq<char>| #[trigger] new_map.contains_key(x) implies exists|i: int|
                    0 <= i < r.len() && r@[i].0@ == x by {
                    if x == km {
                        assert(r@[p as int].0@ == x);
                    } else {
                        assert(old_map.contains_key(x));
                        let i = choose|i: int| 0 <= i < old_r.len() && old_r[i].0@ == x;
                        if i < p {
                            assert(r@[i].0@ == x);
                        } else {
                            assert(r@[i + 1].0@ == x);
                        }
                    }
                }
            }
        }
        k = k + 1;
    }
    assert(vs.take(values.len() as int) =~= vs);
    Ok(r)
}

/// How an attribute value reads: as JSON where it parses, otherwise as the
/// string itself.
pub open spec fn attr_value(raw: Seq<char>) -> JsonModel {
    match json_parse(raw) {
        Some(v) => v,
        None => JsonModel::Str(raw),
    }
}

/// Whether the keys of `r` are in strictly increasing order.
pub open spec fn attr_keys_increasing(r: Seq<(String, JsonValue)>) -> bool {
    forall|i: int, j: int| 0 <= i < j < r.len() ==> text_less(#[trigger] r[i].0@, #[trigger] r[j].0@)
}

/// Whether `r` lists the attributes that `m` sets, each raw value read by
/// `attr_value`.
pub open spec fn holds_attrs(r: Seq<(String, JsonValue)>, m: Map<Seq<char>, Seq<char>>) -> bool {
    &&& forall|i: int|
        0 <= i < r.len() ==> m.contains_key(#[trigger] r[i].0@) && json_model(r[i].1) == attr_value(
            m[r[i].0@],
        )
    &&& forall|k: Seq<char>|
        #[trigger] m.contains_key(k) ==> exists|i: int| 0 <= i < r.len() && r[i].0@ == k
}

/// An attribute value given what the JSON reader made of its text: the
/// value read, or the text itself as a string when it is not JSON.
pub fn jsonish_value(parsed: Option<JsonValue>, raw: &String) -> (r: JsonValue)
    ensures
        r@ == match parsed {
            Some(v) => v@,
            None => JsonModel::Str(raw@),
        },
{
    match parsed {
        Some(v) => v,
        None => JsonValue::String(raw.clone()),
    }
}

fn parse_jsonish(raw: &String) -> (r: JsonValue)
    ensures
        r@ == attr_value(raw@),
        json_parse(raw@) matches Some(v) ==> r@ == v,
        json_parse(raw@) is None ==> r@ == JsonModel::Str(raw@),
{
    jsonish_value(parse_json(raw.as_str()), raw)
}

/// Reads `--attr key=value` arguments. Each splits at its first `=`; the key
/// must not be blank. A later argument under a key replaces an earlier one.
/// The result lists each key once, in the order of `String`; each value is
/// read as JSON where it parses and kept as a string otherwise.
pub fn parse_attrs(values: &[String]) -> (r: Result<Vec<(String, JsonValue)>, String>)
    ensures
        match r {
            Ok(kv) => attr_pairs(texts_of(values@)) matches Ok(ps) && attr_keys_increasing(kv@)
                && holds_attrs(kv@, pairs_map(ps)) && forall|i: int|
                0 <= i < kv.len() ==> {
                    let raw = pairs_map(ps)[(#[trigger] kv@[i]).0@];
                    &&& json_parse(raw) matches Some(v) ==> json_model(kv@[i].1) == v
                    &&& json_parse(raw) is None ==> json_model(kv@[i].1) == JsonModel::Str(raw)
                },
            Err(m) => attr_pairs(texts_of(values@)) == Err::<Seq<(Seq<char>, Seq<char>)>, Seq<char>>(m@),
        },
{
    let texts = attr_texts(values)?;
    let ghost ps = attr_pairs(texts_of(values@))->Ok_0;
    let mut r: Vec<(String, JsonValue)> = Vec::new();
    let mut i: usize = 0;
    while i < texts.len()
        invariant
            i <= texts.len(),
            r.len() == i,
            forall|j: int|
                0 <= j < i ==> #[trigger] r@[j].0@ == texts@[j].0@ && json_model(r@[j].1)
                    == attr_value(texts@[j].1@),
        decreases texts.len() - i,
    {
        let key = texts[i].0.clone();
        let val = parse_jsonish(&texts[i].1);
        r.push((key, val));
        i = i + 1;
    }
    proof {
        let m = pairs_map(ps);
        assert forall|a: int, b: int| 0 <= a < b < r.len() implies text_less(
            #[trigger] r@[a].0@,
            #[trigger] r@[b].0@,
        ) by {
            assert(r@[a].0@ == texts@[a].0@);
            assert(r@[b].0@ == texts@[b].0@);
        }
        assert forall|a: int| 0 <= a < r.len() implies m.contains_key(#[trigger] r@[a].0@)
            && json_model(r@[a].1) == attr_value(m[r@[a].0@]) by {
            assert(r@[a].0@ == texts@[a].0@);
        }
        assert forall|k: Seq<char>| #[trigger] m.contains_key(k) implies exists|a: int|
            0 <= a < r.len() && r@[a].0@ == k by {
            let a = choose|a: int| 0 <= a < texts.len() && texts@[a].0@ == k;
            assert(r@[a].0@ == k);
        }
    }
    Ok(r)
}

/// What `parse_body` gives: the value of `--body` when it is JSON, the
/// complaint when it is not, and otherwise the body of `--message`.
pub open spec fn body_result(body: Option<Seq<char>>, message: Option<Seq<char>>) -> Result<
    JsonModel,
    Seq<char>,
> {
    match body {
        Some(b) => match json_parse(b) {
            Some(v) => Ok(v),
            None => Err("--body must be valid JSON"@),
        },
        None => Ok(message_body_model(message)),
    }
}

pub open spec fn opt_text(o: Option<&str>) -> Option<Seq<char>> {
    match o {
        Some(t) => Some(t@),
        None => None,
    }
}

/// The body of a logged event given what the JSON reader made of `--body`
/// (`None` without `--body`; `Some(None)` when it is not JSON): the value
/// read, the complaint, or the body of `--message`.
pub fn choose_body(parsed_body: Option<Option<JsonValue>>, message: Option<&str>) -> (r: Result<
    JsonValue,
    String,
>)
    ensures
        match parsed_body {
            Some(Some(v)) => r matches Ok(x) && x@ == v@,
            Some(None) => r matches Err(m) && m@ == "--body must be valid JSON"@,
            None => r matches Ok(x) && x@ == message_body_model(opt_text(message)),
        },
{
    match parsed_body {
        Some(Some(v)) => Ok(v),
        Some(None) => Err(String::from_str("--body must be valid JSON")),
        None => Ok(message_body(message)),
    }
}

/// The body of a logged event: `--body` read as JSON wins over `--message`;
/// without either it is `{}`.
pub fn parse_body(body: Option<&str>, message: Option<&str>) -> (r: Result<JsonValue, String>)
    ensures
        match r {
            Ok(v) => body_result(opt_text(body), opt_text(message)) == Ok::<JsonModel, Seq<char>>(
                v@,
            ),
            Err(m) => body_result(opt_text(body), opt_text(message)) == Err::<JsonModel, Seq<char>>(
                m@,
            ),
        },
        r matches Ok(v) ==> json_wf(v@),
{
    proof {
        lemma_message_body_wf(opt_text(message));
    }
    let parsed = match body {
        Some(b) => Some(parse_json(b)),
        None => None,
    };
    choose_body(parsed, message)
}

proof fn lemma_attr_pairs_err_prefix(vs: Seq<Seq<char>>, n: int)
    requires
        0 <= n <= vs.len(),
        attr_pairs(vs.take(n)) is Err,
    ensures
        attr_pairs(vs) == attr_pairs(vs.take(n)),
    decreases vs.len() - n,
{
    if n < vs.len() {
        assert(vs.take(n + 1).drop_last() =~= vs.take(n));
        lemma_attr_pairs_err_prefix(vs, n + 1);
    } else {
        assert(vs.take(n) =~= vs);
    }
}


/// An environment name that may be looked up: no `=` in it and not blank.
pub open spec fn is_capturable_env_key(k: Seq<char>) -> bool {
    first_eq(k) is None && !is_blank(k)
}

/// The capturable names of a list, in order.
pub open spec fn capturable(ks: Seq<Seq<char>>) -> Seq<Seq<char>>
    decreases ks.len(),
{
    if ks.len() == 0 {
        Seq::empty()
    } else {
        capturable(ks.drop_last()) + (if is_capturable_env_key(ks.last()) {
            seq![ks.last()]
        } else {
            Seq::empty()
        })
    }
}

fn has_eq(s: &str) -> (r: bool)
    ensures
        r == (first_eq(s@) is Some),
{
    proof {
        lemma_first_eq(s@);
    }
    let cs = chars_of(s);
    let mut i: usize = 0;
    while i < cs.len()
        invariant
            i <= cs.len(),
            cs@ == s@,
            forall|j: int| 0 <= j < i ==> cs@[j] != '=',
        decreases cs.len() - i,
    {
        if cs[i] == '=' {
            proof {
                lemma_first_eq(s@);
            }
            return true;
        }
        i = i + 1;
    }
    false
}

/// The names of an environment allowlist that may be looked up, in order:
/// a name holding `=` or made of whitespace only is skipped.
pub fn capturable_env_keys(keys: &[String]) -> (r: Vec<String>)
    ensures
        texts_of(r@) == capturable(texts_of(keys@)),
{
    let ghost ks = texts_of(keys@);
    let mut r: Vec<String> = Vec::new();
    let mut i: usize = 0;
    while i < keys.len()
        invariant
            i <= keys.len(),
            ks == texts_of(keys@),
            texts_of(r@) == capturable(ks.take(i as int)),
        decreases keys.len() - i,
    {
        assert(ks.take(i + 1).drop_last() =~= ks.take(i as int));
        assert(ks.take(i + 1).last() == keys@[i as int]@);
        let k = &keys[i];
        if !has_eq(k.as_str()) && !blank(k.as_str()) {
            let ghost before = r@;
            r.push(k.clone());
            assert(texts_of(r@) =~= texts_of(before) + seq![k@]);
        } else {
            assert(texts_of(r@) =~= texts_of(r@) + Seq::<Seq<char>>::empty());
        }
        i = i + 1;
    }
    assert(ks.take(keys.len() as int) =~= ks);
    r
}

/// The body of an event logged with `--message`: `{"message": text}`, or
/// `{}` without one.
pub open spec fn message_body_model(message: Option<Seq<char>>) -> JsonModel {
    match message {
        Some(m) => JsonModel::Object(seq![("message"@, JsonModel::Str(m))]),
        None => JsonModel::Object(Seq::empty()),
    }
}

proof fn lemma_message_body_wf(message: Option<Seq<char>>)
    ensures
        json_wf(message_body_model(message)),
{
    match message {
        Some(m) => {
            let es = seq![("message"@, JsonModel::Str(m))];
            assert(es.drop_last() =~= Seq::<(Seq<char>, JsonModel)>::empty());
            assert(crate::json::entries_wf(Seq::<(Seq<char>, JsonModel)>::empty()));
            assert(json_wf(JsonModel::Str(m)));
            assert(es.last().1 == JsonModel::Str(m));
            assert(crate::json::entries_wf(es));
        },
        None => {},
    }
}

/// The body of an event logged with `--message` and no `--body`.
pub fn message_body(message: Option<&str>) -> (r: JsonValue)
    ensures
        json_wf(r@),
        r@ == message_body_model(
            match message {
                Some(m) => Some(m@),
                None => None,
            },
        ),
{
    proof {
        lemma_message_body_wf(
            match message {
                Some(m) => Some(m@),
                None => None,
            },
        );
    }
    match message {
        Some(m) => {
            let mut entries: Vec<(String, JsonValue)> = Vec::new();
            entries.push((String::from_str("message"), JsonValue::String(String::from_str(m))));
            let r = JsonValue::Object(entries);
            assert(crate::json::entry_models(entries@) =~= seq![("message"@, JsonModel::Str(m@))]) by {
                crate::json::lemma_entry_models(entries@);
            }
            r
        },
        None => {
            let entries: Vec<(String, JsonValue)> = Vec::new();
            assert(crate::json::entry_models(entries@) =~= Seq::empty());
            JsonValue::Object(entries)
        },
    }
}

/// The largest sequence number of a trail, 0 when it is empty.
pub open spec fn max_seq(s: Seq<EventModel>) -> nat
    decreases s.len(),
{
    if s.len() == 0 {
        0
    } else if max_seq(s.drop_last()) >= s.last().seq {
        max_seq(s.drop_last())
    } else {
        s.last().seq as nat
    }
}

/// The sequence number for the next event of a trail: one more than the
/// largest so far, or `None` when that would not fit in a `u64`.
pub fn next_seq(events: &[Event]) -> (r: Option<u64>)
    ensures
        match r {
            Some(n) => n == max_seq(event_models(events@)) + 1,
            None => max_seq(event_models(events@)) == u64::MAX,
        },
{
    let ghost ms = event_models(events@);
    let mut m: u64 = 0;
    let mut i: usize = 0;
    while i < events.len()
        invariant
            i <= events.len(),
            ms == event_models(events@),
            m == max_seq(ms.take(i as int)),
        decreases events.len() - i,
    {
        assert(ms.take(i + 1).drop_last() =~= ms.take(i as int));
        assert(ms.take(i + 1).last() == events@[i as int]@);
        if events[i].seq > m {
            m = events[i].seq;
        }
        i = i + 1;
    }
    assert(ms.take(events.len() as int) =~= ms);
    if m == u64::MAX {
        None
    } else {
        Some(m + 1)
    }
}


/// The next sequence number is larger than every sequence number already in
/// the trail, so appending with it keeps every number of the trail distinct
/// from the new one.
pub proof fn lemma_next_seq_exceeds_all(s: Seq<EventModel>)
    ensures
        forall|i: int| 0 <= i < s.len() ==> (#[trigger] s[i]).seq <= max_seq(s),
    decreases s.len(),
{
    if s.len() > 0 {
        lemma_next_seq_exceeds_all(s.drop_last());
        assert forall|i: int| 0 <= i < s.len() implies (#[trigger] s[i]).seq <= max_seq(s) by {
            if i < s.len() - 1 {
                assert(s[i] == s.drop_last()[i]);
            }
        }
    }
}


/// Where `tail` starts showing: the last `lines` events, or all of them.
pub fn tail_start(len: usize, lines: usize) -> (r: usize)
    ensures
        r == if len > lines {
            len - lines
        } else {
            0
        },
{
    if len > lines {
        len - lines
    } else {
        0
    }
}

/// The human line of `tail` for one event: sequence number, timestamp,
/// level and name, separated by spaces.
pub open spec fn tail_text(e: EventModel) -> Seq<char> {
    decimal(e.seq as nat) + " "@ + e.ts + " "@ + level_text(e.level) + " "@ + e.event
}

/// The human line of `tail` for one event.
pub fn tail_line(e: &Event) -> (r: String)
    ensures
        r@ == tail_text(e@),
{
    let mut r = String::new();
    push_decimal(&mut r, e.seq);
    push_str(&mut r, " ");
    push_str(&mut r, e.ts.as_str());
    push_str(&mut r, " ");
    let level = crate::index::level_name(e.level);
    push_str(&mut r, level.as_str());
    push_str(&mut r, " ");
    push_str(&mut r, e.event.as_str());
    r
}


/// The GitHub Actions variables that `ci github-context` captures; nothing
/// else of the environment is read.
pub open spec fn github_env_names() -> Seq<Seq<char>> {
    seq![
        "GITHUB_WORKFLOW"@,
        "GITHUB_RUN_ID"@,
        "GITHUB_RUN_NUMBER"@,
        "GITHUB_RUN_ATTEMPT"@,
        "GITHUB_JOB"@,
        "GITHUB_ACTION"@,
        "GITHUB_ACTOR"@,
        "GITHUB_EVENT_NAME"@,
        "GITHUB_REF"@,
        "GITHUB_SHA"@,
        "GITHUB_REPOSITORY"@,
        "RUNNER_OS"@,
        "RUNNER_ARCH"@,
    ]
}

/// The allowlist of `ci github-context`.
pub fn github_env_allowlist() -> (r: Vec<String>)
    ensures
        texts_of(r@) == github_env_names(),
{
    let mut r: Vec<String> = Vec::new();
    r.push(String::from_str("GITHUB_WORKFLOW"));
    r.push(String::from_str("GITHUB_RUN_ID"));
    r.push(String::from_str("GITHUB_RUN_NUMBER"));
    r.push(String::from_str("GITHUB_RUN_ATTEMPT"));
    r.push(String::from_str("GITHUB_JOB"));
    r.push(String::from_str("GITHUB_ACTION"));
    r.push(String::from_str("GITHUB_ACTOR"));
    r.push(String::from_str("GITHUB_EVENT_NAME"));
    r.push(String::from_str("GITHUB_REF"));
    r.push(String::from_str("GITHUB_SHA"));
    r.push(String::from_str("GITHUB_REPOSITORY"));
    r.push(String::from_str("RUNNER_OS"));
    r.push(String::from_str("RUNNER_ARCH"));
    assert(texts_of(r@) =~= github_env_names());
    r
}


/// An attribute value is what the JSON reader reads from its text, whatever
/// kind of value that is (numbers with fractions included); only a text
/// that is not JSON is kept as a string.
pub proof fn lemma_attr_value_meaning(raw: Seq<char>)
    ensures
        json_parse(raw) matches Some(v) ==> attr_value(raw) == v,
        json_parse(raw) is None ==> attr_value(raw) == JsonModel::Str(raw),
{
}

} // verus!
