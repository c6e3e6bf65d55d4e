//! A compact index of a trail and the count of events under each name.

use vstd::prelude::*;
use crate::event::{copy_text, Event, Level};
use crate::text::{
    lemma_text_less_asymmetric, lemma_text_less_irreflexive, lemma_text_less_total,
    lemma_text_less_transitive, str_less, text_less,
};

verus! {

/// The fields of an event that queries go by.
#[derive(Debug, Clone, PartialEq, Eq)]
pub struct IndexEntry {
    pub seq: u64,
    pub id: String,
    pub event: String,
    pub level: String,
    pub ts: String,
    pub trace_id: Option<String>,
}

/// The lowercase name of a level, as it is written in logs.
pub open spec fn level_text(level: Level) -> Seq<char> {
    match level {
        Level::Trace => "trace"@,
        Level::Debug => "debug"@,
        Level::Info => "info"@,
        Level::Warn => "warn"@,
        Level::Error => "error"@,
    }
}

/// The lowercase name of a level.
pub fn level_name(level: Level) -> (r: String)
    ensures
        r@ == level_text(level),
{
    match level {
        Level::Trace => String::from_str("trace"),
        Level::Debug => String::from_str("debug"),
        Level::Info => String::from_str("info"),
        Level::Warn => String::from_str("warn"),
        Level::Error => String::from_str("error"),
    }
}

/// Whether `entry` is the index entry of `event`.
pub open spec fn indexes(entry: IndexEntry, event: Event) -> bool {
    &&& entry.seq == event.seq
    &&& entry.id@ == event.id@
    &&& entry.event@ == event.event@
    &&& entry.level@ == level_text(event.level)
    &&& entry.ts@ == event.ts@
    &&& entry.trace_id.deep_view() == event.trace_id.deep_view()
}

/// One index entry per event, in order.
pub fn build_index(events: &[Event]) -> (r: Vec<IndexEntry>)
    ensures
        r.len() == events.len(),
        forall|i: int| 0 <= i < events.len() ==> #[trigger] indexes(r@[i], events@[i]),
        forall|i: int|
            0 <= i < events.len() ==> {
                &&& (#[trigger] r@[i]).seq == events@[i].seq
                &&& r@[i].id@ == events@[i].id@
                &&& r@[i].event@ == events@[i].event@
                &&& r@[i].ts@ == events@[i].ts@
                &&& r@[i].trace_id.deep_view() == events@[i].trace_id.deep_view()
            },
{
    let mut r: Vec<IndexEntry> = Vec::new();
    let mut i: usize = 0;
    while i < events.len()
        invariant
            i <= events.len(),
            r.len() == i,
            forall|j: int| 0 <= j < i ==> #[trigger] indexes(r@[j], events@[j]),
        decreases events.len() - i,
    {
        let e = &events[i];
        r.push(
            IndexEntry {
                seq: e.seq,
                id: e.id.clone(),
                event: e.event.clone(),
                level: level_name(e.level),
                ts: e.ts.clone(),
                trace_id: copy_text(&e.trace_id),
            },
        );
        i = i + 1;
    }
    assert forall|i: int| 0 <= i < events.len() implies {
        &&& (#[trigger] r@[i]).seq == events@[i].seq
        &&& r@[i].id@ == events@[i].id@
        &&& r@[i].event@ == events@[i].event@
        &&& r@[i].ts@ == events@[i].ts@
        &&& r@[i].trace_id.deep_view() == events@[i].trace_id.deep_view()
    } by {
        assert(indexes(r@[i], events@[i]));
    }
    r
}

/// How many entries carry the event name `name`.
pub open spec fn count_named(s: Seq<IndexEntry>, name: Seq<char>) -> nat
    decreases s.len(),
{
    if s.len() == 0 {
        0
    } else {
        count_named(s.drop_last(), name) + (if s.last().event@ == name {
            1nat
        } else {
            0nat
        })
    }
}

/// The sum of the counts of a list of name counts.
pub open spec fn total_count(s: Seq<(String, usize)>) -> nat
    decreases s.len(),
{
    if s.len() == 0 {
        0
    } else {
        total_count(s.drop_last()) + (s.last().1 as nat)
    }
}

proof fn lemma_total_count_update(s: Seq<(String, usize)>, p: int, e: (String, usize))
    requires
        0 <= p < s.len(),
    ensures
        total_count(s.update(p, e)) == total_count(s) - s[p].1 + e.1,
    decreases s.len(),
{
    if p < s.len() - 1 {
        lemma_total_count_update(s.drop_last(), p, e);
        assert(s.update(p, e).drop_last() =~= s.drop_last().update(p, e));
    } else {
        assert(s.update(p, e).drop_last() =~= s.drop_last());
    }
}

proof fn lemma_total_count_insert(s: Seq<(String, usize)>, p: int, e: (String, usize))
    requires
        0 <= p <= s.len(),
    ensures
        total_count(s.insert(p, e)) == total_count(s) + e.1,
    decreases s.len(),
{
    if p < s.len() {
        lemma_total_count_insert(s.drop_last(), p, e);
        assert(s.insert(p, e).drop_last() =~= s.drop_last().insert(p, e));
    } else {
        assert(s.insert(p, e).drop_last() =~= s);
    }
}

/// Whether the names of `r` are in strictly increasing order.
pub open spec fn names_increasing(r: Seq<(String, usize)>) -> bool {
    forall|i: int, j: int| 0 <= i < j < r.len() ==> text_less(#[trigger] r[i].0@, #[trigger] r[j].0@)
}

/// Counts the entries under each event name. The result lists each name
/// that occurs once, in the order of `String`, with its number of entries.
pub fn counts_by_event(entries: &[IndexEntry]) -> (r: Vec<(String, usize)>)
    ensures
        names_increasing(r@),
        forall|i: int| 0 <= i < r.len() ==> #[trigger] r@[i].1 == count_named(entries@, r@[i].0@),
        forall|i: int| 0 <= i < r.len() ==> #[trigger] count_named(entries@, r@[i].0@) > 0,
        forall|k: int|
            0 <= k < entries.len() ==> exists|i: int|
                0 <= i < r.len() && #[trigger] r@[i].0@ == #[trigger] entries@[k].event@,
        total_count(r@) == entries.len(),
{
    let mut r: Vec<(String, usize)> = Vec::new();
    let mut k: usize = 0;
    while k < entries.len()
        invariant
            k <= entries.len(),
            names_increasing(r@),
            forall|i: int|
                0 <= i < r.len() ==> #[trigger] r@[i].1 == count_named(
                    entries@.take(k as int),
                    r@[i].0@,
                ),
            forall|i: int| 0 <= i < r.len() ==> #[trigger] r@[i].1 > 0,
            forall|j: int|
                0 <= j < k ==> exists|i: int|
                    0 <= i < r.len() && #[trigger] r@[i].0@ == #[trigger] entries@[j].event@,
            total_count(r@) == k,
        decreases entries.len() - k,
    {
        let name = &entries[k].event;
        let ghost nm = name@;
        let ghost pre = entries@.take(k as int);
        let ghost post = entries@.take(k + 1);
        assert(post.drop_last() =~= pre);
        assert(post.last() == entries@[k as int]);
        assert(forall|x: Seq<char>|
            #[trigger] count_named(post, x) == count_named(pre, x) + (if x == nm {
                1nat
            } else {
                0nat
            }));
        let mut p: usize = 0;
        while p < r.len() && str_less(r[p].0.as_str(), name.as_str())
            invariant
                p <= r.len(),
                nm == name@,
                forall|i: int| 0 <= i < p ==> text_less(#[trigger] r@[i].0@, nm),
            decreases r.len() - p,
        {
            p = p + 1;
        }
        proof {
            assert forall|i: int| 0 <= i < p implies #[trigger] r@[i].0@ != nm by {
                lemma_text_less_irreflexive(nm);
            }
        }
        if p < r.len() && r[p].0 == *name {
            let ghost old_r = r@;
            assert forall|i: int| 0 <= i < r.len() && i != p implies #[trigger] r@[i].0@ != nm by {
                if i > p {
                    lemma_text_less_asymmetric(r@[p as int].0@, r@[i].0@);
                    lemma_text_less_irreflexive(nm);
                }
            }
            let c = r[p].1;
            assert(c == count_named(pre, nm));
            assert(c <= total_count(r@)) by {
                lemma_total_count_update(r@, p as int, (r@[p as int].0, 0usize));
            }
            let key = r[p].0.clone();
            r.set(p, (key, c + 1));
            proof {
                lemma_total_count_update(old_r, p as int, r@[p as int]);
                assert forall|j: int| 0 <= j < k + 1 implies exists|i: int|
                    0 <= i < r.len() && #[trigger] r@[i].0@ == #[trigger] entries@[j].event@ by {
                    if j < k {
                        let i = choose|i: int|
                            0 <= i < old_r.len() && #[trigger] old_r[i].0@ == entries@[j].event@;
                        assert(r@[i].0@ == old_r[i].0@);
                    } else {
                        assert(r@[p as int].0@ == entries@[j].event@);
                    }
                }
            }
        } else {
            let ghost old_r = r@;
            proof {
                if p < r.len() {
                    lemma_text_less_total(r@[p as int].0@, nm);
                }
                assert forall|i: int| p <= i < r.len() implies text_less(nm, #[trigger] r@[i].0@) by {
                    if i > p {
                        lemma_text_less_transitive(nm, r@[p as int].0@, r@[i].0@);
                    }
                }
                assert forall|i: int| p <= i < r.len() implies #[trigger] r@[i].0@ != nm by {
                    lemma_text_less_irreflexive(nm);
                }
            }
            r.insert(p, (name.clone(), 1));
            proof {
                lemma_total_count_insert(old_r, p as int, r@[p as int]);
                assert(count_named(pre, nm) == 0) by {
                    if count_named(pre, nm) > 0 {
                        lemma_count_named_positive(pre, nm);
                        let j = choose|j: int| 0 <= j < pre.len() && pre[j].event@ == nm;
                        assert(entries@[j].event@ == nm);
                        let i = choose|i: int|
                            0 <= i < old_r.len() && #[trigger] old_r[i].0@ == entries@[j].event@;
                    }
                }
                assert forall|i: int, j: int| 0 <= i < j < r.len() implies text_less(
                    #[trigger] r@[i].0@,
                    #[trigger] r@[j].0@,
                ) by {
                    if j < p {
                    } else if j == p {
                    } else if i < p {
                        lemma_text_less_transitive(r@[i].0@, nm, r@[j].0@);
                    } else if i == p {
                    } else {
                        assert(r@[i].0@ == old_r[i - 1].0@);
                        assert(r@[j].0@ == old_r[j - 1].0@);
                    }
                }
                assert forall|i: int| 0 <= i < r.len() implies #[trigger] r@[i].1 == count_named(
                    post,
                    r@[i].0@,
                ) by {
                    if i < p {
                        assert(r@[i] == old_r[i]);
                    } else if i > p {
                        assert(r@[i] == old_r[i - 1]);
                    }
                }
                assert forall|j: int| 0 <= j < k + 1 implies exists|i: int|
                    0 <= i < r.len() && #[trigger] r@[i].0@ == #[trigger] entries@[j].event@ by {
                    if j < k {
                        let i = choose|i: int|
                            0 <= i < old_r.len() && #[trigger] old_r[i].0@ == entries@[j].event@;
                        if i < p {
                            assert(r@[i].0@ == old_r[i].0@);
                        } else {
                            assert(r@[i + 1].0@ == old_r[i].0@);
                        }
                    } else {
                        assert(r@[p as int].0@ == entries@[j].event@);
                    }
                }
            }
        }
        k = k + 1;
    }
    proof {
        assert(entries@.take(entries.len() as int) =~= entries@);
        assert forall|i: int| 0 <= i < r.len() implies #[trigger] count_named(
            entries@,
            r@[i].0@,
        ) > 0 by {
            assert(r@[i].1 > 0);
        }
    }
    r
}

proof fn lemma_count_named_positive(s: Seq<IndexEntry>, name: Seq<char>)
    requires
        count_named(s, name) > 0,
    ensures
        exists|j: int| 0 <= j < s.len() && s[j].event@ == name,
    decreases s.len(),
{
    if s.last().event@ == name {
        assert(s[s.len() - 1].event@ == name);
    } else {
        lemma_count_named_positive(s.drop_last(), name);
        let j = choose|j: int| 0 <= j < s.len() - 1 && s.drop_last()[j].event@ == name;
        assert(s[j].event@ == name);
    }
}


proof fn lemma_count_named_append(a: Seq<IndexEntry>, b: Seq<IndexEntry>, name: Seq<char>)
    ensures
        count_named(a + b, name) == count_named(a, name) + count_named(b, name),
    decreases b.len(),
{
    if b.len() == 0 {
        assert(a + b =~= a);
    } else {
        lemma_count_named_append(a, b.drop_last(), name);
        assert((a + b).drop_last() =~= a + b.drop_last());
        assert((a + b).last() == b.last());
    }
}

/// Counts add up over concatenated trails: the count of a name in `a`
/// followed by `b` is its count in `a` plus its count in `b`, whichever part
/// comes first.
pub proof fn lemma_counts_add_up(a: Seq<IndexEntry>, b: Seq<IndexEntry>, name: Seq<char>)
    ensures
        count_named(a + b, name) == count_named(a, name) + count_named(b, name),
        count_named(a + b, name) == count_named(b + a, name),
        count_named(Seq::<IndexEntry>::empty(), name) == 0,
{
    lemma_count_named_append(a, b, name);
    lemma_count_named_append(b, a, name);
}


/// Each field of an index entry copies the field of the same name of its
/// event; the level is the level's lowercase name.
pub proof fn lemma_index_copies_fields(entry: IndexEntry, event: Event)
    requires
        indexes(entry, event),
    ensures
        entry.seq == event.seq,
        entry.id@ == event.id@,
        entry.event@ == event.event@,
        entry.ts@ == event.ts@,
        entry.trace_id.deep_view() == event.trace_id.deep_view(),
        entry.level@ == match event.level {
            Level::Trace => "trace"@,
            Level::Debug => "debug"@,
            Level::Info => "info"@,
            Level::Warn => "warn"@,
            Level::Error => "error"@,
        },
{
}


/// The count of a name is the number of entries that carry it.
pub proof fn lemma_count_named_meaning(s: Seq<IndexEntry>, name: Seq<char>)
    ensures
        count_named(s, name) == s.filter(|e: IndexEntry| e.event@ == name).len(),
    decreases s.len(),
{
    reveal_with_fuel(Seq::filter, 1);
    if s.len() > 0 {
        lemma_count_named_meaning(s.drop_last(), name);
    }
}

} // verus!
