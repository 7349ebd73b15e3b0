//! What the protocol conversions share: loose reading of JSON, fresh ids and event frames.
pub mod responses;
pub mod responses_stream;
pub mod responses_laws;
pub mod request_laws;
pub mod answer_laws;
pub mod stream_laws;
pub mod call_laws;
pub mod responses_collector;
pub mod collector_laws;

use vstd::prelude::*;
use crate::js::{js_truthy, truthy};
use crate::json::{field, find, list_view, render_json, seen, text_of_json, Json, JsonValue};
use crate::text::{concat, concat3, digit, hexadecimal, numeral_in, write_numeral};

verus! {

// ─── Loose reading ───────────────────────────────────────────

/// A scalar as text; empty for null, lists and objects.
pub open spec fn scalar_text(v: Json) -> Seq<char> {
    match v {
        Json::Str(s) => s,
        Json::Num(_) => text_of_json(v),
        Json::Bool(_) => text_of_json(v),
        _ => Seq::empty(),
    }
}

/// The scalar under a key as text; empty where there is none.
pub open spec fn text_field(v: Json, key: Seq<char>) -> Seq<char> {
    match field(v, key) {
        Some(x) => scalar_text(x),
        None => Seq::empty(),
    }
}

/// A text as it is, null as nothing, any other value as its JSON text.
pub open spec fn raw_text(v: Json) -> Seq<char> {
    match v {
        Json::Str(s) => s,
        Json::Null => Seq::empty(),
        _ => text_of_json(v),
    }
}

/// The parts of a message's content: the items of a list, or a single object.
pub open spec fn parts_of(v: Json) -> Seq<Json> {
    match v {
        Json::Arr(items) => items,
        Json::Obj(_) => seq![v],
        _ => Seq::empty(),
    }
}

/// The text of one part.
pub open spec fn part_text(v: Json) -> Seq<char> {
    match v {
        Json::Str(s) => s,
        _ => text_field(v, "text"@),
    }
}

/// The texts of some parts in a row.
pub open spec fn joined_text(parts: Seq<Json>) -> Seq<char>
    decreases parts.len(),
{
    if parts.len() == 0 {
        Seq::empty()
    } else {
        joined_text(parts.drop_last()) + part_text(parts.last())
    }
}

/// All text of a message's content.
pub open spec fn text_of_content(v: Json) -> Seq<char> {
    match v {
        Json::Str(s) => s,
        _ => joined_text(parts_of(v)),
    }
}

/// The first item of the list under a key.
pub open spec fn first_of(v: Json, key: Seq<char>) -> Option<Json> {
    match field(v, key) {
        Some(Json::Arr(items)) => if items.len() > 0 {
            Some(items[0])
        } else {
            None
        },
        Some(Json::Obj(o)) => find(o, "0"@),
        _ => None,
    }
}

/// What stands under two keys, one inside the other.
pub open spec fn inner_field(v: Json, outer: Seq<char>, inner: Seq<char>) -> Option<Json> {
    match field(v, outer) {
        Some(o) => field(o, inner),
        None => None,
    }
}

/// What is there and counts as true.
pub open spec fn if_truthy(v: Option<Json>) -> Option<Json> {
    match v {
        Some(x) => if truthy(x) {
            Some(x)
        } else {
            None
        },
        None => None,
    }
}

pub fn string_value(v: &JsonValue) -> (out: String)
    ensures
        out@ == scalar_text(v@),
{
    match v {
        JsonValue::Str(s) => s.clone(),
        JsonValue::Num(_) => render_json(v),
        JsonValue::Bool(_) => render_json(v),
        _ => {
            let out = String::new();
            assert(out@ =~= Seq::empty());
            out
        },
    }
}

pub fn string_field(v: &JsonValue, key: &str) -> (out: String)
    ensures
        out@ == text_field(v@, key@),
{
    match v.get(key) {
        Some(x) => string_value(x),
        None => {
            let out = String::new();
            assert(out@ =~= Seq::empty());
            out
        },
    }
}

pub fn json_text(v: &JsonValue) -> (out: String)
    ensures
        out@ == raw_text(v@),
{
    match v {
        JsonValue::Str(s) => s.clone(),
        JsonValue::Null => {
            let out = String::new();
            assert(out@ =~= Seq::empty());
            out
        },
        _ => render_json(v),
    }
}

/// The parts of a content by their places.
pub fn content_parts(v: &JsonValue) -> (out: Vec<&JsonValue>)
    ensures
        out@.len() == parts_of(v@).len(),
        forall|i: int| 0 <= i < out@.len() ==> (#[trigger] out@[i])@ == parts_of(v@)[i],
{
    let mut out: Vec<&JsonValue> = Vec::new();
    match v {
        JsonValue::Arr(items) => {
            for i in 0..items.len()
                invariant
                    v@ == Json::Arr(list_view(*items)),
                    out@.len() == i,
                    forall|k: int| 0 <= k < i ==> (#[trigger] out@[k])@ == parts_of(v@)[k],
            {
                out.push(&items[i]);
            }
        },
        JsonValue::Obj(_) => {
            out.push(v);
        },
        _ => {},
    }
    out
}

pub fn content_text(v: &JsonValue) -> (out: String)
    ensures
        out@ == text_of_content(v@),
{
    match v {
        JsonValue::Str(s) => s.clone(),
        _ => {
            let parts = content_parts(v);
            let ghost all = parts_of(v@);
            let mut out = String::new();
            assert(all.take(0) =~= Seq::empty());
            assert(out@ =~= Seq::empty());
            for i in 0..parts.len()
                invariant
                    all == parts_of(v@),
                    parts@.len() == all.len(),
                    forall|k: int| 0 <= k < parts@.len() ==> (#[trigger] parts@[k])@ == all[k],
                    out@ == joined_text(all.take(i as int)),
            {
                assert(all.take(i + 1).drop_last() =~= all.take(i as int));
                assert(parts@[i as int]@ == all[i as int]);
                let text = match parts[i] {
                    JsonValue::Str(s) => s.clone(),
                    other => string_field(other, "text"),
                };
                out.append(text.as_str());
            }
            assert(all.take(all.len() as int) =~= all);
            out
        },
    }
}

pub fn first_item<'a>(v: &'a JsonValue, key: &str) -> (r: Option<&'a JsonValue>)
    ensures
        seen(r) == first_of(v@, key@),
{
    match v.get(key) {
        Some(JsonValue::Arr(items)) => if items.len() > 0 {
            assert(list_view(*items)[0] == items@[0]@);
            Some(&items[0])
        } else {
            None
        },
        Some(JsonValue::Obj(o)) => o.get("0"),
        _ => None,
    }
}

pub fn inner<'a>(v: &'a JsonValue, outer: &str, key: &str) -> (r: Option<&'a JsonValue>)
    ensures
        seen(r) == inner_field(v@, outer@, key@),
{
    match v.get(outer) {
        Some(o) => o.get(key),
        None => None,
    }
}

pub fn truthy_only(v: Option<&JsonValue>) -> (r: Option<&JsonValue>)
    ensures
        seen(r) == if_truthy(seen(v)),
{
    match v {
        Some(x) => if js_truthy(x) {
            Some(x)
        } else {
            None
        },
        None => None,
    }
}

// ─── Fresh ids ───────────────────────────────────────────────

/// Ids that are all different: a seed, which the caller takes from chance, and a count.
pub struct IdPool {
    pub seed: String,
    pub next: u64,
}

/// The plain value of an [`IdPool`].
pub struct IdPoolView {
    pub seed: Seq<char>,
    pub next: u64,
}

impl View for IdPool {
    type V = IdPoolView;

    open spec fn view(&self) -> IdPoolView {
        IdPoolView { seed: self.seed@, next: self.next }
    }
}

/// The next id of a pool.
pub open spec fn fresh_id(pool: IdPoolView, prefix: Seq<char>) -> Seq<char> {
    prefix + "_"@ + (pool.seed + hexadecimal(pool.next as nat))
}

/// The pool after its next id was taken.
pub open spec fn id_taken(pool: IdPoolView) -> IdPoolView {
    IdPoolView { next: wrapping_next(pool.next), ..pool }
}

pub open spec fn wrapping_next(n: u64) -> u64 {
    if n == u64::MAX {
        0
    } else {
        (n + 1) as u64
    }
}

impl IdPool {
    /// [`fresh_id`].
    pub fn fresh(&mut self, prefix: &str) -> (out: String)
        ensures
            out@ == fresh_id(old(self)@, prefix@),
            final(self)@ == id_taken(old(self)@),
    {
        let mut out = concat3(prefix, "_", self.seed.as_str());
        out.append(write_numeral(self.next, 16).as_str());
        assert(out@ =~= fresh_id(old(self)@, prefix@));
        self.next = if self.next == u64::MAX { 0 } else { self.next + 1 };
        out
    }
}

proof fn lemma_numeral_injective(a: nat, b: nat)
    requires
        numeral_in(a, 16) == numeral_in(b, 16),
    ensures
        a == b,
    decreases a,
{
    let x = numeral_in(a, 16);
    let y = numeral_in(b, 16);
    lemma_numeral_length(a);
    lemma_numeral_length(b);
    assert(x.last() == y.last());
    assert(x.drop_last() == y.drop_last());
    if a >= 16 && b >= 16 {
        assert(x.drop_last() =~= numeral_in(a / 16, 16));
        assert(y.drop_last() =~= numeral_in(b / 16, 16));
        lemma_numeral_injective(a / 16, b / 16);
        assert(x.last() == digit(a % 16));
        assert(y.last() == digit(b % 16));
        lemma_digit_injective(a % 16, b % 16);
    } else if a < 16 && b < 16 {
        assert(x.last() == digit(a));
        assert(y.last() == digit(b));
        lemma_digit_injective(a, b);
    }
}

proof fn lemma_numeral_length(n: nat)
    ensures
        numeral_in(n, 16).len() >= 1,
        n >= 16 <==> numeral_in(n, 16).len() >= 2,
    decreases n,
{
    if n >= 16 {
        lemma_numeral_length(n / 16);
    }
}

proof fn lemma_digit_injective(a: nat, b: nat)
    requires
        a < 16,
        b < 16,
        digit(a) == digit(b),
    ensures
        a == b,
{
    let x = if a < 10 {
        48 + a
    } else {
        87 + a
    };
    let y = if b < 10 {
        48 + b
    } else {
        87 + b
    };
    assert(digit(a) as u32 == x);
    assert(digit(b) as u32 == y);
}

/// Two ids of one pool with the same prefix are the same only where the counts are.
pub proof fn fresh_ids_differ(pool: IdPoolView, other: IdPoolView, prefix: Seq<char>)
    requires
        pool.seed == other.seed,
        fresh_id(pool, prefix) == fresh_id(other, prefix),
    ensures
        pool.next == other.next,
{
    let start = (prefix + "_"@ + pool.seed).len() as int;
    let a = fresh_id(pool, prefix);
    let b = fresh_id(other, prefix);
    assert(a.skip(start) =~= hexadecimal(pool.next as nat));
    assert(b.skip(start) =~= hexadecimal(other.next as nat));
    lemma_numeral_injective(pool.next as nat, other.next as nat);
}

// ─── Events ──────────────────────────────────────────────────

/// An event of a stream, before it is written as a frame.
pub struct StreamEvent {
    pub name: String,
    pub data: JsonValue,
}

/// The plain value of a [`StreamEvent`].
#[verifier::ext_equal]
pub struct EventView {
    pub name: Seq<char>,
    pub data: Json,
}

impl View for StreamEvent {
    type V = EventView;

    open spec fn view(&self) -> EventView {
        EventView { name: self.name@, data: self.data@ }
    }
}

pub open spec fn events_view(events: Seq<StreamEvent>) -> Seq<EventView> {
    events.map_values(|e: StreamEvent| e@)
}

/// The frame of a server-sent event.
pub open spec fn frame_of(e: EventView) -> Seq<char> {
    "event: "@ + e.name + "\ndata: "@ + text_of_json(e.data) + "\n\n"@
}

/// [`frame_of`].
pub fn event_frame(event: &StreamEvent) -> (out: String)
    ensures
        out@ == frame_of(event@),
{
    let mut out = concat("event: ", event.name.as_str());
    out.append("\ndata: ");
    out.append(render_json(&event.data).as_str());
    out.append("\n\n");
    out
}

} // verus!
