//! What a client that reads the events of a stream, and nothing else, gets to see.
//!
//! The client appends pieces of text and of reasoning as they come, remembers which item was
//! announced last, and takes down the items that are done.
use vstd::prelude::*;
use crate::json::{
    field, find, find_of_put, json_int, json_of_text, lemma_find_at, put, text_of_json, Fields,
    Json,
};
use crate::order::{order_holds_every_position, order_is_stable_sort, stable_order};
use crate::protocol::answer_laws::{ends_as, envelope_tells_all};
use crate::protocol::responses::{
    call_item, carried_reasoning, envelope, finished_part, message_item, responses_usage, status_for,
};
use crate::protocol::responses_stream::{
    all_ended, announced, announces, call_data, call_events, call_written, calls_written,
    chunk_consumed, chunk_delta, created_data, delta_written, emit, ended, error_code,
    error_message, failed, failed_response, final_reason, final_response, finished_with, item_data,
    item_keys, next_number, noted, open_message, open_part, part_data, payloads_consumed, piece,
    reasoning_begun, reasoning_ended, reasoning_entry, reasoning_writing, reasoning_written,
    rest_consumed, sorted_items, started, summary_part, text_begun, text_consumed, text_ended,
    text_written, tool_announced, tool_begun, tool_ended, tool_extended, tool_final, tool_key,
    tool_place, tools_ended, Step, StreamView, ToolView,
};
use crate::text::{begins, ends};
use crate::protocol::{frame_of, fresh_id, id_taken, if_truthy, inner_field, EventView};

verus! {

// ─── The client ──────────────────────────────────────────────

/// What a client knows.
#[verifier::ext_equal]
pub struct Reader {
    pub text: Seq<char>,
    pub reasoning: Seq<char>,
    /// How many messages were announced, and the text since the last of them was.
    pub messages: nat,
    pub spoken: Seq<char>,
    /// The place and the id of the message that was announced last.
    pub message: Option<(Json, Json)>,
    /// The same of reasoning.
    pub thought: Option<(Json, Json)>,
    /// The places and the items that are done.
    pub done: Seq<(Json, Json)>,
}

pub open spec fn blank_reader() -> Reader {
    Reader {
        text: Seq::empty(),
        reasoning: Seq::empty(),
        messages: 0,
        spoken: Seq::empty(),
        message: None,
        thought: None,
        done: Seq::empty(),
    }
}

/// What an event holds under a key; null where there is nothing.
pub open spec fn told(e: EventView, key: Seq<char>) -> Json {
    match field(e.data, key) {
        Some(v) => v,
        None => Json::Null,
    }
}

/// The same of a value.
pub open spec fn part_of(v: Json, key: Seq<char>) -> Json {
    match field(v, key) {
        Some(x) => x,
        None => Json::Null,
    }
}

/// The first item of a list.
pub open spec fn head_of(v: Json) -> Json {
    match v {
        Json::Arr(items) => if items.len() > 0 {
            items[0]
        } else {
            Json::Null
        },
        _ => Json::Null,
    }
}

pub open spec fn said(v: Json) -> Seq<char> {
    match v {
        Json::Str(s) => s,
        _ => Seq::empty(),
    }
}

/// The client after one more event.
pub open spec fn reads(r: Reader, e: EventView) -> Reader {
    let item = told(e, "item"@);
    let place = (told(e, "output_index"@), part_of(item, "id"@));
    if e.name == "response.output_text.delta"@ {
        Reader {
            text: r.text + said(told(e, "delta"@)),
            spoken: r.spoken + said(told(e, "delta"@)),
            ..r
        }
    } else if e.name == "response.reasoning_summary_text.delta"@ {
        Reader { reasoning: r.reasoning + said(told(e, "delta"@)), ..r }
    } else if e.name == "response.output_item.added"@ {
        if part_of(item, "type"@) == Json::Str("message"@) {
            Reader {
                message: Some(place),
                messages: r.messages + 1,
                spoken: Seq::empty(),
                ..r
            }
        } else if part_of(item, "type"@) == Json::Str("reasoning"@) {
            Reader { thought: Some(place), ..r }
        } else {
            r
        }
    } else if e.name == "response.output_item.done"@ {
        Reader { done: r.done.push((told(e, "output_index"@), item)), ..r }
    } else {
        r
    }
}

/// The client after some events.
pub open spec fn reader_of(events: Seq<EventView>) -> Reader
    decreases events.len(),
{
    if events.len() == 0 {
        blank_reader()
    } else {
        reads(reader_of(events.drop_last()), events.last())
    }
}

/// The event agrees with what the client knows: a piece belongs to the item that was announced
/// last, and what is said to be the whole is what the client put together. The text of a message
/// is what was said since it was announced; where text goes on after a call it comes in a message
/// of its own, whose whole is all the text so far.
pub open spec fn agrees(r: Reader, e: EventView) -> bool {
    let place = (told(e, "output_index"@), told(e, "item_id"@));
    let item = told(e, "item"@);
    let item_place = (told(e, "output_index"@), part_of(item, "id"@));
    &&& e.name == "response.output_text.delta"@ ==> r.message == Some(place)
    &&& e.name == "response.output_text.done"@ ==> r.message == Some(place) && told(e, "text"@)
        == Json::Str(r.text)
    &&& e.name == "response.output_text.done"@ && r.messages == 1 ==> told(e, "text"@) == Json::Str(
        r.spoken,
    )
    &&& e.name == "response.content_part.added"@ ==> r.message == Some(place)
    &&& e.name == "response.content_part.done"@ ==> r.message == Some(place) && part_of(
        told(e, "part"@),
        "text"@,
    ) == Json::Str(r.text)
    &&& e.name == "response.reasoning_summary_part.added"@ ==> r.thought == Some(place)
    &&& e.name == "response.reasoning_summary_part.done"@ ==> r.thought == Some(place) && part_of(
        told(e, "part"@),
        "text"@,
    ) == Json::Str(r.reasoning)
    &&& e.name == "response.reasoning_summary_text.delta"@ ==> r.thought == Some(place)
    &&& e.name == "response.reasoning_summary_text.done"@ ==> r.thought == Some(place) && told(
        e,
        "text"@,
    ) == Json::Str(r.reasoning)
    &&& e.name == "response.output_item.done"@ && part_of(item, "type"@) == Json::Str("message"@)
        ==> {
        &&& r.message == Some(item_place)
        &&& part_of(item, "role"@) == Json::Str("assistant"@)
        &&& part_of(item, "status"@) == Json::Str("completed"@)
        &&& part_of(head_of(part_of(item, "content"@)), "text"@) == Json::Str(r.text)
    }
    &&& e.name == "response.output_item.done"@ && part_of(item, "type"@) == Json::Str("reasoning"@)
        ==> {
        &&& r.thought == Some(item_place)
        &&& part_of(item, "status"@) == Json::Str("completed"@)
        &&& part_of(head_of(part_of(item, "summary"@)), "text"@) == Json::Str(r.reasoning)
    }
}

/// Every event agrees with what the client knew when it came.
pub open spec fn agreeable(events: Seq<EventView>) -> bool
    decreases events.len(),
{
    events.len() == 0 || (agreeable(events.drop_last()) && agrees(
        reader_of(events.drop_last()),
        events.last(),
    ))
}

/// The items of the answer so far, as a client would have them.
pub open spec fn told_items(items: Seq<(i64, Json)>) -> Seq<(Json, Json)> {
    items.map_values(|e: (i64, Json)| (json_int(e.0 as int), e.1))
}

/// The stream and its client are of one mind.
pub open spec fn of_one_mind(s: Step) -> bool {
    let r = reader_of(s.events);
    &&& agreeable(s.events)
    &&& r.text == s.state.text
    &&& r.messages == 0 ==> r.text.len() == 0 && r.message is None
    &&& r.messages <= 1 ==> r.spoken == r.text
    &&& r.reasoning == s.state.reasoning
    &&& s.state.text_open ==> r.message == Some(
        (json_int(s.state.text_index as int), Json::Str(s.state.text_id)),
    )
    &&& s.state.reasoning_open ==> r.thought == Some(
        (json_int(s.state.reasoning_index as int), Json::Str(s.state.reasoning_id)),
    )
    &&& r.done == told_items(s.state.output_items)
}

// ─── Names and entries ───────────────────────────────────────

pub proof fn lemma_event_names()
    ensures
        "response.output_text.delta"@ != "response.output_item.added"@,
        "response.output_text.delta"@ != "response.content_part.done"@,
        "response.output_item.added"@ != "response.content_part.done"@,
        "response.output_text.done"@ != "response.output_item.done"@,
        "response.reasoning_summary_text.delta"@ != "response.reasoning_summary_part.added"@,
        "response.reasoning_summary_text.done"@ != "response.reasoning_summary_part.done"@,
        "response.reasoning_summary_text.delta"@ != "response.function_call_arguments.done"@,
        "response.reasoning_summary_part.added"@ != "response.function_call_arguments.done"@,
        "response.output_text.delta"@.len() == 26,
        "response.output_item.added"@.len() == 26,
        "response.content_part.done"@.len() == 26,
        "response.output_text.done"@.len() == 25,
        "response.output_item.done"@.len() == 25,
        "response.reasoning_summary_text.delta"@.len() == 37,
        "response.reasoning_summary_part.added"@.len() == 37,
        "response.function_call_arguments.done"@.len() == 37,
        "response.reasoning_summary_text.done"@.len() == 36,
        "response.reasoning_summary_part.done"@.len() == 36,
        "response.function_call_arguments.delta"@.len() == 38,
        "response.content_part.added"@.len() == 27,
        "response.created"@.len() == 16,
        "response.completed"@.len() == 18,
        "response.failed"@.len() == 15,
        "error"@.len() == 5,
{
    reveal_strlit("response.output_text.delta");
    reveal_strlit("response.output_item.added");
    reveal_strlit("response.content_part.done");
    reveal_strlit("response.output_text.done");
    reveal_strlit("response.output_item.done");
    reveal_strlit("response.reasoning_summary_text.delta");
    reveal_strlit("response.reasoning_summary_part.added");
    reveal_strlit("response.function_call_arguments.done");
    reveal_strlit("response.reasoning_summary_text.done");
    reveal_strlit("response.reasoning_summary_part.done");
    reveal_strlit("response.function_call_arguments.delta");
    reveal_strlit("response.content_part.added");
    reveal_strlit("response.created");
    reveal_strlit("response.completed");
    reveal_strlit("response.failed");
    reveal_strlit("error");
    assert("response.output_text.delta"@[16] != "response.output_item.added"@[16]);
    assert("response.output_text.delta"@[9] != "response.content_part.done"@[9]);
    assert("response.output_item.added"@[9] != "response.content_part.done"@[9]);
    assert("response.output_text.done"@[16] != "response.output_item.done"@[16]);
    assert("response.reasoning_summary_text.delta"@[27]
        != "response.reasoning_summary_part.added"@[27]);
    assert("response.reasoning_summary_text.done"@[27]
        != "response.reasoning_summary_part.done"@[27]);
    assert("response.reasoning_summary_text.delta"@[9]
        != "response.function_call_arguments.done"@[9]);
    assert("response.reasoning_summary_part.added"@[9]
        != "response.function_call_arguments.done"@[9]);
}

pub proof fn lemma_keys()
    ensures
        "output_index"@.len() == 12,
        "item_id"@.len() == 7,
        "content_index"@.len() == 13,
        "summary_index"@.len() == 13,
        "delta"@.len() == 5,
        "text"@.len() == 4,
        "part"@.len() == 4,
        "item"@.len() == 4,
        "type"@.len() == 4,
        "text"@ != "part"@,
        "text"@ != "type"@,
        "part"@ != "type"@,
        "item"@ != "type"@,
        "item"@ != "text"@,
        "sequence_number"@.len() == 15,
        "arguments"@.len() == 9,
        "call_id"@.len() == 7,
        "call_id"@ != "item_id"@,
        "name"@.len() == 4,
        "name"@ != "item"@,
        "name"@ != "type"@,
        "name"@ != "text"@,
        "response"@.len() == 8,
        "code"@.len() == 4,
        "code"@ != "type"@,
        "code"@ != "item"@,
        "message"@.len() == 7,
        "param"@.len() == 5,
{
    reveal_strlit("output_index");
    reveal_strlit("item_id");
    reveal_strlit("content_index");
    reveal_strlit("summary_index");
    reveal_strlit("delta");
    reveal_strlit("text");
    reveal_strlit("part");
    reveal_strlit("item");
    reveal_strlit("type");
    reveal_strlit("sequence_number");
    reveal_strlit("arguments");
    reveal_strlit("call_id");
    reveal_strlit("name");
    reveal_strlit("response");
    reveal_strlit("code");
    reveal_strlit("message");
    reveal_strlit("param");
    assert("text"@[0] == 't' && "part"@[0] == 'p' && "item"@[0] == 'i' && "type"@[0] == 't');
    assert("text"@[1] == 'e' && "type"@[1] == 'y');
    assert("call_id"@[0] == 'c' && "item_id"@[0] == 'i');
    assert("name"@[0] == 'n');
    assert("code"@[0] == 'c');
}

/// What an event is told under a key is what its data hold.
pub proof fn lemma_told(s: Step, name: Seq<char>, data: Fields, key: Seq<char>)
    requires
        key != "type"@,
        key != "sequence_number"@,
    ensures
        field(emit(s, name, data).events.last().data, key) == find(data, key),
{
    broadcast use find_of_put;

}

proof fn lemma_part_data(
    index: i64,
    id: Seq<char>,
    which: Seq<char>,
    key: Seq<char>,
    value: Json,
)
    requires
        which == "content_index"@ || which == "summary_index"@,
        key == "delta"@ || key == "text"@ || key == "part"@,
    ensures
        find(part_data(index, id, which, key, value), "output_index"@) == Some(
            json_int(index as int),
        ),
        find(part_data(index, id, which, key, value), "item_id"@) == Some(Json::Str(id)),
        find(part_data(index, id, which, key, value), key) == Some(value),
{
    lemma_keys();
    let o = part_data(index, id, which, key, value);
    lemma_find_at(o, "output_index"@, 0);
    lemma_find_at(o, "item_id"@, 1);
    lemma_find_at(o, key, 3);
}

proof fn lemma_item_data(index: i64, item: Json)
    ensures
        find(item_data(index, item), "output_index"@) == Some(json_int(index as int)),
        find(item_data(index, item), "item"@) == Some(item),
{
    lemma_keys();
    let o = item_data(index, item);
    lemma_find_at(o, "output_index"@, 0);
    lemma_find_at(o, "item"@, 1);
}

// ─── One event ───────────────────────────────────────────────

/// One more event: the client reads it, and it has to agree.
proof fn lemma_read_event(s: Step, name: Seq<char>, data: Fields)
    ensures
        ({
            let t = emit(s, name, data);
            &&& reader_of(t.events) == reads(reader_of(s.events), t.events.last())
            &&& t.events.last().name == name
            &&& agreeable(t.events) == (agreeable(s.events) && agrees(
                reader_of(s.events),
                t.events.last(),
            ))
        }),
{
    let t = emit(s, name, data);
    assert(t.events.drop_last() =~= s.events);
}

/// An event that means nothing to the client.
proof fn lemma_silent(s: Step, name: Seq<char>, data: Fields)
    requires
        of_one_mind(s),
        name == "response.created"@ || name == "response.completed"@ || name == "response.failed"@
            || name == "error"@ || name == "response.function_call_arguments.delta"@ || name
            == "response.function_call_arguments.done"@,
    ensures
        of_one_mind(emit(s, name, data)),
        reader_of(emit(s, name, data).events) == reader_of(s.events),
{
    lemma_event_names();
    lemma_read_event(s, name, data);
}

/// Changes of the state that the client does not see.
proof fn lemma_same_mind(s: Step, t: Step)
    requires
        of_one_mind(s),
        t.events == s.events,
        t.state.text == s.state.text,
        t.state.reasoning == s.state.reasoning,
        t.state.text_open == s.state.text_open,
        t.state.text_index == s.state.text_index,
        t.state.text_id == s.state.text_id,
        t.state.reasoning_open == s.state.reasoning_open,
        t.state.reasoning_index == s.state.reasoning_index,
        t.state.reasoning_id == s.state.reasoning_id,
        t.state.output_items == s.state.output_items,
    ensures
        of_one_mind(t),
{
}

// ─── Items ───────────────────────────────────────────────────

pub proof fn lemma_item_keys()
    ensures
        "id"@.len() == 2,
        "type"@.len() == 4,
        "status"@.len() == 6,
        "summary"@.len() == 7,
        "role"@.len() == 4,
        "content"@.len() == 7,
        "summary"@ != "content"@,
        "role"@ != "type"@,
        "text"@.len() == 4,
        "text"@ != "type"@,
        "annotations"@.len() == 11,
        "logprobs"@.len() == 8,
        "call_id"@.len() == 7,
        "name"@.len() == 4,
        "name"@ != "type"@,
        "arguments"@.len() == 9,
        "message"@.len() == 7,
        "reasoning"@.len() == 9,
        "function_call"@.len() == 13,
{
    reveal_strlit("id");
    reveal_strlit("type");
    reveal_strlit("status");
    reveal_strlit("summary");
    reveal_strlit("role");
    reveal_strlit("content");
    reveal_strlit("text");
    reveal_strlit("annotations");
    reveal_strlit("logprobs");
    reveal_strlit("call_id");
    reveal_strlit("name");
    reveal_strlit("arguments");
    reveal_strlit("message");
    reveal_strlit("reasoning");
    reveal_strlit("function_call");
    assert("summary"@[0] == 's' && "content"@[0] == 'c');
    assert("role"@[0] == 'r' && "type"@[0] == 't' && "name"@[0] == 'n');
    assert("text"@[1] == 'e' && "type"@[1] == 'y');
}

pub proof fn lemma_reasoning_entry(id: Seq<char>, status: Seq<char>, summary: Seq<Json>)
    ensures
        ({
            let item = reasoning_entry(id, status, summary);
            &&& part_of(item, "type"@) == Json::Str("reasoning"@)
            &&& part_of(item, "id"@) == Json::Str(id)
            &&& part_of(item, "status"@) == Json::Str(status)
            &&& part_of(item, "summary"@) == Json::Arr(summary)
        }),
{
    lemma_item_keys();
    let o = reasoning_entry(id, status, summary)->Obj_0;
    lemma_find_at(o, "type"@, 0);
    lemma_find_at(o, "id"@, 1);
    lemma_find_at(o, "status"@, 2);
    lemma_find_at(o, "summary"@, 3);
}

proof fn lemma_summary_part(text: Seq<char>)
    ensures
        part_of(summary_part(text), "text"@) == Json::Str(text),
{
    lemma_item_keys();
    lemma_find_at(summary_part(text)->Obj_0, "text"@, 1);
}

pub proof fn lemma_open_message(id: Seq<char>)
    ensures
        part_of(open_message(id), "type"@) == Json::Str("message"@),
        part_of(open_message(id), "id"@) == Json::Str(id),
{
    lemma_item_keys();
    let o = open_message(id)->Obj_0;
    lemma_find_at(o, "type"@, 0);
    lemma_find_at(o, "id"@, 1);
}

/// A finished message says that it is one, who speaks, and what is said.
pub proof fn lemma_message_item(id: Seq<char>, text: Seq<char>)
    ensures
        ({
            let item = message_item(id, text);
            &&& part_of(item, "type"@) == Json::Str("message"@)
            &&& part_of(item, "id"@) == Json::Str(id)
            &&& part_of(item, "status"@) == Json::Str("completed"@)
            &&& part_of(item, "role"@) == Json::Str("assistant"@)
            &&& part_of(head_of(part_of(item, "content"@)), "text"@) == Json::Str(text)
            &&& part_of(head_of(part_of(item, "content"@)), "type"@) == Json::Str("output_text"@)
        }),
{
    lemma_item_keys();
    let o = message_item(id, text)->Obj_0;
    lemma_find_at(o, "type"@, 0);
    lemma_find_at(o, "id"@, 1);
    lemma_find_at(o, "status"@, 2);
    lemma_find_at(o, "role"@, 3);
    lemma_find_at(o, "content"@, 4);
    let part = finished_part(text)->Obj_0;
    lemma_find_at(part, "type"@, 0);
    lemma_find_at(part, "text"@, 1);
    assert(head_of(part_of(message_item(id, text), "content"@)) == finished_part(text));
}

/// A call says that it is one, under which id it is answered, what is called and with what.
pub proof fn lemma_call_item(
    id: Seq<char>,
    status: Seq<char>,
    call_id: Seq<char>,
    name: Seq<char>,
    arguments: Seq<char>,
)
    ensures
        ({
            let item = call_item(id, status, call_id, name, arguments);
            &&& part_of(item, "type"@) == Json::Str("function_call"@)
            &&& part_of(item, "id"@) == Json::Str(id)
            &&& part_of(item, "status"@) == Json::Str(status)
            &&& part_of(item, "call_id"@) == Json::Str(call_id)
            &&& part_of(item, "name"@) == Json::Str(name)
            &&& part_of(item, "arguments"@) == Json::Str(arguments)
        }),
{
    lemma_item_keys();
    let o = call_item(id, status, call_id, name, arguments)->Obj_0;
    lemma_find_at(o, "type"@, 0);
    lemma_find_at(o, "id"@, 1);
    lemma_find_at(o, "status"@, 2);
    lemma_find_at(o, "call_id"@, 3);
    lemma_find_at(o, "name"@, 4);
    lemma_find_at(o, "arguments"@, 5);
}

// ─── Reasoning and text ──────────────────────────────────────

pub proof fn lemma_item_event(s: Step, name: Seq<char>, index: i64, item: Json)
    ensures
        ({
            let e = emit(s, name, item_data(index, item)).events.last();
            &&& told(e, "output_index"@) == json_int(index as int)
            &&& told(e, "item"@) == item
        }),
{
    lemma_keys();
    lemma_item_data(index, item);
    lemma_told(s, name, item_data(index, item), "output_index"@);
    lemma_told(s, name, item_data(index, item), "item"@);
}

proof fn lemma_part_event(
    s: Step,
    name: Seq<char>,
    index: i64,
    id: Seq<char>,
    which: Seq<char>,
    key: Seq<char>,
    value: Json,
)
    requires
        which == "content_index"@ || which == "summary_index"@,
        key == "delta"@ || key == "text"@ || key == "part"@,
    ensures
        ({
            let e = emit(s, name, part_data(index, id, which, key, value)).events.last();
            &&& told(e, "output_index"@) == json_int(index as int)
            &&& told(e, "item_id"@) == Json::Str(id)
            &&& told(e, key) == value
        }),
{
    lemma_keys();
    let data = part_data(index, id, which, key, value);
    lemma_part_data(index, id, which, key, value);
    lemma_told(s, name, data, "output_index"@);
    lemma_told(s, name, data, "item_id"@);
    lemma_told(s, name, data, key);
}

proof fn lemma_mind_reasoning_begun(s: Step)
    requires
        of_one_mind(s),
    ensures
        of_one_mind(reasoning_begun(s)),
        reader_of(reasoning_begun(s).events).text == reader_of(s.events).text,
        reader_of(reasoning_begun(s).events).reasoning == reader_of(s.events).reasoning,
        reasoning_begun(s).state.reasoning_open,
{
    if !s.state.reasoning_open {
        lemma_event_names();
        lemma_item_keys();
        let id = fresh_id(s.state.ids, "rs"@);
        let index = s.state.next_index;
        let t = Step {
            state: StreamView {
                reasoning_open: true,
                reasoning_index: index,
                next_index: next_number(index),
                reasoning_id: id,
                ids: id_taken(s.state.ids),
                ..s.state
            },
            ..s
        };
        let item = reasoning_entry(id, "in_progress"@, Seq::empty());
        lemma_reasoning_entry(id, "in_progress"@, Seq::empty());
        lemma_item_event(t, "response.output_item.added"@, index, item);
        lemma_read_event(t, "response.output_item.added"@, item_data(index, item));
        let u = emit(t, "response.output_item.added"@, item_data(index, item));
        assert(of_one_mind(u));
        let part = summary_part(Seq::empty());
        lemma_part_event(
            u,
            "response.reasoning_summary_part.added"@,
            index,
            id,
            "summary_index"@,
            "part"@,
            part,
        );
        lemma_read_event(
            u,
            "response.reasoning_summary_part.added"@,
            part_data(index, id, "summary_index"@, "part"@, part),
        );
    }
}

proof fn lemma_mind_text_begun(s: Step)
    requires
        of_one_mind(s),
    ensures
        of_one_mind(text_begun(s)),
        reader_of(text_begun(s).events).text == reader_of(s.events).text,
        reader_of(text_begun(s).events).reasoning == reader_of(s.events).reasoning,
        text_begun(s).state.text_open,
{
    if !s.state.text_open {
        lemma_event_names();
        lemma_item_keys();
        let id = fresh_id(s.state.ids, "msg"@);
        let index = s.state.next_index;
        let t = Step {
            state: StreamView {
                text_open: true,
                text_index: index,
                next_index: next_number(index),
                text_id: id,
                ids: id_taken(s.state.ids),
                ..s.state
            },
            ..s
        };
        if reader_of(s.events).messages == 0 {
            assert(reader_of(s.events).text =~= Seq::empty());
        }
        lemma_open_message(id);
        lemma_item_event(t, "response.output_item.added"@, index, open_message(id));
        lemma_read_event(t, "response.output_item.added"@, item_data(index, open_message(id)));
        let u = emit(t, "response.output_item.added"@, item_data(index, open_message(id)));
        assert(of_one_mind(u));
        lemma_part_event(
            u,
            "response.content_part.added"@,
            index,
            id,
            "content_index"@,
            "part"@,
            open_part(),
        );
        lemma_read_event(
            u,
            "response.content_part.added"@,
            part_data(index, id, "content_index"@, "part"@, open_part()),
        );
    }
}

proof fn lemma_told_items_push(items: Seq<(i64, Json)>, index: i64, item: Json)
    ensures
        told_items(items.push((index, item))) == told_items(items).push(
            (json_int(index as int), item),
        ),
{
    assert(told_items(items.push((index, item))) =~= told_items(items).push(
        (json_int(index as int), item),
    ));
}

proof fn lemma_mind_reasoning_ended(s: Step)
    requires
        of_one_mind(s),
    ensures
        of_one_mind(reasoning_ended(s)),
        reader_of(reasoning_ended(s).events).text == reader_of(s.events).text,
        reader_of(reasoning_ended(s).events).reasoning == reader_of(s.events).reasoning,
{
    if reasoning_writing(s.state) {
        lemma_event_names();
        lemma_item_keys();
        let id = s.state.reasoning_id;
        let index = s.state.reasoning_index;
        let text = s.state.reasoning;
        let item = reasoning_entry(id, "completed"@, seq![summary_part(text)]);
        let closed = StreamView { reasoning_closed: true, ..s.state };
        let t = Step { state: closed, ..s };
        lemma_same_mind(s, t);
        let d1 = part_data(index, id, "summary_index"@, "text"@, Json::Str(text));
        lemma_part_event(
            t,
            "response.reasoning_summary_text.done"@,
            index,
            id,
            "summary_index"@,
            "text"@,
            Json::Str(text),
        );
        lemma_read_event(t, "response.reasoning_summary_text.done"@, d1);
        let u = emit(t, "response.reasoning_summary_text.done"@, d1);
        assert(of_one_mind(u));
        let d2 = part_data(index, id, "summary_index"@, "part"@, summary_part(text));
        lemma_summary_part(text);
        lemma_part_event(
            u,
            "response.reasoning_summary_part.done"@,
            index,
            id,
            "summary_index"@,
            "part"@,
            summary_part(text),
        );
        lemma_read_event(u, "response.reasoning_summary_part.done"@, d2);
        let v = emit(u, "response.reasoning_summary_part.done"@, d2);
        lemma_reasoning_entry(id, "completed"@, seq![summary_part(text)]);
        assert(head_of(part_of(item, "summary"@)) == summary_part(text));
        lemma_item_event(v, "response.output_item.done"@, index, item);
        lemma_read_event(v, "response.output_item.done"@, item_data(index, item));
        lemma_told_items_push(s.state.output_items, index, item);
        let w = emit(v, "response.output_item.done"@, item_data(index, item));
        assert(reasoning_ended(s).events == w.events);
        assert(reasoning_ended(s).state.output_items == s.state.output_items.push((index, item)));
    }
}

proof fn lemma_mind_text_ended(s: Step)
    requires
        of_one_mind(s),
    ensures
        of_one_mind(text_ended(s)),
        reader_of(text_ended(s).events).text == reader_of(s.events).text,
        reader_of(text_ended(s).events).reasoning == reader_of(s.events).reasoning,
{
    if s.state.text_open {
        lemma_event_names();
        lemma_item_keys();
        let id = s.state.text_id;
        let index = s.state.text_index;
        let text = s.state.text;
        let item = message_item(id, text);
        let d1 = part_data(index, id, "content_index"@, "text"@, Json::Str(text));
        lemma_part_event(
            s,
            "response.output_text.done"@,
            index,
            id,
            "content_index"@,
            "text"@,
            Json::Str(text),
        );
        lemma_read_event(s, "response.output_text.done"@, d1);
        let u = emit(s, "response.output_text.done"@, d1);
        assert(of_one_mind(u));
        let d2 = part_data(index, id, "content_index"@, "part"@, finished_part(text));
        lemma_message_item(id, text);
        assert(head_of(part_of(item, "content"@)) == finished_part(text)) by {
            lemma_find_at(item->Obj_0, "content"@, 4);
        }
        lemma_part_event(
            u,
            "response.content_part.done"@,
            index,
            id,
            "content_index"@,
            "part"@,
            finished_part(text),
        );
        lemma_read_event(u, "response.content_part.done"@, d2);
        let v = emit(u, "response.content_part.done"@, d2);
        lemma_item_event(v, "response.output_item.done"@, index, item);
        lemma_read_event(v, "response.output_item.done"@, item_data(index, item));
        lemma_told_items_push(s.state.output_items, index, item);
        let w = emit(v, "response.output_item.done"@, item_data(index, item));
        assert(text_ended(s).events == w.events);
        assert(text_ended(s).state.output_items == s.state.output_items.push((index, item)));
    }
}

proof fn lemma_mind_reasoning_written(s: Step, text: Seq<char>)
    requires
        of_one_mind(s),
    ensures
        of_one_mind(reasoning_written(s, text)),
        reader_of(reasoning_written(s, text).events).text == reader_of(s.events).text,
        reader_of(reasoning_written(s, text).events).reasoning == reader_of(s.events).reasoning
            + text,
{
    if text.len() > 0 {
        lemma_event_names();
        lemma_mind_reasoning_begun(s);
        let t = reasoning_begun(s);
        let u = Step { state: StreamView { reasoning: t.state.reasoning + text, ..t.state }, ..t };
        let d = part_data(
            u.state.reasoning_index,
            u.state.reasoning_id,
            "summary_index"@,
            "delta"@,
            Json::Str(text),
        );
        lemma_part_event(
            u,
            "response.reasoning_summary_text.delta"@,
            u.state.reasoning_index,
            u.state.reasoning_id,
            "summary_index"@,
            "delta"@,
            Json::Str(text),
        );
        lemma_read_event(u, "response.reasoning_summary_text.delta"@, d);
    } else {
        assert(reader_of(s.events).reasoning + text =~= reader_of(s.events).reasoning);
    }
}

proof fn lemma_mind_text_written(s: Step, text: Seq<char>)
    requires
        of_one_mind(s),
    ensures
        of_one_mind(text_written(s, text)),
        reader_of(text_written(s, text).events).text == reader_of(s.events).text + text,
        reader_of(text_written(s, text).events).reasoning == reader_of(s.events).reasoning,
{
    if text.len() > 0 {
        lemma_event_names();
        lemma_mind_reasoning_ended(s);
        let r = reasoning_ended(s);
        lemma_mind_text_begun(r);
        let t = text_begun(r);
        let u = Step { state: StreamView { text: t.state.text + text, ..t.state }, ..t };
        let d = part_data(
            u.state.text_index,
            u.state.text_id,
            "content_index"@,
            "delta"@,
            Json::Str(text),
        );
        lemma_part_event(
            u,
            "response.output_text.delta"@,
            u.state.text_index,
            u.state.text_id,
            "content_index"@,
            "delta"@,
            Json::Str(text),
        );
        lemma_read_event(u, "response.output_text.delta"@, d);
    } else {
        assert(reader_of(s.events).text + text =~= reader_of(s.events).text);
    }
}

// ─── Calls and whole streams ─────────────────────────────────

proof fn lemma_mind_call_events(s: Step, t: ToolView, now_announced: bool, arguments: Seq<char>)
    requires
        of_one_mind(s),
    ensures
        of_one_mind(call_events(s, t, now_announced, arguments)),
        reader_of(call_events(s, t, now_announced, arguments).events).text == reader_of(
            s.events,
        ).text,
        reader_of(call_events(s, t, now_announced, arguments).events).reasoning == reader_of(
            s.events,
        ).reasoning,
{
    if now_announced {
        lemma_event_names();
        lemma_item_keys();
        let item = call_item(t.item_id, "in_progress"@, t.call_id, t.name, Seq::empty());
        lemma_call_item(t.item_id, "in_progress"@, t.call_id, t.name, Seq::empty());
        lemma_item_event(s, "response.output_item.added"@, t.index, item);
        lemma_read_event(s, "response.output_item.added"@, item_data(t.index, item));
        let u = emit(s, "response.output_item.added"@, item_data(t.index, item));
        assert(of_one_mind(u));
        lemma_silent(
            u,
            "response.function_call_arguments.delta"@,
            call_data(t, "delta"@, t.arguments),
        );
    } else {
        lemma_silent(
            s,
            "response.function_call_arguments.delta"@,
            call_data(t, "delta"@, arguments),
        );
    }
}

proof fn lemma_mind_call_written(s: Step, call: Json)
    requires
        of_one_mind(s),
    ensures
        of_one_mind(call_written(s, call)),
        reader_of(call_written(s, call).events).text == reader_of(s.events).text,
        reader_of(call_written(s, call).events).reasoning == reader_of(s.events).reasoning,
{
    lemma_mind_reasoning_ended(s);
    lemma_mind_text_ended(reasoning_ended(s));
    let t = text_ended(reasoning_ended(s));
    let key = tool_key(call);
    let state = tool_begun(t.state, key);
    let at = tool_place(state.tools, key);
    let tool = tool_extended(state.tools[at], call);
    let arguments = piece(inner_field(call, "function"@, "arguments"@));
    if announces(tool) {
        let full = tool_announced(tool, state.ids);
        let u = Step {
            state: StreamView {
                tools: state.tools.update(at, full),
                ids: if tool.call_id.len() > 0 {
                    state.ids
                } else {
                    id_taken(state.ids)
                },
                ..state
            },
            ..t
        };
        lemma_same_mind(t, u);
        lemma_mind_call_events(u, full, true, arguments);
    } else {
        let u = Step { state: StreamView { tools: state.tools.update(at, tool), ..state }, ..t };
        lemma_same_mind(t, u);
        lemma_mind_call_events(u, tool, false, arguments);
    }
}

proof fn lemma_mind_calls_written(s: Step, calls: Seq<Json>)
    requires
        of_one_mind(s),
    ensures
        of_one_mind(calls_written(s, calls)),
        reader_of(calls_written(s, calls).events).text == reader_of(s.events).text,
        reader_of(calls_written(s, calls).events).reasoning == reader_of(s.events).reasoning,
    decreases calls.len(),
{
    if calls.len() > 0 {
        lemma_mind_calls_written(s, calls.drop_last());
        lemma_mind_call_written(calls_written(s, calls.drop_last()), calls.last());
    }
}

proof fn lemma_mind_tool_ended(s: Step, t: ToolView)
    requires
        of_one_mind(s),
    ensures
        of_one_mind(tool_ended(s, t)),
        reader_of(tool_ended(s, t).events).text == reader_of(s.events).text,
        reader_of(tool_ended(s, t).events).reasoning == reader_of(s.events).reasoning,
{
    lemma_event_names();
    lemma_item_keys();
    let f = tool_final(t, s.state.ids);
    let item = call_item(f.item_id, "completed"@, f.call_id, f.name, f.arguments);
    let ids = if t.call_id.len() > 0 {
        s.state.ids
    } else {
        id_taken(s.state.ids)
    };
    let quiet = Step { state: StreamView { ids, ..s.state }, ..s };
    lemma_same_mind(s, quiet);
    let d = call_data(f, "arguments"@, f.arguments);
    lemma_silent(quiet, "response.function_call_arguments.done"@, d);
    let u = if t.announced {
        emit(quiet, "response.function_call_arguments.done"@, d)
    } else {
        quiet
    };
    lemma_call_item(f.item_id, "completed"@, f.call_id, f.name, f.arguments);
    lemma_item_event(u, "response.output_item.done"@, f.index, item);
    lemma_read_event(u, "response.output_item.done"@, item_data(f.index, item));
    lemma_told_items_push(s.state.output_items, f.index, item);
    let w = emit(u, "response.output_item.done"@, item_data(f.index, item));
    assert(tool_ended(s, t).events =~= w.events);
    assert(tool_ended(s, t).state.output_items == s.state.output_items.push((f.index, item)));
}

proof fn lemma_mind_tools_ended(s: Step, tools: Seq<ToolView>, n: nat)
    requires
        of_one_mind(s),
        n <= tools.len(),
    ensures
        of_one_mind(tools_ended(s, tools, n)),
        reader_of(tools_ended(s, tools, n).events).text == reader_of(s.events).text,
        reader_of(tools_ended(s, tools, n).events).reasoning == reader_of(s.events).reasoning,
    decreases n,
{
    if n > 0 {
        lemma_mind_tools_ended(s, tools, (n - 1) as nat);
        lemma_mind_tool_ended(tools_ended(s, tools, (n - 1) as nat), tools[n - 1]);
    }
}

proof fn lemma_mind_announced(s: Step, now: i64)
    requires
        of_one_mind(s),
    ensures
        of_one_mind(announced(s, now)),
        reader_of(announced(s, now).events) == reader_of(s.events),
{
    if !s.state.created_sent {
        let t = Step { state: StreamView { created_sent: true, ..s.state }, ..s };
        lemma_same_mind(s, t);
        lemma_silent(t, "response.created"@, created_data(s.state, now));
    }
}

proof fn lemma_mind_failed(s: Step, error: Json, now: i64)
    requires
        of_one_mind(s),
    ensures
        of_one_mind(failed(s, error, now)),
        reader_of(failed(s, error, now).events) == reader_of(s.events),
{
    let t = Step { state: StreamView { finished: true, ..s.state }, ..s };
    lemma_same_mind(s, t);
    lemma_mind_announced(t, now);
    let u = announced(t, now);
    let d = seq![
        ("code"@, error_code(error)),
        ("message"@, Json::Str(error_message(error))),
        ("param"@, Json::Null),
    ];
    lemma_silent(u, "error"@, d);
    let v = emit(u, "error"@, d);
    lemma_silent(
        v,
        "response.failed"@,
        seq![("response"@, Json::Obj(failed_response(v.state, error, now)))],
    );
}

/// What the first choice of a chunk adds to the answer. The choices are a list, or an object whose
/// keys are places.
pub open spec fn brought(chunk: Json) -> Json {
    match part_of(chunk, "choices"@) {
        Json::Arr(choices) => part_of(head_of(Json::Arr(choices)), "delta"@),
        choices => part_of(part_of(choices, "0"@), "delta"@),
    }
}

/// The chunk reports an error.
pub open spec fn reports_error(chunk: Json) -> bool {
    if_truthy(field(chunk, "error"@)) is Some
}

/// What a delta or a message holds reasons with this text.
pub open spec fn reasons(v: Json, text: Seq<char>) -> bool {
    let first = part_of(v, "reasoning_content"@);
    let second = part_of(v, "reasoning"@);
    ||| first == Json::Str(text) && text.len() > 0
    ||| (first == Json::Null || first == Json::Str(Seq::empty())) && second == Json::Str(text)
    ||| first == Json::Null && second == Json::Null && text.len() == 0
}

pub proof fn lemma_reasons(v: Json, text: Seq<char>)
    requires
        reasons(v, text),
    ensures
        carried_reasoning(v) == text,
{
    assert(text =~= Seq::empty() || text.len() > 0);
}

proof fn lemma_mind_delta_written(s: Step, delta: Json)
    requires
        of_one_mind(s),
    ensures
        of_one_mind(delta_written(s, delta)),
        reader_of(delta_written(s, delta).events).text == reader_of(s.events).text + said(
            part_of(delta, "content"@),
        ),
        reader_of(delta_written(s, delta).events).reasoning == reader_of(s.events).reasoning
            + carried_reasoning(delta),
{
    let v = reasoning_written(s, carried_reasoning(delta));
    lemma_mind_reasoning_written(s, carried_reasoning(delta));
    let text = piece(field(delta, "content"@));
    lemma_mind_text_written(v, text);
    let w = text_written(v, text);
    match field(delta, "tool_calls"@) {
        Some(Json::Arr(calls)) => {
            lemma_mind_calls_written(w, calls);
        },
        _ => {},
    }
}

proof fn lemma_mind_chunk(s: Step, chunk: Json, now: i64)
    requires
        of_one_mind(s),
    ensures
        of_one_mind(chunk_consumed(s, chunk, now)),
        !s.state.finished && !reports_error(chunk) ==> {
            let r = reader_of(chunk_consumed(s, chunk, now).events);
            &&& r.text == reader_of(s.events).text + said(part_of(brought(chunk), "content"@))
            &&& r.reasoning == reader_of(s.events).reasoning + carried_reasoning(brought(chunk))
        },
        s.state.finished || reports_error(chunk) ==> {
            let r = reader_of(chunk_consumed(s, chunk, now).events);
            &&& r.text == reader_of(s.events).text
            &&& r.reasoning == reader_of(s.events).reasoning
        },
{
    if !s.state.finished {
        match if_truthy(field(chunk, "error"@)) {
            Some(error) => {
                lemma_mind_failed(s, error, now);
            },
            None => {
                let t = Step { state: noted(s.state, chunk), ..s };
                lemma_same_mind(s, t);
                lemma_mind_announced(t, now);
                let u = announced(t, now);
                match chunk_delta(chunk) {
                    Some(delta) => {
                        assert(brought(chunk) == delta);
                        lemma_mind_delta_written(u, delta);
                    },
                    None => {
                        let r = reader_of(s.events);
                        assert(r.text + Seq::<char>::empty() =~= r.text);
                        assert(r.reasoning + Seq::<char>::empty() =~= r.reasoning);
                    },
                }
            },
        }
    }
}

/// A chunk shows the client the text that it brings, and no other text; so with its reasoning.
/// The client and the stream stay of one mind: every piece belongs to the item that was
/// announced last, and a text that is done is all that was shown.
pub proof fn chunk_shows_what_it_brings(s: Step, chunk: Json, now: i64, thought: Seq<char>)
    requires
        of_one_mind(s),
        !s.state.finished,
        !reports_error(chunk),
        reasons(brought(chunk), thought),
    ensures
        of_one_mind(chunk_consumed(s, chunk, now)),
        reader_of(chunk_consumed(s, chunk, now).events).text == reader_of(s.events).text + said(
            part_of(brought(chunk), "content"@),
        ),
        reader_of(chunk_consumed(s, chunk, now).events).reasoning == reader_of(s.events).reasoning
            + thought,
{
    lemma_mind_chunk(s, chunk, now);
    lemma_reasons(brought(chunk), thought);
}

proof fn lemma_mind_all_ended(s: Step)
    requires
        of_one_mind(s),
    ensures
        of_one_mind(all_ended(s)),
        reader_of(all_ended(s).events).text == reader_of(s.events).text,
        reader_of(all_ended(s).events).reasoning == reader_of(s.events).reasoning,
{
    lemma_mind_reasoning_ended(s);
    let t = reasoning_ended(s);
    lemma_mind_text_begun(t);
    let u = if !t.state.text_open && t.state.tools.len() == 0 {
        text_begun(t)
    } else {
        t
    };
    lemma_mind_text_ended(u);
    let v = text_ended(u);
    lemma_mind_tools_ended(v, v.state.tools, v.state.tools.len());
}

/// The end shows no text and no reasoning that was not shown.
pub proof fn end_shows_nothing_new(s: Step, now: i64)
    requires
        of_one_mind(s),
    ensures
        of_one_mind(ended(s, now)),
        reader_of(ended(s, now).events).text == reader_of(s.events).text,
        reader_of(ended(s, now).events).reasoning == reader_of(s.events).reasoning,
{
    if !s.state.finished {
        let t = Step { state: StreamView { finished: true, ..s.state }, ..s };
        lemma_same_mind(s, t);
        lemma_mind_announced(t, now);
        lemma_mind_all_ended(announced(t, now));
        let u = all_ended(announced(t, now));
        lemma_silent(
            u,
            "response.completed"@,
            seq![("response"@, Json::Obj(final_response(u.state, now)))],
        );
    }
}

// ─── Whole streams ───────────────────────────────────────────

/// The text that some payloads bring, joined in order. Text that is no JSON brings nothing.
pub open spec fn text_brought(payloads: Seq<Option<Seq<char>>>) -> Seq<char>
    decreases payloads.len(),
{
    if payloads.len() == 0 {
        Seq::empty()
    } else {
        let before = text_brought(payloads.drop_last());
        match payloads.last() {
            Some(text) => match json_of_text(text) {
                Ok(chunk) => before + said(part_of(brought(chunk), "content"@)),
                Err(_) => before,
            },
            None => before,
        }
    }
}

/// No payload reports an error or marks the end.
pub open spec fn uneventful(payloads: Seq<Option<Seq<char>>>) -> bool {
    forall|i: int|
        0 <= i < payloads.len() ==> {
            &&& (#[trigger] payloads[i]) is Some
            &&& json_of_text(payloads[i]->0) is Ok ==> !reports_error(
                json_of_text(payloads[i]->0)->Ok_0,
            )
        }
}

/// A stream that was started and has given nothing.
pub open spec fn fresh_stream(model: Seq<char>, request: Json, seed: Seq<char>, now: i64) -> Step {
    Step { state: started(model, request, seed, now), events: Seq::empty() }
}

proof fn lemma_mind_fresh(model: Seq<char>, request: Json, seed: Seq<char>, now: i64)
    ensures
        of_one_mind(fresh_stream(model, request, seed, now)),
        reader_of(fresh_stream(model, request, seed, now).events) == blank_reader(),
{
    assert(told_items(Seq::empty()) =~= Seq::empty());
}

proof fn lemma_mind_text(s: Step, text: Seq<char>, now: i64)
    requires
        of_one_mind(s),
    ensures
        of_one_mind(text_consumed(s, text, now)),
        !s.state.finished && (json_of_text(text) is Ok ==> !reports_error(json_of_text(text)->Ok_0))
            ==> {
            let t = text_consumed(s, text, now);
            &&& !t.state.finished
            &&& json_of_text(text) is Ok ==> reader_of(t.events).text == reader_of(s.events).text
                + said(part_of(brought(json_of_text(text)->Ok_0), "content"@))
            &&& json_of_text(text) is Err ==> t == s
        },
{
    match json_of_text(text) {
        Ok(chunk) => {
            lemma_mind_chunk(s, chunk, now);
            crate::protocol::responses_laws::chunk_continues(s, chunk, now);
        },
        Err(_) => {},
    }
}

proof fn lemma_uneventful(payloads: Seq<Option<Seq<char>>>)
    requires
        uneventful(payloads),
        payloads.len() > 0,
    ensures
        uneventful(payloads.drop_last()),
        payloads.last() is Some,
        json_of_text(payloads.last()->0) is Ok ==> !reports_error(
            json_of_text(payloads.last()->0)->Ok_0,
        ),
{
    let short = payloads.drop_last();
    assert(payloads[payloads.len() - 1] == payloads.last());
    assert forall|i: int| 0 <= i < short.len() implies {
        &&& (#[trigger] short[i]) is Some
        &&& json_of_text(short[i]->0) is Ok ==> !reports_error(json_of_text(short[i]->0)->Ok_0)
    } by {
        assert(short[i] == payloads[i]);
    }
}

proof fn lemma_mind_rest(s: Step, rest: Seq<Option<Seq<char>>>, now: i64)
    requires
        of_one_mind(s),
    ensures
        of_one_mind(rest_consumed(s, rest, now)),
    decreases rest.len(),
{
    if rest.len() > 0 {
        lemma_mind_rest(s, rest.drop_last(), now);
        match rest.last() {
            Some(text) => {
                lemma_mind_text(rest_consumed(s, rest.drop_last(), now), text, now);
            },
            None => {},
        }
    }
}

#[verifier::rlimit(60)]
proof fn lemma_rest_text(s: Step, rest: Seq<Option<Seq<char>>>, now: i64)
    requires
        of_one_mind(s),
        uneventful(rest),
        !s.state.finished,
    ensures
        !rest_consumed(s, rest, now).state.finished,
        reader_of(rest_consumed(s, rest, now).events).text == reader_of(s.events).text
            + text_brought(rest),
    decreases rest.len(),
{
    let shown = reader_of(s.events).text;
    if rest.len() > 0 {
        let short = rest.drop_last();
        lemma_uneventful(rest);
        lemma_rest_text(s, short, now);
        lemma_mind_rest(s, short, now);
        let text = rest.last()->0;
        let before = rest_consumed(s, short, now);
        lemma_mind_text(before, text, now);
        assert(rest_consumed(s, rest, now) == text_consumed(before, text, now));
        match json_of_text(text) {
            Ok(chunk) => {
                let piece = said(part_of(brought(chunk), "content"@));
                assert(shown + text_brought(short) + piece =~= shown + (text_brought(short)
                    + piece));
            },
            Err(_) => {},
        }
    } else {
        assert(shown + Seq::<char>::empty() =~= shown);
    }
}

proof fn lemma_mind_finished(s: Step, rest: Seq<Option<Seq<char>>>, now: i64)
    requires
        of_one_mind(s),
    ensures
        of_one_mind(finished_with(s, rest, now)),
{
    if !s.state.finished {
        lemma_mind_rest(s, rest, now);
        end_shows_nothing_new(rest_consumed(s, rest, now), now);
    }
}

proof fn lemma_mind_payloads(
    s: Step,
    payloads: Seq<Option<Seq<char>>>,
    rest: Seq<Option<Seq<char>>>,
    now: i64,
)
    requires
        of_one_mind(s),
    ensures
        of_one_mind(payloads_consumed(s, payloads, rest, now)),
        uneventful(payloads) ==> payloads_consumed(s, payloads, rest, now) == rest_consumed(
            s,
            payloads,
            now,
        ),
    decreases payloads.len(),
{
    if payloads.len() > 0 {
        let short = payloads.drop_last();
        lemma_mind_payloads(s, short, rest, now);
        let before = payloads_consumed(s, short, rest, now);
        if uneventful(payloads) {
            lemma_uneventful(payloads);
        }
        match payloads.last() {
            Some(text) => {
                lemma_mind_text(before, text, now);
            },
            None => {
                lemma_mind_finished(before, rest, now);
            },
        }
    }
}

/// Whatever comes in, the client is never misled: each piece belongs to the item that was
/// announced last, each whole is what its pieces make, and the items that are done are those of
/// the answer.
pub proof fn client_is_never_misled(
    model: Seq<char>,
    request: Json,
    seed: Seq<char>,
    start: i64,
    payloads: Seq<Option<Seq<char>>>,
    rest: Seq<Option<Seq<char>>>,
    now: i64,
)
    ensures
        ({
            let s = payloads_consumed(
                fresh_stream(model, request, seed, start),
                payloads,
                rest,
                now,
            );
            &&& agreeable(s.events)
            &&& agreeable(finished_with(s, rest, now).events)
            &&& reader_of(s.events).done == told_items(s.state.output_items)
        }),
{
    lemma_mind_fresh(model, request, seed, start);
    let f = fresh_stream(model, request, seed, start);
    lemma_mind_payloads(f, payloads, rest, now);
    lemma_mind_finished(payloads_consumed(f, payloads, rest, now), rest, now);
}

/// The client of a stream without an error reads the text of its chunks, joined in order, piece
/// by piece, and nothing else; the end adds only what was left in the reader.
pub proof fn client_reads_the_whole_text(
    model: Seq<char>,
    request: Json,
    seed: Seq<char>,
    start: i64,
    payloads: Seq<Option<Seq<char>>>,
    rest: Seq<Option<Seq<char>>>,
    now: i64,
)
    requires
        uneventful(payloads),
        uneventful(rest),
    ensures
        ({
            let s = payloads_consumed(
                fresh_stream(model, request, seed, start),
                payloads,
                rest,
                now,
            );
            &&& reader_of(s.events).text == text_brought(payloads)
            &&& reader_of(finished_with(s, rest, now).events).text == text_brought(payloads)
                + text_brought(rest)
        }),
{
    lemma_mind_fresh(model, request, seed, start);
    let f = fresh_stream(model, request, seed, start);
    lemma_mind_payloads(f, payloads, rest, now);
    lemma_mind_rest(f, payloads, now);
    lemma_rest_text(f, payloads, now);
    assert(Seq::<char>::empty() + text_brought(payloads) =~= text_brought(payloads));
    let s = payloads_consumed(f, payloads, rest, now);
    lemma_mind_rest(s, rest, now);
    lemma_rest_text(s, rest, now);
    end_shows_nothing_new(rest_consumed(s, rest, now), now);
}

// ─── The completed answer ────────────────────────────────────

/// The items are those that are done.
pub open spec fn same_items(items: Seq<Json>, done: Seq<(Json, Json)>) -> bool {
    &&& items.len() == done.len()
    &&& forall|x: Json|
        #[trigger] items.contains(x) <==> exists|k: int|
            0 <= k < done.len() && (#[trigger] done[k]).1 == x
}

proof fn lemma_same_items(out: Seq<(i64, Json)>)
    ensures
        same_items(sorted_items(out), told_items(out)),
{
    let keys = item_keys(out);
    let order = stable_order(keys);
    order_is_stable_sort(keys);
    let items = sorted_items(out);
    let done = told_items(out);
    assert forall|x: Json| #[trigger] items.contains(x) implies exists|k: int|
        0 <= k < done.len() && (#[trigger] done[k]).1 == x by {
        let i = choose|i: int| 0 <= i < items.len() && items[i] == x;
        assert(done[order[i]].1 == items[i]);
    }
    assert forall|x: Json|
        (exists|k: int|
            0 <= k < done.len() && (#[trigger] done[k]).1 == x) implies #[trigger] items.contains(
        x,
    ) by {
        let k = choose|k: int| 0 <= k < done.len() && (#[trigger] done[k]).1 == x;
        order_holds_every_position(keys, k);
        let i = choose|i: int| 0 <= i < order.len() && order[i] == k;
        assert(items[i] == done[k].1);
    }
}

/// The items of an answer stand in the order of their places, whatever the order in which they
/// were done.
pub proof fn items_stand_in_their_places(out: Seq<(i64, Json)>, i: int, j: int)
    requires
        0 <= i < j < out.len(),
        forall|a: int, b: int| 0 <= a < b < out.len() ==> (#[trigger] out[a]).0 != (#[trigger] out[b]).0,
    ensures
        sorted_items(out).len() == out.len(),
        exists|a: int, b: int|
            0 <= a < out.len() && 0 <= b < out.len() && (#[trigger] out[a]).0 < (#[trigger] out[b]).0
                && sorted_items(out)[i] == out[a].1 && sorted_items(out)[j] == out[b].1,
{
    let keys = item_keys(out);
    let order = stable_order(keys);
    order_is_stable_sort(keys);
    let a = order[i];
    let b = order[j];
    assert(sorted_items(out)[i] == out[a].1 && sorted_items(out)[j] == out[b].1);
    assert(crate::order::key_le(keys[a], keys[b]));
    assert(out[a].0 != out[b].0) by {
        if a < b {
        } else {
            assert(out[b].0 != out[a].0);
        }
    }
}

/// The finish of a stream so far.
pub open spec fn finish_of(s: StreamView) -> Seq<char> {
    match s.finish_reason {
        Some(f) => f,
        None => Seq::empty(),
    }
}

proof fn lemma_final_response(s: StreamView, now: i64)
    ensures
        ({
            let r = Json::Obj(final_response(s, now));
            &&& part_of(r, "output"@) == Json::Arr(sorted_items(s.output_items))
            &&& part_of(r, "id"@) == Json::Str(s.response_id)
            &&& part_of(r, "model"@) == Json::Str(s.model)
            &&& part_of(r, "created_at"@) == json_int(s.created as int)
            &&& part_of(r, "usage"@) == responses_usage(s.usage)
            &&& ends_as(final_response(s, now), finish_of(s))
        }),
{
    let reason = final_reason(s);
    envelope_tells_all(
        s.response_id,
        s.model,
        status_for(reason),
        sorted_items(s.output_items),
        responses_usage(s.usage),
        s.request,
        s.created,
        reason,
        now,
    );
    reveal_strlit("length");
    reveal_strlit("content_filter");
    assert("length"@.len() == 6 && "content_filter"@.len() == 14);
}

/// The last event is that of the completed answer. It has the items that the client was told are
/// done, each once, the id, the model and the usage of the stream, and says how it ended.
pub proof fn completed_answer_holds_what_was_done(s: Step, now: i64)
    requires
        of_one_mind(s),
        !s.state.finished,
    ensures
        ({
            let t = ended(s, now);
            let response = told(t.events.last(), "response"@);
            &&& t.events.last().name == "response.completed"@
            &&& part_of(response, "output"@) is Arr
            &&& same_items(part_of(response, "output"@)->Arr_0, reader_of(t.events).done)
            &&& part_of(response, "id"@) == Json::Str(s.state.response_id)
            &&& part_of(response, "model"@) == Json::Str(s.state.model)
            &&& part_of(response, "created_at"@) == json_int(s.state.created as int)
            &&& part_of(response, "usage"@) == responses_usage(s.state.usage)
            &&& ends_as(response->Obj_0, finish_of(s.state))
        }),
{
    end_shows_nothing_new(s, now);
    lemma_keys();
    let f = Step { state: StreamView { finished: true, ..s.state }, ..s };
    let a = announced(f, now);
    lemma_kept(a);
    let u = all_ended(a);
    let data = seq![("response"@, Json::Obj(final_response(u.state, now)))];
    let t = ended(s, now);
    assert(t == emit(u, "response.completed"@, data));
    lemma_told(u, "response.completed"@, data, "response"@);
    lemma_find_at(data, "response"@, 0);
    lemma_final_response(u.state, now);
    lemma_same_items(u.state.output_items);
    assert(t.state.output_items == u.state.output_items);
}

/// What bringing everything to its end leaves alone.
proof fn lemma_kept(s: Step)
    ensures
        ({
            let t = all_ended(s).state;
            &&& t.response_id == s.state.response_id
            &&& t.model == s.state.model
            &&& t.created == s.state.created
            &&& t.request == s.state.request
            &&& t.usage == s.state.usage
            &&& t.finish_reason == s.state.finish_reason
        }),
{
    let r = reasoning_ended(s);
    let b = if !r.state.text_open && r.state.tools.len() == 0 {
        text_begun(r)
    } else {
        r
    };
    let t = text_ended(b);
    lemma_kept_tools(t, t.state.tools, t.state.tools.len());
}

proof fn lemma_kept_tools(s: Step, tools: Seq<ToolView>, n: nat)
    requires
        n <= tools.len(),
    ensures
        ({
            let t = tools_ended(s, tools, n).state;
            &&& t.response_id == s.state.response_id
            &&& t.model == s.state.model
            &&& t.created == s.state.created
            &&& t.request == s.state.request
            &&& t.usage == s.state.usage
            &&& t.finish_reason == s.state.finish_reason
        }),
    decreases n,
{
    if n > 0 {
        lemma_kept_tools(s, tools, (n - 1) as nat);
    }
}

// ─── What the stream knows of the answer ─────────────────────

/// What is known of the answer as a whole stays.
pub open spec fn same_answer(s: StreamView, t: StreamView) -> bool {
    &&& t.response_id == s.response_id
    &&& t.model == s.model
    &&& t.created == s.created
    &&& t.request == s.request
    &&& t.usage == s.usage
    &&& t.finish_reason == s.finish_reason
    &&& t.created_sent == s.created_sent
    &&& t.finished == s.finished
}

proof fn lemma_same_answer_call(s: Step, call: Json)
    ensures
        same_answer(s.state, call_written(s, call).state),
{
    let q = text_ended(reasoning_ended(s));
    assert(same_answer(s.state, q.state));
    let b = tool_begun(q.state, tool_key(call));
    assert(same_answer(s.state, b));
}

proof fn lemma_same_answer_calls(s: Step, calls: Seq<Json>)
    ensures
        same_answer(s.state, calls_written(s, calls).state),
    decreases calls.len(),
{
    if calls.len() > 0 {
        lemma_same_answer_calls(s, calls.drop_last());
        lemma_same_answer_call(calls_written(s, calls.drop_last()), calls.last());
    }
}

proof fn lemma_same_answer_delta(s: Step, delta: Json)
    ensures
        same_answer(s.state, delta_written(s, delta).state),
{
    let a = reasoning_written(s, carried_reasoning(delta));
    assert(same_answer(s.state, a.state));
    let b = text_written(a, piece(field(delta, "content"@)));
    assert(same_answer(a.state, b.state)) by {
        let c = reasoning_ended(a);
        assert(same_answer(a.state, c.state));
    }
    match field(delta, "tool_calls"@) {
        Some(Json::Arr(calls)) => {
            lemma_same_answer_calls(b, calls);
        },
        _ => {},
    }
}

/// What a chunk says of the answer as a whole is kept: its usage, how it ended, and its id as
/// long as the client was not told one. Once told, the id stays.
pub proof fn chunk_is_noted(s: Step, chunk: Json, now: i64)
    requires
        !s.state.finished,
        !reports_error(chunk),
    ensures
        ({
            let t = chunk_consumed(s, chunk, now).state;
            let choice = match part_of(chunk, "choices"@) {
                Json::Arr(choices) => head_of(Json::Arr(choices)),
                choices => part_of(choices, "0"@),
            };
            let finish = part_of(choice, "finish_reason"@);
            let id = part_of(chunk, "id"@);
            &&& part_of(chunk, "usage"@) is Obj ==> t.usage == Some(part_of(chunk, "usage"@))
            &&& !(part_of(chunk, "usage"@) is Obj) ==> t.usage == s.state.usage
            &&& said(finish).len() > 0 ==> t.finish_reason == Some(said(finish))
            &&& said(finish).len() == 0 ==> t.finish_reason == s.state.finish_reason
            &&& s.state.created_sent || said(id).len() == 0 ==> t.response_id == s.state.response_id
            &&& !s.state.created_sent && said(id).len() > 0 ==> t.response_id == said(id)
            &&& t.created_sent
            &&& !t.finished
            &&& t.model == s.state.model
            &&& t.created == s.state.created
            &&& t.request == s.state.request
        }),
{
    let a = announced(Step { state: noted(s.state, chunk), ..s }, now);
    match chunk_delta(chunk) {
        Some(delta) => {
            lemma_same_answer_delta(a, delta);
        },
        None => {},
    }
}

/// The first event tells the id, the model and the time of the answer, which is in progress.
pub proof fn created_tells_the_answer(s: Step, now: i64)
    requires
        !s.state.created_sent,
    ensures
        ({
            let t = announced(s, now);
            let response = told(t.events.last(), "response"@);
            &&& t.events.len() == s.events.len() + 1
            &&& t.events.last().name == "response.created"@
            &&& part_of(response, "id"@) == Json::Str(s.state.response_id)
            &&& part_of(response, "model"@) == Json::Str(s.state.model)
            &&& part_of(response, "status"@) == Json::Str("in_progress"@)
            &&& part_of(response, "created_at"@) == json_int(s.state.created as int)
            &&& part_of(response, "output"@) == Json::Arr(Seq::empty())
        }),
{
    lemma_keys();
    let q = Step { state: StreamView { created_sent: true, ..s.state }, ..s };
    let d = created_data(s.state, now);
    lemma_told(q, "response.created"@, d, "response"@);
    lemma_find_at(d, "response"@, 0);
    envelope_tells_all(
        s.state.response_id,
        s.state.model,
        "in_progress"@,
        Seq::empty(),
        Json::Null,
        s.state.request,
        s.state.created,
        None,
        now,
    );
}

proof fn lemma_failed_response(s: StreamView, error: Json, now: i64, message: Seq<char>)
    requires
        part_of(error, "message"@) == Json::Str(message),
        message.len() > 0,
    ensures
        ({
            let r = Json::Obj(failed_response(s, error, now));
            &&& part_of(r, "status"@) == Json::Str("failed"@)
            &&& part_of(r, "id"@) == Json::Str(s.response_id)
            &&& part_of(part_of(r, "error"@), "message"@) == Json::Str(message)
        }),
{
    lemma_keys();
    lemma_event_names();
    reveal_strlit("status");
    reveal_strlit("id");
    assert("status"@.len() == 6 && "id"@.len() == 2);
    let base = envelope(
        s.response_id,
        s.model,
        "failed"@,
        Seq::empty(),
        responses_usage(s.usage),
        s.request,
        s.created,
        None,
        now,
    );
    envelope_tells_all(
        s.response_id,
        s.model,
        "failed"@,
        Seq::empty(),
        responses_usage(s.usage),
        s.request,
        s.created,
        None,
        now,
    );
    let o = seq![("code"@, error_code(error)), ("message"@, Json::Str(error_message(error)))];
    lemma_find_at(o, "message"@, 1);
    find_of_put(base, "error"@, Json::Obj(o), "error"@);
    find_of_put(base, "error"@, Json::Obj(o), "status"@);
    find_of_put(base, "error"@, Json::Obj(o), "id"@);
}

proof fn lemma_failed_events(s: Step, error: Json, now: i64, message: Seq<char>)
    requires
        part_of(error, "message"@) == Json::Str(message),
        message.len() > 0,
    ensures
        ({
            let t = failed(s, error, now);
            let n = t.events.len() as int;
            let told_error = t.events[n - 2];
            let response = told(t.events[n - 1], "response"@);
            &&& n >= s.events.len() + 2
            &&& told_error.name == "error"@
            &&& told(told_error, "message"@) == Json::Str(message)
            &&& crate::js::truthy(part_of(error, "code"@)) ==> told(told_error, "code"@) == part_of(
                error,
                "code"@,
            )
            &&& t.events[n - 1].name == "response.failed"@
            &&& part_of(response, "status"@) == Json::Str("failed"@)
            &&& part_of(response, "id"@) == Json::Str(s.state.response_id)
            &&& part_of(part_of(response, "error"@), "message"@) == Json::Str(message)
            &&& t.state.finished
        }),
{
    lemma_keys();
    let a = announced(Step { state: StreamView { finished: true, ..s.state }, ..s }, now);
    let d = seq![
        ("code"@, error_code(error)),
        ("message"@, Json::Str(error_message(error))),
        ("param"@, Json::Null),
    ];
    lemma_find_at(d, "code"@, 0);
    lemma_find_at(d, "message"@, 1);
    lemma_told(a, "error"@, d, "code"@);
    lemma_told(a, "error"@, d, "message"@);
    let b = emit(a, "error"@, d);
    let e = seq![("response"@, Json::Obj(failed_response(b.state, error, now)))];
    lemma_find_at(e, "response"@, 0);
    lemma_told(b, "response.failed"@, e, "response"@);
    lemma_failed_response(b.state, error, now, message);
    let t = failed(s, error, now);
    assert(t == emit(b, "response.failed"@, e));
    assert(t.events[t.events.len() - 2] == b.events.last());
}

/// An error is passed on: the last events are the error and the failed answer, both with the
/// message of the error, and nothing comes after them.
pub proof fn error_is_passed_on(s: Step, chunk: Json, now: i64, message: Seq<char>)
    requires
        !s.state.finished,
        reports_error(chunk),
        part_of(part_of(chunk, "error"@), "message"@) == Json::Str(message),
        message.len() > 0,
    ensures
        ({
            let t = chunk_consumed(s, chunk, now);
            let n = t.events.len() as int;
            let told_error = t.events[n - 2];
            let response = told(t.events[n - 1], "response"@);
            &&& n >= s.events.len() + 2
            &&& told_error.name == "error"@
            &&& told(told_error, "message"@) == Json::Str(message)
            &&& crate::js::truthy(part_of(part_of(chunk, "error"@), "code"@)) ==> told(
                told_error,
                "code"@,
            ) == part_of(part_of(chunk, "error"@), "code"@)
            &&& t.events[n - 1].name == "response.failed"@
            &&& part_of(response, "status"@) == Json::Str("failed"@)
            &&& part_of(response, "id"@) == Json::Str(s.state.response_id)
            &&& part_of(part_of(response, "error"@), "message"@) == Json::Str(message)
            &&& t.state.finished
        }),
{
    let error = part_of(chunk, "error"@);
    lemma_failed_events(s, error, now, message);
    assert(chunk_consumed(s, chunk, now) == failed(s, error, now));
}

/// Every event says its own name and its number.
pub proof fn event_says_its_name(s: Step, name: Seq<char>, data: Fields)
    ensures
        ({
            let e = emit(s, name, data).events.last();
            &&& e.name == name
            &&& told(e, "type"@) == Json::Str(name)
            &&& told(e, "sequence_number"@) == json_int(s.state.sequence as int)
        }),
{
    broadcast use find_of_put;

    lemma_keys();
}

/// The frame of an event is its name on a line and its data on the next, with an empty line behind
/// them.
pub proof fn frame_holds_the_event(e: EventView)
    ensures
        begins(frame_of(e), "event: "@ + e.name + "\n"@),
        ends(frame_of(e), "\ndata: "@ + text_of_json(e.data) + "\n\n"@),
        frame_of(e).len() == 7 + e.name.len() + 7 + text_of_json(e.data).len() + 2,
{
    reveal_strlit("event: ");
    reveal_strlit("\n");
    reveal_strlit("\ndata: ");
    reveal_strlit("\n\n");
    assert("event: "@.len() == 7 && "\n"@.len() == 1 && "\ndata: "@.len() == 7 && "\n\n"@.len()
        == 2);
    assert("\n"@[0] == '\n' && "\ndata: "@[0] == '\n');
    let f = frame_of(e);
    let a = "event: "@ + e.name + "\n"@;
    let b = "\ndata: "@ + text_of_json(e.data) + "\n\n"@;
    assert(f.take(a.len() as int) =~= a);
    assert(f.skip(f.len() - b.len()) =~= b);
}

} // verus!
