//! What a client that reads the events of a stream gets to see of its calls.
//!
//! The client opens a call where one is announced, and appends the pieces of its arguments as
//! they come. Pieces that come before a call has a name are passed over: all of them come again
//! once it is announced.
use vstd::prelude::*;
use crate::json::{json_int, lemma_find_at, Fields, Json};
use crate::protocol::responses::call_item;
use crate::protocol::responses_stream::{
    all_ended, announced, announces, call_data, call_events, call_written, calls_written,
    chunk_consumed, chunk_delta, created_data, delta_written, emit, ended, failed, final_response,
    item_data, next_number, noted, open_message, open_part, part_data, piece, reasoning_begun,
    reasoning_ended, reasoning_entry, reasoning_writing, reasoning_written, summary_part,
    text_begun, text_ended, text_written, tool_announced, tool_begun, tool_ended, tool_extended,
    tool_final, tool_key, tool_place, tools_ended, Step, StreamView, ToolView,
};
use crate::protocol::stream_laws::{
    brought, fresh_stream, lemma_call_item, lemma_event_names, lemma_item_event, lemma_item_keys,
    lemma_keys, lemma_message_item, lemma_open_message, lemma_reasoning_entry, lemma_told, part_of,
    said, told,
};
use crate::protocol::{fresh_id, id_taken, if_truthy, inner_field, EventView};

verus! {

/// What the client has of the call at a place: its id and its arguments so far.
pub struct Heard {
    pub id: Json,
    pub arguments: Seq<char>,
}

/// The event announces a call.
pub open spec fn opens_call(e: EventView) -> bool {
    e.name == "response.output_item.added"@ && part_of(told(e, "item"@), "type"@) == Json::Str(
        "function_call"@,
    )
}

/// The event ends a call.
pub open spec fn closes_call(e: EventView) -> bool {
    e.name == "response.output_item.done"@ && part_of(told(e, "item"@), "type"@) == Json::Str(
        "function_call"@,
    )
}

/// The event is on the call at a place.
pub open spec fn at_place(e: EventView, place: Json) -> bool {
    told(e, "output_index"@) == place
}

pub open spec fn hears(h: Option<Heard>, e: EventView) -> Option<Heard> {
    if opens_call(e) {
        Some(Heard { id: part_of(told(e, "item"@), "id"@), arguments: Seq::empty() })
    } else if e.name == "response.function_call_arguments.delta"@ && h is Some {
        Some(Heard { arguments: h->0.arguments + said(told(e, "delta"@)), ..h->0 })
    } else {
        h
    }
}

/// What the client has of the call at a place after some events.
pub open spec fn heard(events: Seq<EventView>, place: Json) -> Option<Heard>
    decreases events.len(),
{
    if events.len() == 0 {
        None
    } else {
        let before = heard(events.drop_last(), place);
        if at_place(events.last(), place) {
            hears(before, events.last())
        } else {
            before
        }
    }
}

/// The arguments that a call ends with: those that came, or those of an empty object.
pub open spec fn whole_arguments(arguments: Seq<char>) -> Json {
    if arguments.len() > 0 {
        Json::Str(arguments)
    } else {
        Json::Str("{}"@)
    }
}

/// An event on a call agrees with what the client has of it.
pub open spec fn fits(h: Option<Heard>, e: EventView) -> bool {
    &&& e.name == "response.function_call_arguments.delta"@ && h is Some ==> told(e, "item_id"@)
        == h->0.id
    &&& e.name == "response.function_call_arguments.done"@ ==> {
        &&& h is Some
        &&& told(e, "item_id"@) == h->0.id
        &&& told(e, "arguments"@) == whole_arguments(h->0.arguments)
    }
    &&& closes_call(e) && h is Some ==> {
        &&& part_of(told(e, "item"@), "id"@) == h->0.id
        &&& part_of(told(e, "item"@), "arguments"@) == whole_arguments(h->0.arguments)
        &&& part_of(told(e, "item"@), "status"@) == Json::Str("completed"@)
    }
}

/// Every event on a call agreed with what the client had of it when it came.
pub open spec fn all_fit(events: Seq<EventView>) -> bool
    decreases events.len(),
{
    events.len() == 0 || (all_fit(events.drop_last()) && fits(
        heard(events.drop_last(), told(events.last(), "output_index"@)),
        events.last(),
    ))
}

/// What the client has of a call that stands so far.
pub open spec fn heard_of(t: ToolView) -> Option<Heard> {
    if t.announced {
        Some(Heard { id: Json::Str(t.item_id), arguments: t.arguments })
    } else {
        None
    }
}

/// The stream and its client agree on the calls. Every call has a place of its own.
pub open spec fn calls_in_step(s: Step) -> bool {
    let tools = s.state.tools;
    &&& 0 <= s.state.next_index
    &&& all_fit(s.events)
    &&& forall|i: int| 0 <= i < tools.len() ==> 0 <= (#[trigger] tools[i]).index < s.state.next_index
    &&& forall|i: int, j: int|
        0 <= i < j < tools.len() ==> (#[trigger] tools[i]).index < (#[trigger] tools[j]).index
    &&& forall|i: int|
        0 <= i < tools.len() ==> heard(s.events, json_int((#[trigger] tools[i]).index as int))
            == heard_of(tools[i])
    &&& forall|p: int|
        s.state.next_index <= p <= i64::MAX ==> heard(s.events, #[trigger] json_int(p)) is None
}

// ─── Events that are not on calls ────────────────────────────

/// The event is not on a call.
pub open spec fn off_calls(e: EventView) -> bool {
    &&& !opens_call(e)
    &&& !closes_call(e)
    &&& e.name != "response.function_call_arguments.delta"@
    &&& e.name != "response.function_call_arguments.done"@
}

proof fn lemma_off_calls(s: Step, name: Seq<char>, data: Fields)
    requires
        calls_in_step(s),
        off_calls(emit(s, name, data).events.last()),
    ensures
        calls_in_step(emit(s, name, data)),
        emit(s, name, data).state.tools == s.state.tools,
        emit(s, name, data).state.next_index == s.state.next_index,
{
    let t = emit(s, name, data);
    assert(t.events.drop_last() =~= s.events);
    assert forall|place: Json| #[trigger] heard(t.events, place) == heard(s.events, place) by {}
}

proof fn lemma_same_calls(s: Step, t: Step)
    requires
        calls_in_step(s),
        t.events == s.events,
        t.state.tools == s.state.tools,
        t.state.next_index == s.state.next_index,
    ensures
        calls_in_step(t),
{
}

/// A place that is taken by something else.
proof fn lemma_place_taken(s: Step, t: Step)
    requires
        calls_in_step(s),
        s.state.next_index < i64::MAX,
        t.events == s.events,
        t.state.tools == s.state.tools,
        t.state.next_index == s.state.next_index + 1,
    ensures
        calls_in_step(t),
{
}

proof fn lemma_reasoning_begun(s: Step)
    requires
        calls_in_step(s),
        s.state.next_index < i64::MAX,
    ensures
        calls_in_step(reasoning_begun(s)),
        reasoning_begun(s).state.tools == s.state.tools,
        reasoning_begun(s).state.next_index <= s.state.next_index + 1,
{
    if !s.state.reasoning_open {
        lemma_event_names();
        lemma_item_keys();
        let id = fresh_id(s.state.ids, "rs"@);
        let index = s.state.next_index;
        let t = Step {
            state: StreamView {
                reasoning_open: true,
                reasoning_index: index,
                next_index: next_number(index),
                reasoning_id: id,
                ids: id_taken(s.state.ids),
                ..s.state
            },
            ..s
        };
        lemma_place_taken(s, t);
        let item = reasoning_entry(id, "in_progress"@, Seq::empty());
        lemma_reasoning_entry(id, "in_progress"@, Seq::empty());
        lemma_item_event(t, "response.output_item.added"@, index, item);
        lemma_off_calls(t, "response.output_item.added"@, item_data(index, item));
        lemma_off_calls(
            emit(t, "response.output_item.added"@, item_data(index, item)),
            "response.reasoning_summary_part.added"@,
            part_data(index, id, "summary_index"@, "part"@, summary_part(Seq::empty())),
        );
    }
}

proof fn lemma_text_begun(s: Step)
    requires
        calls_in_step(s),
        s.state.next_index < i64::MAX,
    ensures
        calls_in_step(text_begun(s)),
        text_begun(s).state.tools == s.state.tools,
        text_begun(s).state.next_index <= s.state.next_index + 1,
{
    if !s.state.text_open {
        lemma_event_names();
        lemma_item_keys();
        let id = fresh_id(s.state.ids, "msg"@);
        let index = s.state.next_index;
        let t = Step {
            state: StreamView {
                text_open: true,
                text_index: index,
                next_index: next_number(index),
                text_id: id,
                ids: id_taken(s.state.ids),
                ..s.state
            },
            ..s
        };
        lemma_place_taken(s, t);
        lemma_open_message(id);
        lemma_item_event(t, "response.output_item.added"@, index, open_message(id));
        lemma_off_calls(t, "response.output_item.added"@, item_data(index, open_message(id)));
        lemma_off_calls(
            emit(t, "response.output_item.added"@, item_data(index, open_message(id))),
            "response.content_part.added"@,
            part_data(index, id, "content_index"@, "part"@, open_part()),
        );
    }
}

proof fn lemma_reasoning_ended(s: Step)
    requires
        calls_in_step(s),
    ensures
        calls_in_step(reasoning_ended(s)),
        reasoning_ended(s).state.tools == s.state.tools,
        reasoning_ended(s).state.next_index == s.state.next_index,
{
    if reasoning_writing(s.state) {
        lemma_event_names();
        lemma_item_keys();
        let id = s.state.reasoning_id;
        let index = s.state.reasoning_index;
        let text = s.state.reasoning;
        let item = reasoning_entry(id, "completed"@, seq![summary_part(text)]);
        let t = Step {
            state: StreamView {
                reasoning_closed: true,
                output_items: s.state.output_items.push((index, item)),
                ..s.state
            },
            ..s
        };
        lemma_same_calls(s, t);
        let d1 = part_data(index, id, "summary_index"@, "text"@, Json::Str(text));
        lemma_off_calls(t, "response.reasoning_summary_text.done"@, d1);
        let u = emit(t, "response.reasoning_summary_text.done"@, d1);
        let d2 = part_data(index, id, "summary_index"@, "part"@, summary_part(text));
        lemma_off_calls(u, "response.reasoning_summary_part.done"@, d2);
        let v = emit(u, "response.reasoning_summary_part.done"@, d2);
        lemma_reasoning_entry(id, "completed"@, seq![summary_part(text)]);
        lemma_item_event(v, "response.output_item.done"@, index, item);
        lemma_off_calls(v, "response.output_item.done"@, item_data(index, item));
    }
}

proof fn lemma_text_ended(s: Step)
    requires
        calls_in_step(s),
    ensures
        calls_in_step(text_ended(s)),
        text_ended(s).state.tools == s.state.tools,
        text_ended(s).state.next_index == s.state.next_index,
{
    if s.state.text_open {
        lemma_event_names();
        lemma_item_keys();
        let id = s.state.text_id;
        let index = s.state.text_index;
        let text = s.state.text;
        let item = crate::protocol::responses::message_item(id, text);
        let t = Step {
            state: StreamView {
                text_open: false,
                output_items: s.state.output_items.push((index, item)),
                ..s.state
            },
            ..s
        };
        lemma_same_calls(s, t);
        let d1 = part_data(index, id, "content_index"@, "text"@, Json::Str(text));
        lemma_off_calls(t, "response.output_text.done"@, d1);
        let u = emit(t, "response.output_text.done"@, d1);
        let d2 = part_data(
            index,
            id,
            "content_index"@,
            "part"@,
            crate::protocol::responses::finished_part(text),
        );
        lemma_off_calls(u, "response.content_part.done"@, d2);
        let v = emit(u, "response.content_part.done"@, d2);
        lemma_message_item(id, text);
        lemma_item_event(v, "response.output_item.done"@, index, item);
        lemma_off_calls(v, "response.output_item.done"@, item_data(index, item));
    }
}

proof fn lemma_reasoning_written(s: Step, text: Seq<char>)
    requires
        calls_in_step(s),
        s.state.next_index < i64::MAX,
    ensures
        calls_in_step(reasoning_written(s, text)),
        reasoning_written(s, text).state.tools == s.state.tools,
        reasoning_written(s, text).state.next_index <= s.state.next_index + 1,
{
    if text.len() > 0 {
        lemma_event_names();
        lemma_reasoning_begun(s);
        let t = reasoning_begun(s);
        let u = Step { state: StreamView { reasoning: t.state.reasoning + text, ..t.state }, ..t };
        lemma_same_calls(t, u);
        let d = part_data(
            u.state.reasoning_index,
            u.state.reasoning_id,
            "summary_index"@,
            "delta"@,
            Json::Str(text),
        );
        lemma_off_calls(u, "response.reasoning_summary_text.delta"@, d);
    }
}

proof fn lemma_text_written(s: Step, text: Seq<char>)
    requires
        calls_in_step(s),
        s.state.next_index < i64::MAX,
    ensures
        calls_in_step(text_written(s, text)),
        text_written(s, text).state.tools == s.state.tools,
        text_written(s, text).state.next_index <= s.state.next_index + 1,
{
    if text.len() > 0 {
        lemma_event_names();
        lemma_reasoning_ended(s);
        let r = reasoning_ended(s);
        lemma_text_begun(r);
        let t = text_begun(r);
        let u = Step { state: StreamView { text: t.state.text + text, ..t.state }, ..t };
        lemma_same_calls(t, u);
        let d = part_data(
            u.state.text_index,
            u.state.text_id,
            "content_index"@,
            "delta"@,
            Json::Str(text),
        );
        lemma_off_calls(u, "response.output_text.delta"@, d);
    }
}

// ─── Events on calls ─────────────────────────────────────────

/// What a client hears at a place when one more event comes.
proof fn lemma_hear(s: Step, name: Seq<char>, data: Fields, place: Json)
    ensures
        ({
            let t = emit(s, name, data);
            &&& heard(t.events, place) == if at_place(t.events.last(), place) {
                hears(heard(s.events, place), t.events.last())
            } else {
                heard(s.events, place)
            }
            &&& all_fit(t.events) == (all_fit(s.events) && fits(
                heard(s.events, told(t.events.last(), "output_index"@)),
                t.events.last(),
            ))
        }),
{
    let t = emit(s, name, data);
    assert(t.events.drop_last() =~= s.events);
}

proof fn lemma_call_data(s: Step, name: Seq<char>, t: ToolView, key: Seq<char>, value: Seq<char>)
    requires
        key == "delta"@ || key == "arguments"@,
    ensures
        ({
            let e = emit(s, name, call_data(t, key, value)).events.last();
            &&& e.name == name
            &&& told(e, "output_index"@) == json_int(t.index as int)
            &&& told(e, "item_id"@) == Json::Str(t.item_id)
            &&& told(e, "call_id"@) == Json::Str(t.call_id)
            &&& told(e, "name"@) == Json::Str(t.name)
            &&& told(e, key) == Json::Str(value)
        }),
{
    lemma_keys();
    let d = call_data(t, key, value);
    lemma_find_at(d, "output_index"@, 0);
    lemma_find_at(d, "item_id"@, 1);
    lemma_find_at(d, "call_id"@, 2);
    lemma_find_at(d, "name"@, 3);
    lemma_find_at(d, key, 4);
    lemma_told(s, name, d, "output_index"@);
    lemma_told(s, name, d, "item_id"@);
    lemma_told(s, name, d, "call_id"@);
    lemma_told(s, name, d, "name"@);
    lemma_told(s, name, d, key);
}

/// The client hears of a call what the events on it say, and of the other calls nothing.
proof fn lemma_call_events_heard(s: Step, t: ToolView, now_announced: bool, arguments: Seq<char>)
    requires
        all_fit(s.events),
        !now_announced && heard(s.events, json_int(t.index as int)) is Some ==> heard(
            s.events,
            json_int(t.index as int),
        )->0.id == Json::Str(t.item_id),
    ensures
        ({
            let u = call_events(s, t, now_announced, arguments);
            let here = json_int(t.index as int);
            &&& all_fit(u.events)
            &&& u.state == StreamView { sequence: u.state.sequence, ..s.state }
            &&& forall|place: Json| place != here ==> #[trigger] heard(u.events, place) == heard(
                s.events,
                place,
            )
            &&& now_announced ==> heard(u.events, here) == Some(
                Heard { id: Json::Str(t.item_id), arguments: t.arguments },
            )
            &&& !now_announced && heard(s.events, here) is None ==> heard(u.events, here) is None
            &&& !now_announced && heard(s.events, here) is Some ==> heard(u.events, here) == Some(
                Heard {
                    arguments: heard(s.events, here)->0.arguments + arguments,
                    ..heard(s.events, here)->0
                },
            )
        }),
{
    lemma_event_names();
    lemma_item_keys();
    let here = json_int(t.index as int);
    let u = call_events(s, t, now_announced, arguments);
    if now_announced {
        let item = call_item(t.item_id, "in_progress"@, t.call_id, t.name, Seq::empty());
        let d = item_data(t.index, item);
        lemma_call_item(t.item_id, "in_progress"@, t.call_id, t.name, Seq::empty());
        lemma_item_event(s, "response.output_item.added"@, t.index, item);
        let v = emit(s, "response.output_item.added"@, d);
        assert forall|place: Json| #[trigger] heard(v.events, place) == if place == here {
            Some(Heard { id: Json::Str(t.item_id), arguments: Seq::empty() })
        } else {
            heard(s.events, place)
        } by {
            lemma_hear(s, "response.output_item.added"@, d, place);
        }
        lemma_hear(s, "response.output_item.added"@, d, here);
        assert(all_fit(v.events));
        if t.arguments.len() > 0 {
            let e = call_data(t, "delta"@, t.arguments);
            lemma_call_data(v, "response.function_call_arguments.delta"@, t, "delta"@, t.arguments);
            lemma_hear(v, "response.function_call_arguments.delta"@, e, here);
            assert forall|place: Json| place != here implies #[trigger] heard(u.events, place)
                == heard(s.events, place) by {
                lemma_hear(v, "response.function_call_arguments.delta"@, e, place);
            }
            assert(Seq::<char>::empty() + t.arguments =~= t.arguments);
        } else {
            assert(t.arguments =~= Seq::empty());
        }
    } else if arguments.len() > 0 {
        let e = call_data(t, "delta"@, arguments);
        lemma_call_data(s, "response.function_call_arguments.delta"@, t, "delta"@, arguments);
        lemma_hear(s, "response.function_call_arguments.delta"@, e, here);
        assert forall|place: Json| place != here implies #[trigger] heard(u.events, place) == heard(
            s.events,
            place,
        ) by {
            lemma_hear(s, "response.function_call_arguments.delta"@, e, place);
        }
    } else if heard(s.events, here) is Some {
        assert(heard(s.events, here)->0.arguments + arguments =~= heard(
            s.events,
            here,
        )->0.arguments);
    }
}

proof fn lemma_tool_place(tools: Seq<ToolView>, key: i64)
    ensures
        0 <= tool_place(tools, key) <= tools.len(),
        tool_place(tools, key) < tools.len() ==> tools[tool_place(tools, key)].key == key,
        forall|k: int| 0 <= k < tool_place(tools, key) ==> (#[trigger] tools[k]).key != key,
    decreases tools.len(),
{
    if tools.len() > 0 && tools[0].key != key {
        let rest = tools.drop_first();
        lemma_tool_place(rest, key);
        assert forall|k: int| 0 <= k < tool_place(tools, key) implies (#[trigger] tools[k]).key
            != key by {
            if k > 0 {
                assert(tools[k] == rest[k - 1]);
            }
        }
        if tool_place(tools, key) < tools.len() {
            assert(tools[tool_place(tools, key)] == rest[tool_place(rest, key)]);
        }
    }
}

/// The call with a key is there once it was begun.
proof fn lemma_tool_begun(s: StreamView, key: i64)
    ensures
        ({
            let t = tool_begun(s, key);
            let at = tool_place(t.tools, key);
            &&& 0 <= at < t.tools.len()
            &&& t.tools[at].key == key
            &&& forall|k: int| 0 <= k < at ==> (#[trigger] t.tools[k]).key != key
            &&& tool_place(s.tools, key) < s.tools.len() ==> t == s
            &&& tool_place(s.tools, key) >= s.tools.len() ==> at == s.tools.len() && t.tools.len()
                == s.tools.len() + 1
        }),
{
    lemma_tool_place(s.tools, key);
    let t = tool_begun(s, key);
    lemma_tool_place(t.tools, key);
    if tool_place(s.tools, key) >= s.tools.len() {
        let at = tool_place(t.tools, key);
        if at < s.tools.len() {
            assert(t.tools[at] == s.tools[at]);
        }
        if at == t.tools.len() {
            assert(t.tools[s.tools.len() as int].key != key);
        }
    }
}

proof fn lemma_begun_in_step(s: Step, key: i64)
    requires
        calls_in_step(s),
        s.state.next_index < i64::MAX,
    ensures
        calls_in_step(Step { state: tool_begun(s.state, key), ..s }),
        tool_begun(s.state, key).next_index <= s.state.next_index + 1,
{
    lemma_tool_begun(s.state, key);
    let t = Step { state: tool_begun(s.state, key), ..s };
    let tools = t.state.tools;
    if t.state != s.state {
        let n = s.state.tools.len() as int;
        assert forall|i: int| 0 <= i < tools.len() implies 0 <= (#[trigger] tools[i]).index
            < t.state.next_index by {
            if i < n {
                assert(tools[i] == s.state.tools[i]);
            }
        }
        assert forall|i: int, j: int| 0 <= i < j < tools.len() implies (#[trigger] tools[i]).index
            < (#[trigger] tools[j]).index by {
            assert(tools[i] == s.state.tools[i]);
            if j < n {
                assert(tools[j] == s.state.tools[j]);
            }
        }
        assert forall|i: int| 0 <= i < tools.len() implies heard(
            t.events,
            json_int((#[trigger] tools[i]).index as int),
        ) == heard_of(tools[i]) by {
            if i < n {
                assert(tools[i] == s.state.tools[i]);
            } else {
                assert(heard(s.events, json_int(s.state.next_index as int)) is None);
            }
        }
    }
}

proof fn lemma_places_differ(a: i64, b: i64)
    requires
        0 <= a,
        0 <= b,
        a != b,
    ensures
        json_int(a as int) != json_int(b as int),
{
}

/// A piece of a call keeps the stream and its client in step.
proof fn lemma_call_written(s: Step, call: Json)
    requires
        calls_in_step(s),
        s.state.next_index < i64::MAX,
    ensures
        calls_in_step(call_written(s, call)),
        call_written(s, call).state.next_index <= s.state.next_index + 1,
{
    lemma_reasoning_ended(s);
    lemma_text_ended(reasoning_ended(s));
    let q = text_ended(reasoning_ended(s));
    let key = tool_key(call);
    lemma_begun_in_step(q, key);
    lemma_tool_begun(q.state, key);
    let state = tool_begun(q.state, key);
    let b = Step { state, ..q };
    let at = tool_place(state.tools, key);
    let old_tool = state.tools[at];
    let t = tool_extended(old_tool, call);
    let arguments = piece(inner_field(call, "function"@, "arguments"@));
    let here = json_int(t.index as int);
    assert(heard(b.events, json_int(old_tool.index as int)) == heard_of(old_tool));
    let r = call_written(s, call);
    let ids = if announces(t) && t.call_id.len() == 0 {
        id_taken(state.ids)
    } else {
        state.ids
    };
    let full = if announces(t) {
        tool_announced(t, state.ids)
    } else {
        t
    };
    let u = Step { state: StreamView { tools: state.tools.update(at, full), ids, ..state }, ..q };
    assert(r == call_events(u, full, announces(t), arguments));
    lemma_call_events_heard(u, full, announces(t), arguments);
    assert(heard(r.events, here) == heard_of(full));
    let tools = r.state.tools;
    assert(tools == state.tools.update(at, full));
    assert forall|i: int| 0 <= i < tools.len() implies 0 <= (#[trigger] tools[i]).index
        < r.state.next_index by {
        assert(tools[i].index == state.tools[i].index);
    }
    assert forall|i: int, j: int| 0 <= i < j < tools.len() implies (#[trigger] tools[i]).index < (
    #[trigger] tools[j]).index by {
        assert(tools[i].index == state.tools[i].index && tools[j].index == state.tools[j].index);
    }
    assert forall|i: int| 0 <= i < tools.len() implies heard(
        r.events,
        json_int((#[trigger] tools[i]).index as int),
    ) == heard_of(tools[i]) by {
        if i != at {
            assert(tools[i] == state.tools[i]);
            lemma_places_differ(state.tools[i].index, old_tool.index);
            assert(heard(b.events, json_int(state.tools[i].index as int)) == heard_of(
                state.tools[i],
            ));
        }
    }
    assert forall|p: int| r.state.next_index <= p <= i64::MAX implies heard(
        r.events,
        #[trigger] json_int(p),
    ) is None by {
        lemma_places_differ(p as i64, old_tool.index);
        assert(heard(b.events, json_int(p)) is None);
    }
}

proof fn lemma_calls_written(s: Step, calls: Seq<Json>)
    requires
        calls_in_step(s),
        s.state.next_index + calls.len() <= i64::MAX,
    ensures
        calls_in_step(calls_written(s, calls)),
        calls_written(s, calls).state.next_index <= s.state.next_index + calls.len(),
    decreases calls.len(),
{
    if calls.len() > 0 {
        lemma_calls_written(s, calls.drop_last());
        lemma_call_written(calls_written(s, calls.drop_last()), calls.last());
    }
}

proof fn lemma_announced(s: Step, now: i64)
    requires
        calls_in_step(s),
    ensures
        calls_in_step(announced(s, now)),
        announced(s, now).state.tools == s.state.tools,
        announced(s, now).state.next_index == s.state.next_index,
{
    if !s.state.created_sent {
        lemma_event_names();
        let t = Step { state: StreamView { created_sent: true, ..s.state }, ..s };
        lemma_same_calls(s, t);
        lemma_off_calls(t, "response.created"@, created_data(s.state, now));
    }
}

proof fn lemma_failed(s: Step, error: Json, now: i64)
    requires
        calls_in_step(s),
    ensures
        calls_in_step(failed(s, error, now)),
{
    lemma_event_names();
    let t = Step { state: StreamView { finished: true, ..s.state }, ..s };
    lemma_same_calls(s, t);
    lemma_announced(t, now);
    let u = announced(t, now);
    let d = seq![
        ("code"@, crate::protocol::responses_stream::error_code(error)),
        ("message"@, Json::Str(crate::protocol::responses_stream::error_message(error))),
        ("param"@, Json::Null),
    ];
    lemma_off_calls(u, "error"@, d);
    let v = emit(u, "error"@, d);
    lemma_off_calls(
        v,
        "response.failed"@,
        seq![
            (
                "response"@,
                Json::Obj(
                    crate::protocol::responses_stream::failed_response(v.state, error, now),
                ),
            ),
        ],
    );
}

/// The pieces of calls in a chunk.
pub open spec fn pieces_brought(chunk: Json) -> Seq<Json> {
    match part_of(brought(chunk), "tool_calls"@) {
        Json::Arr(calls) => calls,
        _ => Seq::empty(),
    }
}

proof fn lemma_delta_in_step(s: Step, delta: Json)
    requires
        calls_in_step(s),
        s.state.next_index + 2 + (match part_of(delta, "tool_calls"@) {
            Json::Arr(calls) => calls.len(),
            _ => 0,
        }) <= i64::MAX,
    ensures
        calls_in_step(delta_written(s, delta)),
{
    let thought = crate::protocol::responses::carried_reasoning(delta);
    lemma_reasoning_written(s, thought);
    let t = reasoning_written(s, thought);
    let text = piece(crate::json::field(delta, "content"@));
    lemma_text_written(t, text);
    let u = text_written(t, text);
    match crate::json::field(delta, "tool_calls"@) {
        Some(Json::Arr(calls)) => {
            lemma_calls_written(u, calls);
        },
        _ => {},
    }
}

/// A chunk keeps the stream and its client in step on the calls, as long as there are places left.
pub proof fn chunk_keeps_calls_in_step(s: Step, chunk: Json, now: i64)
    requires
        calls_in_step(s),
        s.state.next_index + 2 + pieces_brought(chunk).len() <= i64::MAX,
    ensures
        calls_in_step(chunk_consumed(s, chunk, now)),
{
    if !s.state.finished {
        match if_truthy(crate::json::field(chunk, "error"@)) {
            Some(error) => {
                lemma_failed(s, error, now);
            },
            None => {
                let t = Step { state: noted(s.state, chunk), ..s };
                lemma_same_calls(s, t);
                lemma_announced(t, now);
                match chunk_delta(chunk) {
                    Some(delta) => {
                        assert(brought(chunk) == delta);
                        lemma_delta_in_step(announced(t, now), delta);
                    },
                    None => {},
                }
            },
        }
    }
}

/// A stream that was started has no calls.
pub proof fn fresh_stream_has_no_calls(model: Seq<char>, request: Json, seed: Seq<char>, now: i64)
    ensures
        calls_in_step(fresh_stream(model, request, seed, now)),
        fresh_stream(model, request, seed, now).state.tools.len() == 0,
{
}

// ─── What a piece does ───────────────────────────────────────

/// The piece is one of the call with this key; without a key it is one of the first.
pub open spec fn piece_of(call: Json, key: i64) -> bool {
    part_of(call, "index"@) == json_int(key as int) || (part_of(call, "index"@) == Json::Null && key
        == 0)
}

/// The later text where it is filled, else the earlier.
pub open spec fn newer(before: Seq<char>, v: Json) -> Seq<char> {
    if said(v).len() > 0 {
        said(v)
    } else {
        before
    }
}

/// A call that was not there yet.
pub open spec fn no_call(key: i64, index: i64, id: Seq<char>) -> ToolView {
    ToolView {
        key,
        index,
        item_id: id,
        call_id: Seq::empty(),
        name: Seq::empty(),
        arguments: Seq::empty(),
        announced: false,
    }
}

/// The call after a piece: the arguments of the piece behind those that were there, the name and
/// the id of the piece where it has them. It is announced as soon as it has a name.
pub open spec fn pieced(before: ToolView, call: Json, after: ToolView) -> bool {
    let function = part_of(call, "function"@);
    &&& after.key == before.key
    &&& after.index == before.index
    &&& after.item_id == before.item_id
    &&& after.arguments == before.arguments + said(part_of(function, "arguments"@))
    &&& after.name == newer(before.name, part_of(function, "name"@))
    &&& newer(before.call_id, part_of(call, "id"@)).len() > 0 ==> after.call_id == newer(
        before.call_id,
        part_of(call, "id"@),
    )
    &&& after.announced == (before.announced || after.name.len() > 0)
}

/// A piece extends the call that it belongs to, which it begins where it was not there, and no
/// other call.
pub proof fn piece_extends_its_call(s: Step, call: Json, key: i64)
    requires
        piece_of(call, key),
    ensures
        ({
            let before = s.state.tools;
            let after = call_written(s, call).state.tools;
            let known = exists|k: int| 0 <= k < before.len() && (#[trigger] before[k]).key == key;
            &&& known ==> after.len() == before.len() && exists|at: int|
                0 <= at < before.len() && (#[trigger] before[at]).key == key && pieced(
                    before[at],
                    call,
                    after[at],
                )
            &&& !known ==> after.len() == before.len() + 1 && exists|id: Seq<char>|
                #![trigger no_call(key, s.state.next_index, id)]
                pieced(no_call(key, s.state.next_index, id), call, after.last())
            &&& forall|k: int|
                0 <= k < before.len() && before[k].key != key ==> #[trigger] after[k] == before[k]
        }),
{
    let q = text_ended(reasoning_ended(s));
    assert(q.state.tools == s.state.tools && q.state.next_index == s.state.next_index);
    assert(tool_key(call) == key);
    lemma_tool_place(s.state.tools, key);
    lemma_tool_begun(q.state, key);
    let state = tool_begun(q.state, key);
    let at = tool_place(state.tools, key);
    let t = tool_extended(state.tools[at], call);
    let full = if announces(t) {
        tool_announced(t, state.ids)
    } else {
        t
    };
    assert(call_written(s, call).state.tools == state.tools.update(at, full));
    assert(pieced(state.tools[at], call, full));
    if tool_place(s.state.tools, key) >= s.state.tools.len() {
        let id = fresh_id(q.state.ids, "fc"@);
        assert(state.tools[at] == no_call(key, s.state.next_index, id));
    }
}

// ─── The end of the calls ────────────────────────────────────

/// The item is the call as it stands at the end: with its name and its arguments, under its id.
pub open spec fn final_call(item: Json, t: ToolView) -> bool {
    &&& part_of(item, "type"@) == Json::Str("function_call"@)
    &&& part_of(item, "status"@) == Json::Str("completed"@)
    &&& part_of(item, "id"@) == Json::Str(t.item_id)
    &&& t.call_id.len() > 0 ==> part_of(item, "call_id"@) == Json::Str(t.call_id)
    &&& t.name.len() > 0 ==> part_of(item, "name"@) == Json::Str(t.name)
    &&& t.name.len() == 0 ==> part_of(item, "name"@) == Json::Str("unknown"@)
    &&& part_of(item, "arguments"@) == whole_arguments(t.arguments)
}

proof fn lemma_tool_ended(s: Step, t: ToolView)
    requires
        all_fit(s.events),
        heard(s.events, json_int(t.index as int)) == heard_of(t),
    ensures
        ({
            let r = tool_ended(s, t);
            &&& all_fit(r.events)
            &&& forall|place: Json| #[trigger] heard(r.events, place) == heard(s.events, place)
            &&& r.state.output_items.len() == s.state.output_items.len() + 1
            &&& r.state.output_items.drop_last() == s.state.output_items
            &&& r.state.output_items.last().0 == t.index
            &&& final_call(r.state.output_items.last().1, t)
        }),
{
    lemma_event_names();
    lemma_item_keys();
    let f = tool_final(t, s.state.ids);
    let item = call_item(f.item_id, "completed"@, f.call_id, f.name, f.arguments);
    let ids = if t.call_id.len() > 0 {
        s.state.ids
    } else {
        id_taken(s.state.ids)
    };
    let q = Step {
        state: StreamView {
            output_items: s.state.output_items.push((f.index, item)),
            ids,
            ..s.state
        },
        ..s
    };
    let here = json_int(t.index as int);
    let d = call_data(f, "arguments"@, f.arguments);
    lemma_call_data(q, "response.function_call_arguments.done"@, f, "arguments"@, f.arguments);
    lemma_hear(q, "response.function_call_arguments.done"@, d, here);
    let u = if t.announced {
        emit(q, "response.function_call_arguments.done"@, d)
    } else {
        q
    };
    assert forall|place: Json| #[trigger] heard(u.events, place) == heard(s.events, place) by {
        lemma_hear(q, "response.function_call_arguments.done"@, d, place);
    }
    lemma_call_item(f.item_id, "completed"@, f.call_id, f.name, f.arguments);
    lemma_item_event(u, "response.output_item.done"@, f.index, item);
    lemma_hear(u, "response.output_item.done"@, item_data(f.index, item), here);
    let r = tool_ended(s, t);
    assert(r == emit(u, "response.output_item.done"@, item_data(f.index, item)));
    assert forall|place: Json| #[trigger] heard(r.events, place) == heard(s.events, place) by {
        lemma_hear(u, "response.output_item.done"@, item_data(f.index, item), place);
        assert(heard(u.events, place) == heard(s.events, place));
    }
    assert(r.state.output_items.drop_last() =~= s.state.output_items);
}

proof fn lemma_tools_ended(s: Step, tools: Seq<ToolView>, n: nat)
    requires
        all_fit(s.events),
        n <= tools.len(),
        forall|i: int|
            0 <= i < tools.len() ==> heard(s.events, json_int((#[trigger] tools[i]).index as int))
                == heard_of(tools[i]),
    ensures
        ({
            let r = tools_ended(s, tools, n);
            let before = s.state.output_items.len() as int;
            &&& all_fit(r.events)
            &&& forall|place: Json| #[trigger] heard(r.events, place) == heard(s.events, place)
            &&& r.state.output_items.len() == before + n
            &&& forall|i: int|
                0 <= i < n ==> {
                    let e = r.state.output_items[before + i];
                    e.0 == (#[trigger] tools[i]).index && final_call(e.1, tools[i])
                }
        }),
    decreases n,
{
    if n > 0 {
        lemma_tools_ended(s, tools, (n - 1) as nat);
        let q = tools_ended(s, tools, (n - 1) as nat);
        let t = tools[n - 1];
        assert(heard(q.events, json_int(t.index as int)) == heard_of(t));
        lemma_tool_ended(q, t);
        let r = tools_ended(s, tools, n);
        assert forall|place: Json| #[trigger] heard(r.events, place) == heard(s.events, place) by {
            assert(heard(q.events, place) == heard(s.events, place));
        }
        let before = s.state.output_items.len() as int;
        assert forall|i: int| 0 <= i < n implies {
            let e = r.state.output_items[before + i];
            e.0 == (#[trigger] tools[i]).index && final_call(e.1, tools[i])
        } by {
            if i < n - 1 {
                assert(r.state.output_items.drop_last()[before + i] == q.state.output_items[before
                    + i]);
            }
        }
    }
}

/// At the end every call becomes an item of the answer at its place, with the name and all the
/// arguments that came for it, under its id; and each event on it agrees with what the client
/// has of it.
pub proof fn end_completes_every_call(s: Step, now: i64)
    requires
        calls_in_step(s),
        !s.state.finished,
        s.state.next_index < i64::MAX,
    ensures
        ({
            let r = ended(s, now);
            let tools = s.state.tools;
            &&& all_fit(r.events)
            &&& forall|i: int|
                0 <= i < tools.len() ==> exists|k: int|
                    0 <= k < r.state.output_items.len() && (#[trigger] r.state.output_items[k]).0
                        == (#[trigger] tools[i]).index && final_call(
                        r.state.output_items[k].1,
                        tools[i],
                    )
        }),
{
    lemma_event_names();
    let f = Step { state: StreamView { finished: true, ..s.state }, ..s };
    lemma_same_calls(s, f);
    lemma_announced(f, now);
    let a = announced(f, now);
    lemma_reasoning_ended(a);
    let b = reasoning_ended(a);
    let c = if !b.state.text_open && b.state.tools.len() == 0 {
        text_begun(b)
    } else {
        b
    };
    if !b.state.text_open && b.state.tools.len() == 0 {
        lemma_text_begun(b);
    }
    lemma_text_ended(c);
    let d = text_ended(c);
    let tools = s.state.tools;
    assert(d.state.tools == tools);
    lemma_tools_ended(d, tools, tools.len());
    let u = tools_ended(d, tools, tools.len());
    assert(u == all_ended(a));
    let data = seq![("response"@, Json::Obj(final_response(u.state, now)))];
    let r = ended(s, now);
    assert(r == emit(u, "response.completed"@, data));
    lemma_hear(u, "response.completed"@, data, Json::Null);
    assert forall|i: int| 0 <= i < tools.len() implies exists|k: int|
        0 <= k < r.state.output_items.len() && (#[trigger] r.state.output_items[k]).0 == (
        #[trigger] tools[i]).index && final_call(r.state.output_items[k].1, tools[i]) by {
        let k = d.state.output_items.len() + i;
        assert(r.state.output_items[k].0 == tools[i].index);
    }
}

// ─── Places and ids ──────────────────────────────────────────

/// Every item takes the next place of the answer and a new id: reasoning, text and calls alike.
pub proof fn new_item_takes_the_next_place(s: Step, key: i64)
    requires
        s.state.next_index < i64::MAX,
        s.state.ids.next < u64::MAX,
    ensures
        !s.state.reasoning_open ==> {
            let t = reasoning_begun(s).state;
            &&& t.reasoning_index == s.state.next_index
            &&& t.next_index == s.state.next_index + 1
            &&& t.ids.next == s.state.ids.next + 1
            &&& t.ids.seed == s.state.ids.seed
        },
        !s.state.text_open ==> {
            let t = text_begun(s).state;
            &&& t.text_index == s.state.next_index
            &&& t.next_index == s.state.next_index + 1
            &&& t.ids.next == s.state.ids.next + 1
            &&& t.ids.seed == s.state.ids.seed
        },
        (forall|k: int| 0 <= k < s.state.tools.len() ==> (#[trigger] s.state.tools[k]).key != key)
            ==> {
            let t = tool_begun(s.state, key);
            &&& t.tools.len() == s.state.tools.len() + 1
            &&& t.tools.last().index == s.state.next_index
            &&& t.next_index == s.state.next_index + 1
            &&& t.ids.next == s.state.ids.next + 1
            &&& t.ids.seed == s.state.ids.seed
        },
{
    lemma_tool_place(s.state.tools, key);
    if tool_place(s.state.tools, key) < s.state.tools.len() {
        assert(s.state.tools[tool_place(s.state.tools, key)].key == key);
    }
}

} // verus!
