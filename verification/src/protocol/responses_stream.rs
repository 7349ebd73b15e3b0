//! The answer of a Chat stream as a Responses stream, event by event.
//!
//! A stream starts with `response.created` and ends with `response.completed` or, after an error,
//! with `response.failed`. Reasoning is closed before text is written, and both are closed before
//! a call is. Every event carries the number that follows that of the event before it.
use vstd::prelude::*;
use crate::json::{
    dup_or_null, field, json_int, json_of_text, list_view, or_null, parse_json, push_value, put,
    seen, text_view, Fields, Json, JsonValue, Object,
};
use crate::number::number_as_i64;
use crate::order::{order_of, stable_order, SortKey};
use crate::protocol::responses::{
    call_item, call_item_value, carried_reasoning, empty_list, envelope, finished_part,
    finished_part_value, incomplete_reason, message_item, message_item_value, owned, reason_for,
    reasoning_in, response_envelope, responses_usage, status_for, usage_to_responses,
};
use crate::protocol::{
    events_view, first_item, first_of, fresh_id, id_taken, if_truthy, inner, inner_field,
    scalar_text, string_field, string_value, text_field, truthy_only, EventView, IdPool, IdPoolView,
    StreamEvent,
};

verus! {

/// The number after `n`; the smallest follows the largest.
pub open spec fn next_number(n: i64) -> i64 {
    if n == i64::MAX {
        i64::MIN
    } else {
        (n + 1) as i64
    }
}

fn number_after(n: i64) -> (r: i64)
    ensures
        r == next_number(n),
{
    if n == i64::MAX {
        i64::MIN
    } else {
        n + 1
    }
}

/// A call that is coming in piece by piece.
pub struct ToolAccum {
    pub key: i64,
    pub index: i64,
    pub item_id: String,
    pub call_id: String,
    pub name: String,
    pub arguments: String,
    pub announced: bool,
}

/// The plain value of a [`ToolAccum`].
pub struct ToolView {
    pub key: i64,
    pub index: i64,
    pub item_id: Seq<char>,
    pub call_id: Seq<char>,
    pub name: Seq<char>,
    pub arguments: Seq<char>,
    pub announced: bool,
}

impl View for ToolAccum {
    type V = ToolView;

    open spec fn view(&self) -> ToolView {
        ToolView {
            key: self.key,
            index: self.index,
            item_id: self.item_id@,
            call_id: self.call_id@,
            name: self.name@,
            arguments: self.arguments@,
            announced: self.announced,
        }
    }
}

/// The stream between two chunks. The calls stand in the order in which they were begun.
pub struct ResponsesStream {
    pub ids: IdPool,
    pub response_id: String,
    pub created: i64,
    pub model: String,
    pub request: JsonValue,
    pub sequence: i64,
    pub created_sent: bool,
    pub finished: bool,
    pub text_open: bool,
    pub text_index: i64,
    pub text_id: String,
    pub text: String,
    pub reasoning_open: bool,
    pub reasoning_closed: bool,
    pub reasoning_index: i64,
    pub reasoning_id: String,
    pub reasoning: String,
    pub tools: Vec<ToolAccum>,
    pub next_index: i64,
    pub usage: Option<JsonValue>,
    pub finish_reason: Option<String>,
    pub output_items: Vec<(i64, JsonValue)>,
}

/// The plain value of a [`ResponsesStream`].
pub struct StreamView {
    pub ids: IdPoolView,
    pub response_id: Seq<char>,
    pub created: i64,
    pub model: Seq<char>,
    pub request: Json,
    pub sequence: i64,
    pub created_sent: bool,
    pub finished: bool,
    pub text_open: bool,
    pub text_index: i64,
    pub text_id: Seq<char>,
    pub text: Seq<char>,
    pub reasoning_open: bool,
    pub reasoning_closed: bool,
    pub reasoning_index: i64,
    pub reasoning_id: Seq<char>,
    pub reasoning: Seq<char>,
    pub tools: Seq<ToolView>,
    pub next_index: i64,
    pub usage: Option<Json>,
    pub finish_reason: Option<Seq<char>>,
    pub output_items: Seq<(i64, Json)>,
}

pub open spec fn tools_view(tools: Seq<ToolAccum>) -> Seq<ToolView> {
    tools.map_values(|t: ToolAccum| t@)
}

pub open spec fn items_view(items: Seq<(i64, JsonValue)>) -> Seq<(i64, Json)> {
    items.map_values(|e: (i64, JsonValue)| (e.0, e.1@))
}

impl View for ResponsesStream {
    type V = StreamView;

    open spec fn view(&self) -> StreamView {
        StreamView {
            ids: self.ids@,
            response_id: self.response_id@,
            created: self.created,
            model: self.model@,
            request: self.request@,
            sequence: self.sequence,
            created_sent: self.created_sent,
            finished: self.finished,
            text_open: self.text_open,
            text_index: self.text_index,
            text_id: self.text_id@,
            text: self.text@,
            reasoning_open: self.reasoning_open,
            reasoning_closed: self.reasoning_closed,
            reasoning_index: self.reasoning_index,
            reasoning_id: self.reasoning_id@,
            reasoning: self.reasoning@,
            tools: tools_view(self.tools@),
            next_index: self.next_index,
            usage: owned(self.usage),
            finish_reason: text_view(self.finish_reason),
            output_items: items_view(self.output_items@),
        }
    }
}

/// A stream with the events that it has given so far.
pub struct Step {
    pub state: StreamView,
    pub events: Seq<EventView>,
}

pub open spec fn step(stream: ResponsesStream, events: Seq<StreamEvent>) -> Step {
    Step { state: stream@, events: events_view(events) }
}

// ─── Events ──────────────────────────────────────────────────

/// An event with its name and its number.
pub open spec fn numbered(sequence: i64, name: Seq<char>, data: Fields) -> EventView {
    EventView {
        name,
        data: Json::Obj(
            put(
                put(data, "type"@, Json::Str(name)),
                "sequence_number"@,
                json_int(sequence as int),
            ),
        ),
    }
}

/// The stream gives one more event.
pub open spec fn emit(s: Step, name: Seq<char>, data: Fields) -> Step {
    Step {
        state: StreamView { sequence: next_number(s.state.sequence), ..s.state },
        events: s.events.push(numbered(s.state.sequence, name, data)),
    }
}

/// An event with the next number.
pub fn response_event(sequence: &mut i64, name: &str, data: Object) -> (out: StreamEvent)
    ensures
        out@ == numbered(*old(sequence), name@, data@),
        *final(sequence) == next_number(*old(sequence)),
{
    let current: i64 = *sequence;
    *sequence = number_after(current);
    let mut data = data;
    data.insert("type", JsonValue::text(name));
    data.insert("sequence_number", JsonValue::integer(current));
    StreamEvent { name: name.to_owned(), data: JsonValue::Obj(data) }
}

/// Adds an event to those given.
pub fn push_event(events: &mut Vec<StreamEvent>, event: StreamEvent)
    ensures
        events_view(final(events)@) == events_view(old(events)@).push(event@),
{
    let ghost before = events@;
    events.push(event);
    assert(events_view(events@) =~= events_view(before).push(event@));
}

pub open spec fn created_data(s: StreamView, now: i64) -> Fields {
    seq![
        (
            "response"@,
            Json::Obj(
                envelope(
                    s.response_id,
                    s.model,
                    "in_progress"@,
                    Seq::empty(),
                    Json::Null,
                    s.request,
                    s.created,
                    None,
                    now,
                ),
            ),
        ),
    ]
}

/// The first event, given once.
pub open spec fn announced(s: Step, now: i64) -> Step {
    if s.state.created_sent {
        s
    } else {
        emit(
            Step { state: StreamView { created_sent: true, ..s.state }, ..s },
            "response.created"@,
            created_data(s.state, now),
        )
    }
}

// ─── Reasoning ───────────────────────────────────────────────

pub open spec fn summary_part(text: Seq<char>) -> Json {
    Json::Obj(seq![("type"@, Json::Str("summary_text"@)), ("text"@, Json::Str(text))])
}

pub open spec fn reasoning_entry(id: Seq<char>, status: Seq<char>, summary: Seq<Json>) -> Json {
    Json::Obj(
        seq![
            ("type"@, Json::Str("reasoning"@)),
            ("id"@, Json::Str(id)),
            ("status"@, Json::Str(status)),
            ("summary"@, Json::Arr(summary)),
        ],
    )
}

pub open spec fn item_data(index: i64, item: Json) -> Fields {
    seq![("output_index"@, json_int(index as int)), ("item"@, item)]
}

/// The data of an event on a part of an item.
pub open spec fn part_data(
    index: i64,
    id: Seq<char>,
    which: Seq<char>,
    key: Seq<char>,
    value: Json,
) -> Fields {
    seq![
        ("output_index"@, json_int(index as int)),
        ("item_id"@, Json::Str(id)),
        (which, json_int(0)),
        (key, value),
    ]
}

/// Reasoning is begun, once.
pub open spec fn reasoning_begun(s: Step) -> Step {
    if s.state.reasoning_open {
        s
    } else {
        let id = fresh_id(s.state.ids, "rs"@);
        let index = s.state.next_index;
        let s = Step {
            state: StreamView {
                reasoning_open: true,
                reasoning_index: index,
                next_index: next_number(index),
                reasoning_id: id,
                ids: id_taken(s.state.ids),
                ..s.state
            },
            ..s
        };
        let s = emit(
            s,
            "response.output_item.added"@,
            item_data(index, reasoning_entry(id, "in_progress"@, Seq::empty())),
        );
        emit(
            s,
            "response.reasoning_summary_part.added"@,
            part_data(index, id, "summary_index"@, "part"@, summary_part(Seq::empty())),
        )
    }
}

/// Reasoning is being written.
pub open spec fn reasoning_writing(s: StreamView) -> bool {
    s.reasoning_open && !s.reasoning_closed
}

/// Reasoning that is being written is brought to its end.
pub open spec fn reasoning_ended(s: Step) -> Step {
    if !reasoning_writing(s.state) {
        s
    } else {
        let id = s.state.reasoning_id;
        let index = s.state.reasoning_index;
        let text = s.state.reasoning;
        let item = reasoning_entry(id, "completed"@, seq![summary_part(text)]);
        let s = Step {
            state: StreamView {
                reasoning_closed: true,
                output_items: s.state.output_items.push((index, item)),
                ..s.state
            },
            ..s
        };
        let s = emit(
            s,
            "response.reasoning_summary_text.done"@,
            part_data(index, id, "summary_index"@, "text"@, Json::Str(text)),
        );
        let s = emit(
            s,
            "response.reasoning_summary_part.done"@,
            part_data(index, id, "summary_index"@, "part"@, summary_part(text)),
        );
        emit(s, "response.output_item.done"@, item_data(index, item))
    }
}

/// A piece of reasoning.
pub open spec fn reasoning_written(s: Step, text: Seq<char>) -> Step {
    if text.len() == 0 {
        s
    } else {
        let s = reasoning_begun(s);
        let s = Step {
            state: StreamView { reasoning: s.state.reasoning + text, ..s.state },
            ..s
        };
        emit(
            s,
            "response.reasoning_summary_text.delta"@,
            part_data(
                s.state.reasoning_index,
                s.state.reasoning_id,
                "summary_index"@,
                "delta"@,
                Json::Str(text),
            ),
        )
    }
}

// ─── Text ────────────────────────────────────────────────────

/// The text part of a message that is being written.
pub open spec fn open_part() -> Json {
    Json::Obj(
        seq![
            ("type"@, Json::Str("output_text"@)),
            ("text"@, Json::Str(Seq::empty())),
            ("annotations"@, Json::Arr(Seq::empty())),
        ],
    )
}

pub open spec fn open_message(id: Seq<char>) -> Json {
    Json::Obj(
        seq![
            ("type"@, Json::Str("message"@)),
            ("id"@, Json::Str(id)),
            ("status"@, Json::Str("in_progress"@)),
            ("role"@, Json::Str("assistant"@)),
            ("content"@, Json::Arr(seq![open_part()])),
        ],
    )
}

/// Text is begun, unless it is being written.
pub open spec fn text_begun(s: Step) -> Step {
    if s.state.text_open {
        s
    } else {
        let id = fresh_id(s.state.ids, "msg"@);
        let index = s.state.next_index;
        let s = Step {
            state: StreamView {
                text_open: true,
                text_index: index,
                next_index: next_number(index),
                text_id: id,
                ids: id_taken(s.state.ids),
                ..s.state
            },
            ..s
        };
        let s = emit(s, "response.output_item.added"@, item_data(index, open_message(id)));
        emit(
            s,
            "response.content_part.added"@,
            part_data(index, id, "content_index"@, "part"@, open_part()),
        )
    }
}

/// Text that is being written is brought to its end.
pub open spec fn text_ended(s: Step) -> Step {
    if !s.state.text_open {
        s
    } else {
        let id = s.state.text_id;
        let index = s.state.text_index;
        let text = s.state.text;
        let item = message_item(id, text);
        let s = Step {
            state: StreamView {
                text_open: false,
                output_items: s.state.output_items.push((index, item)),
                ..s.state
            },
            ..s
        };
        let s = emit(
            s,
            "response.output_text.done"@,
            part_data(index, id, "content_index"@, "text"@, Json::Str(text)),
        );
        let s = emit(
            s,
            "response.content_part.done"@,
            part_data(index, id, "content_index"@, "part"@, finished_part(text)),
        );
        emit(s, "response.output_item.done"@, item_data(index, item))
    }
}

/// A piece of text. Reasoning is ended first.
pub open spec fn text_written(s: Step, text: Seq<char>) -> Step {
    if text.len() == 0 {
        s
    } else {
        let s = text_begun(reasoning_ended(s));
        let s = Step { state: StreamView { text: s.state.text + text, ..s.state }, ..s };
        emit(
            s,
            "response.output_text.delta"@,
            part_data(
                s.state.text_index,
                s.state.text_id,
                "content_index"@,
                "delta"@,
                Json::Str(text),
            ),
        )
    }
}

// ─── Calls ───────────────────────────────────────────────────

/// The number that tells the calls of one answer apart.
pub open spec fn tool_key(call: Json) -> i64 {
    match field(call, "index"@) {
        Some(Json::Num(n)) => match number_as_i64(n) {
            Some(k) => k,
            None => 0,
        },
        _ => 0,
    }
}

/// Where a call stands among those begun; the number of them where it is not there.
pub open spec fn tool_place(tools: Seq<ToolView>, key: i64) -> int
    decreases tools.len(),
{
    if tools.len() == 0 || tools[0].key == key {
        0
    } else {
        1 + tool_place(tools.drop_first(), key)
    }
}

/// A text that is there, or empty.
pub open spec fn piece(v: Option<Json>) -> Seq<char> {
    crate::json::text_or_empty(v)
}

/// The later of two texts that is not empty.
pub open spec fn latest(old: Seq<char>, new: Seq<char>) -> Seq<char> {
    if new.len() > 0 {
        new
    } else {
        old
    }
}

/// The call is begun, if it was not.
pub open spec fn tool_begun(s: StreamView, key: i64) -> StreamView {
    if tool_place(s.tools, key) < s.tools.len() {
        s
    } else {
        StreamView {
            tools: s.tools.push(
                ToolView {
                    key,
                    index: s.next_index,
                    item_id: fresh_id(s.ids, "fc"@),
                    call_id: Seq::empty(),
                    name: Seq::empty(),
                    arguments: Seq::empty(),
                    announced: false,
                },
            ),
            next_index: next_number(s.next_index),
            ids: id_taken(s.ids),
            ..s
        }
    }
}

/// The call with what a piece of it brings.
pub open spec fn tool_extended(t: ToolView, call: Json) -> ToolView {
    ToolView {
        call_id: latest(t.call_id, piece(field(call, "id"@))),
        name: latest(t.name, piece(inner_field(call, "function"@, "name"@))),
        arguments: t.arguments + piece(inner_field(call, "function"@, "arguments"@)),
        ..t
    }
}

/// The call can be announced now: it has a name, and was not announced.
pub open spec fn announces(t: ToolView) -> bool {
    !t.announced && t.name.len() > 0
}

/// The call once announced: it has an id, a fresh one where none came.
pub open spec fn tool_announced(t: ToolView, ids: IdPoolView) -> ToolView {
    ToolView {
        announced: true,
        call_id: if t.call_id.len() > 0 {
            t.call_id
        } else {
            fresh_id(ids, "call"@)
        },
        ..t
    }
}

pub open spec fn call_data(t: ToolView, key: Seq<char>, value: Seq<char>) -> Fields {
    seq![
        ("output_index"@, json_int(t.index as int)),
        ("item_id"@, Json::Str(t.item_id)),
        ("call_id"@, Json::Str(t.call_id)),
        ("name"@, Json::Str(t.name)),
        (key, Json::Str(value)),
    ]
}

/// The events that a piece of a call gives, once the call `t` holds it. What came before the
/// name is caught up on when the call is announced.
pub open spec fn call_events(s: Step, t: ToolView, now_announced: bool, arguments: Seq<char>) -> Step {
    if now_announced {
        let s = emit(
            s,
            "response.output_item.added"@,
            item_data(
                t.index,
                call_item(t.item_id, "in_progress"@, t.call_id, t.name, Seq::empty()),
            ),
        );
        if t.arguments.len() > 0 {
            emit(
                s,
                "response.function_call_arguments.delta"@,
                call_data(t, "delta"@, t.arguments),
            )
        } else {
            s
        }
    } else if arguments.len() > 0 {
        emit(s, "response.function_call_arguments.delta"@, call_data(t, "delta"@, arguments))
    } else {
        s
    }
}

/// A piece of a call. Reasoning and text are ended first.
pub open spec fn call_written(s: Step, call: Json) -> Step {
    let s = text_ended(reasoning_ended(s));
    let key = tool_key(call);
    let state = tool_begun(s.state, key);
    let at = tool_place(state.tools, key);
    let t = tool_extended(state.tools[at], call);
    let arguments = piece(inner_field(call, "function"@, "arguments"@));
    if announces(t) {
        let full = tool_announced(t, state.ids);
        call_events(
            Step {
                state: StreamView {
                    tools: state.tools.update(at, full),
                    ids: if t.call_id.len() > 0 {
                        state.ids
                    } else {
                        id_taken(state.ids)
                    },
                    ..state
                },
                ..s
            },
            full,
            true,
            arguments,
        )
    } else {
        call_events(
            Step { state: StreamView { tools: state.tools.update(at, t), ..state }, ..s },
            t,
            false,
            arguments,
        )
    }
}

pub open spec fn calls_written(s: Step, calls: Seq<Json>) -> Step
    decreases calls.len(),
{
    if calls.len() == 0 {
        s
    } else {
        call_written(calls_written(s, calls.drop_last()), calls.last())
    }
}

/// The call as it ends: with an id, a name and arguments in any case.
pub open spec fn tool_final(t: ToolView, ids: IdPoolView) -> ToolView {
    ToolView {
        call_id: if t.call_id.len() > 0 {
            t.call_id
        } else {
            fresh_id(ids, "call"@)
        },
        name: if t.name.len() > 0 {
            t.name
        } else {
            "unknown"@
        },
        arguments: if t.arguments.len() > 0 {
            t.arguments
        } else {
            "{}"@
        },
        ..t
    }
}

/// One call is brought to its end.
pub open spec fn tool_ended(s: Step, t: ToolView) -> Step {
    let f = tool_final(t, s.state.ids);
    let item = call_item(f.item_id, "completed"@, f.call_id, f.name, f.arguments);
    let s = Step {
        state: StreamView {
            output_items: s.state.output_items.push((f.index, item)),
            ids: if t.call_id.len() > 0 {
                s.state.ids
            } else {
                id_taken(s.state.ids)
            },
            ..s.state
        },
        ..s
    };
    let s = if t.announced {
        emit(
            s,
            "response.function_call_arguments.done"@,
            call_data(f, "arguments"@, f.arguments),
        )
    } else {
        s
    };
    emit(s, "response.output_item.done"@, item_data(f.index, item))
}

/// The first `n` calls are brought to their end, in the order in which they were begun.
pub open spec fn tools_ended(s: Step, tools: Seq<ToolView>, n: nat) -> Step
    decreases n,
{
    if n == 0 {
        s
    } else {
        tool_ended(tools_ended(s, tools, (n - 1) as nat), tools[n - 1])
    }
}

// ─── Chunks and the end ──────────────────────────────────────

/// The message of an error.
pub open spec fn error_message(error: Json) -> Seq<char> {
    if text_field(error, "message"@).len() > 0 {
        text_field(error, "message"@)
    } else {
        scalar_text(error)
    }
}

pub open spec fn error_code(error: Json) -> Json {
    or_null(if_truthy(field(error, "code"@)))
}

/// The response that an error ends.
pub open spec fn failed_response(s: StreamView, error: Json, now: i64) -> Fields {
    put(
        envelope(
            s.response_id,
            s.model,
            "failed"@,
            Seq::empty(),
            responses_usage(s.usage),
            s.request,
            s.created,
            None,
            now,
        ),
        "error"@,
        Json::Obj(
            seq![
                ("code"@, error_code(error)),
                ("message"@, Json::Str(error_message(error))),
            ],
        ),
    )
}

/// An error ends the stream.
pub open spec fn failed(s: Step, error: Json, now: i64) -> Step {
    let s = announced(Step { state: StreamView { finished: true, ..s.state }, ..s }, now);
    let s = emit(
        s,
        "error"@,
        seq![
            ("code"@, error_code(error)),
            ("message"@, Json::Str(error_message(error))),
            ("param"@, Json::Null),
        ],
    );
    emit(
        s,
        "response.failed"@,
        seq![("response"@, Json::Obj(failed_response(s.state, error, now)))],
    )
}

/// What a chunk says of the answer as a whole. The id is taken over as long as it was not told.
pub open spec fn noted(s: StreamView, chunk: Json) -> StreamView {
    let id = piece(field(chunk, "id"@));
    let finish = match first_of(chunk, "choices"@) {
        Some(c) => piece(field(c, "finish_reason"@)),
        None => Seq::empty(),
    };
    StreamView {
        response_id: if id.len() > 0 && !s.created_sent {
            id
        } else {
            s.response_id
        },
        usage: match field(chunk, "usage"@) {
            Some(Json::Obj(o)) => Some(Json::Obj(o)),
            _ => s.usage,
        },
        finish_reason: if finish.len() > 0 {
            Some(finish)
        } else {
            s.finish_reason
        },
        ..s
    }
}

/// What a chunk adds to the answer.
pub open spec fn chunk_delta(chunk: Json) -> Option<Json> {
    match first_of(chunk, "choices"@) {
        Some(c) => field(c, "delta"@),
        None => None,
    }
}

/// A delta: reasoning, text and calls, in this order.
pub open spec fn delta_written(s: Step, delta: Json) -> Step {
    let s = reasoning_written(s, carried_reasoning(delta));
    let s = text_written(s, piece(field(delta, "content"@)));
    match field(delta, "tool_calls"@) {
        Some(Json::Arr(calls)) => calls_written(s, calls),
        _ => s,
    }
}

/// One chunk of the Chat stream.
pub open spec fn chunk_consumed(s: Step, chunk: Json, now: i64) -> Step {
    if s.state.finished {
        s
    } else {
        match if_truthy(field(chunk, "error"@)) {
            Some(error) => failed(s, error, now),
            None => {
                let s = announced(Step { state: noted(s.state, chunk), ..s }, now);
                match chunk_delta(chunk) {
                    Some(delta) => delta_written(s, delta),
                    None => s,
                }
            },
        }
    }
}

/// The items in the order of their places in the answer.
pub open spec fn item_keys(items: Seq<(i64, Json)>) -> Seq<SortKey> {
    items.map_values(|e: (i64, Json)| SortKey { rank: 0, major: e.0, minor: 0 })
}

pub open spec fn sorted_items(items: Seq<(i64, Json)>) -> Seq<Json> {
    stable_order(item_keys(items)).map_values(|i: int| items[i].1)
}

/// Everything that is being written is brought to its end. A stream that gave nothing gives an
/// empty text.
pub open spec fn all_ended(s: Step) -> Step {
    let s = reasoning_ended(s);
    let s = if !s.state.text_open && s.state.tools.len() == 0 {
        text_begun(s)
    } else {
        s
    };
    let s = text_ended(s);
    tools_ended(s, s.state.tools, s.state.tools.len())
}

pub open spec fn final_reason(s: StreamView) -> Option<Seq<char>> {
    match s.finish_reason {
        Some(f) => incomplete_reason(f),
        None => None,
    }
}

/// The whole answer.
pub open spec fn final_response(s: StreamView, now: i64) -> Fields {
    envelope(
        s.response_id,
        s.model,
        status_for(final_reason(s)),
        sorted_items(s.output_items),
        responses_usage(s.usage),
        s.request,
        s.created,
        final_reason(s),
        now,
    )
}

/// The end of the stream, given once.
pub open spec fn ended(s: Step, now: i64) -> Step {
    if s.state.finished {
        s
    } else {
        let s = all_ended(
            announced(Step { state: StreamView { finished: true, ..s.state }, ..s }, now),
        );
        emit(
            s,
            "response.completed"@,
            seq![("response"@, Json::Obj(final_response(s.state, now)))],
        )
    }
}

/// The plain values of some payloads.
pub open spec fn payloads_view(payloads: Seq<Option<String>>) -> Seq<Option<Seq<char>>> {
    payloads.map_values(|p: Option<String>| text_view(p))
}

/// The text of a chunk. Text that is no JSON is passed over.
pub open spec fn text_consumed(s: Step, text: Seq<char>, now: i64) -> Step {
    match json_of_text(text) {
        Ok(chunk) => chunk_consumed(s, chunk, now),
        Err(_) => s,
    }
}

/// What was left in the reader, where marks of the end mean nothing any more.
pub open spec fn rest_consumed(s: Step, rest: Seq<Option<Seq<char>>>, now: i64) -> Step
    decreases rest.len(),
{
    if rest.len() == 0 {
        s
    } else {
        let before = rest_consumed(s, rest.drop_last(), now);
        match rest.last() {
            Some(text) => text_consumed(before, text, now),
            None => before,
        }
    }
}

/// The end of the Chat stream, after what was left in the reader.
pub open spec fn finished_with(s: Step, rest: Seq<Option<Seq<char>>>, now: i64) -> Step {
    if s.state.finished {
        s
    } else {
        ended(rest_consumed(s, rest, now), now)
    }
}

/// Payloads of the Chat stream: texts of chunks, and the mark of the end.
pub open spec fn payloads_consumed(
    s: Step,
    payloads: Seq<Option<Seq<char>>>,
    rest: Seq<Option<Seq<char>>>,
    now: i64,
) -> Step
    decreases payloads.len(),
{
    if payloads.len() == 0 {
        s
    } else {
        let before = payloads_consumed(s, payloads.drop_last(), rest, now);
        match payloads.last() {
            Some(text) => text_consumed(before, text, now),
            None => finished_with(before, rest, now),
        }
    }
}

// ─── The stream at work ──────────────────────────────────────

fn item_object(index: i64, item: JsonValue) -> (o: Object)
    ensures
        o@ == item_data(index, item@),
{
    let ghost made = item_data(index, item@);
    let mut o = Object::new();
    o.push("output_index", JsonValue::integer(index));
    o.push("item", item);
    assert(o@ =~= made);
    o
}

fn part_object(index: i64, id: &str, which: &str, key: &str, value: JsonValue) -> (o: Object)
    ensures
        o@ == part_data(index, id@, which@, key@, value@),
{
    let ghost made = part_data(index, id@, which@, key@, value@);
    let mut o = Object::new();
    o.push("output_index", JsonValue::integer(index));
    o.push("item_id", JsonValue::text(id));
    o.push(which, JsonValue::integer(0));
    o.push(key, value);
    assert(o@ =~= made);
    o
}

fn call_object(t: &ToolAccum, key: &str, value: &str) -> (o: Object)
    ensures
        o@ == call_data(t@, key@, value@),
{
    let mut o = Object::new();
    o.push("output_index", JsonValue::integer(t.index));
    o.push("item_id", JsonValue::text(t.item_id.as_str()));
    o.push("call_id", JsonValue::text(t.call_id.as_str()));
    o.push("name", JsonValue::text(t.name.as_str()));
    o.push(key, JsonValue::text(value));
    assert(o@ =~= call_data(t@, key@, value@));
    o
}

fn summary_value(text: &str) -> (out: JsonValue)
    ensures
        out@ == summary_part(text@),
{
    let mut o = Object::new();
    o.push("type", JsonValue::text("summary_text"));
    o.push("text", JsonValue::text(text));
    assert(o@ =~= summary_part(text@)->Obj_0);
    JsonValue::Obj(o)
}

fn reasoning_entry_value(id: &str, status: &str, summary: JsonValue) -> (out: JsonValue)
    requires
        summary@ is Arr,
    ensures
        out@ == reasoning_entry(id@, status@, summary@->Arr_0),
{
    let ghost made = reasoning_entry(id@, status@, summary@->Arr_0)->Obj_0;
    let mut o = Object::new();
    o.push("type", JsonValue::text("reasoning"));
    o.push("id", JsonValue::text(id));
    o.push("status", JsonValue::text(status));
    o.push("summary", summary);
    assert(o@ =~= made);
    JsonValue::Obj(o)
}

fn open_part_value() -> (out: JsonValue)
    ensures
        out@ == open_part(),
{
    let mut o = Object::new();
    o.push("type", JsonValue::text("output_text"));
    o.push("text", JsonValue::text(""));
    o.push("annotations", empty_list());
    proof {
        reveal_strlit("");
        assert(""@ =~= Seq::<char>::empty());
        assert(o@ =~= open_part()->Obj_0);
    }
    JsonValue::Obj(o)
}

fn open_message_value(id: &str) -> (out: JsonValue)
    ensures
        out@ == open_message(id@),
{
    let mut content: Vec<JsonValue> = Vec::new();
    push_value(&mut content, open_part_value());
    assert(list_view(content) =~= seq![open_part()]);
    let mut o = Object::new();
    o.push("type", JsonValue::text("message"));
    o.push("id", JsonValue::text(id));
    o.push("status", JsonValue::text("in_progress"));
    o.push("role", JsonValue::text("assistant"));
    o.push("content", JsonValue::Arr(content));
    assert(o@ =~= open_message(id@)->Obj_0);
    JsonValue::Obj(o)
}

fn text_piece(v: Option<&JsonValue>) -> (out: String)
    ensures
        out@ == piece(seen(v)),
{
    crate::json::text_in(v)
}

impl ResponsesStream {
    /// A stream at its start. `now` is the time in seconds.
    pub fn new(model: &str, request: &JsonValue, seed: &str, now: i64) -> (out: ResponsesStream)
        ensures
            out@ == started(model@, request@, seed@, now),
    {
        let mut ids = IdPool { seed: seed.to_owned(), next: 0 };
        let response_id = ids.fresh("resp");
        let tools: Vec<ToolAccum> = Vec::new();
        let output_items: Vec<(i64, JsonValue)> = Vec::new();
        assert(tools_view(tools@) =~= Seq::empty());
        assert(items_view(output_items@) =~= Seq::empty());
        let out = ResponsesStream {
            ids,
            response_id,
            created: now,
            model: model.to_owned(),
            request: request.dup(),
            sequence: 0,
            created_sent: false,
            finished: false,
            text_open: false,
            text_index: -1,
            text_id: String::new(),
            text: String::new(),
            reasoning_open: false,
            reasoning_closed: false,
            reasoning_index: -1,
            reasoning_id: String::new(),
            reasoning: String::new(),
            tools,
            next_index: 0,
            usage: None,
            finish_reason: None,
            output_items,
        };
        out
    }

    fn event(&mut self, name: &str, data: Object, out: &mut Vec<StreamEvent>)
        ensures
            step(*final(self), final(out)@) == emit(step(*old(self), old(out)@), name@, data@),
    {
        let event = response_event(&mut self.sequence, name, data);
        push_event(out, event);
    }

    fn emit_created(&mut self, now: i64, out: &mut Vec<StreamEvent>)
        ensures
            step(*final(self), final(out)@) == announced(step(*old(self), old(out)@), now),
    {
        if self.created_sent {
            return ;
        }
        let ghost data = created_data(self@, now);
        let none: Vec<JsonValue> = Vec::new();
        assert(list_view(none) =~= Seq::empty());
        let response = response_envelope(
            self.response_id.as_str(),
            self.model.as_str(),
            "in_progress",
            none,
            JsonValue::Null,
            &self.request,
            self.created,
            None,
            now,
        );
        let mut o = Object::new();
        o.push("response", JsonValue::Obj(response));
        assert(o@ =~= data);
        self.created_sent = true;
        self.event("response.created", o, out);
    }

    fn open_reasoning(&mut self, out: &mut Vec<StreamEvent>)
        ensures
            step(*final(self), final(out)@) == reasoning_begun(step(*old(self), old(out)@)),
    {
        if self.reasoning_open {
            return ;
        }
        let index: i64 = self.next_index;
        let id = self.ids.fresh("rs");
        self.reasoning_open = true;
        self.reasoning_index = index;
        self.next_index = number_after(index);
        self.reasoning_id = id.clone();
        let item = reasoning_entry_value(id.as_str(), "in_progress", empty_list());
        self.event("response.output_item.added", item_object(index, item), out);
        proof {
            reveal_strlit("");
            assert(""@ =~= Seq::<char>::empty());
        }
        let data = part_object(index, id.as_str(), "summary_index", "part", summary_value(""));
        self.event("response.reasoning_summary_part.added", data, out);
    }

    fn close_reasoning(&mut self, out: &mut Vec<StreamEvent>)
        ensures
            step(*final(self), final(out)@) == reasoning_ended(step(*old(self), old(out)@)),
    {
        if !self.reasoning_open || self.reasoning_closed {
            return ;
        }
        let index: i64 = self.reasoning_index;
        let id = self.reasoning_id.clone();
        let text = self.reasoning.clone();
        let mut summary: Vec<JsonValue> = Vec::new();
        push_value(&mut summary, summary_value(text.as_str()));
        assert(list_view(summary) =~= seq![summary_part(text@)]);
        let item = reasoning_entry_value(id.as_str(), "completed", JsonValue::Arr(summary));
        self.reasoning_closed = true;
        self.add_item(index, item.dup());
        let data = part_object(
            index,
            id.as_str(),
            "summary_index",
            "text",
            JsonValue::text(text.as_str()),
        );
        self.event("response.reasoning_summary_text.done", data, out);
        let data = part_object(
            index,
            id.as_str(),
            "summary_index",
            "part",
            summary_value(text.as_str()),
        );
        self.event("response.reasoning_summary_part.done", data, out);
        self.event("response.output_item.done", item_object(index, item), out);
    }

    fn add_item(&mut self, index: i64, item: JsonValue)
        ensures
            final(self)@ == (StreamView {
                output_items: old(self)@.output_items.push((index, item@)),
                ..old(self)@
            }),
    {
        let ghost before = self.output_items@;
        self.output_items.push((index, item));
        assert(items_view(self.output_items@) =~= items_view(before).push((index, item@)));
    }

    fn write_reasoning(&mut self, text: &str, out: &mut Vec<StreamEvent>)
        ensures
            step(*final(self), final(out)@) == reasoning_written(
                step(*old(self), old(out)@),
                text@,
            ),
    {
        if text.is_empty() {
            return ;
        }
        self.open_reasoning(out);
        self.reasoning.append(text);
        let data = part_object(
            self.reasoning_index,
            self.reasoning_id.as_str(),
            "summary_index",
            "delta",
            JsonValue::text(text),
        );
        self.event("response.reasoning_summary_text.delta", data, out);
    }

    fn open_text(&mut self, out: &mut Vec<StreamEvent>)
        ensures
            step(*final(self), final(out)@) == text_begun(step(*old(self), old(out)@)),
    {
        if self.text_open {
            return ;
        }
        let index: i64 = self.next_index;
        let id = self.ids.fresh("msg");
        self.text_open = true;
        self.text_index = index;
        self.next_index = number_after(index);
        self.text_id = id.clone();
        let item = open_message_value(id.as_str());
        self.event("response.output_item.added", item_object(index, item), out);
        let data = part_object(index, id.as_str(), "content_index", "part", open_part_value());
        self.event("response.content_part.added", data, out);
    }

    fn close_text(&mut self, out: &mut Vec<StreamEvent>)
        ensures
            step(*final(self), final(out)@) == text_ended(step(*old(self), old(out)@)),
    {
        if !self.text_open {
            return ;
        }
        let index: i64 = self.text_index;
        let id = self.text_id.clone();
        let text = self.text.clone();
        let item = message_item_value(id.as_str(), text.as_str());
        self.text_open = false;
        self.add_item(index, item.dup());
        let data = part_object(
            index,
            id.as_str(),
            "content_index",
            "text",
            JsonValue::text(text.as_str()),
        );
        self.event("response.output_text.done", data, out);
        let data = part_object(
            index,
            id.as_str(),
            "content_index",
            "part",
            finished_part_value(text.as_str()),
        );
        self.event("response.content_part.done", data, out);
        self.event("response.output_item.done", item_object(index, item), out);
    }

    fn write_text(&mut self, text: &str, out: &mut Vec<StreamEvent>)
        ensures
            step(*final(self), final(out)@) == text_written(step(*old(self), old(out)@), text@),
    {
        if text.is_empty() {
            return ;
        }
        self.close_reasoning(out);
        self.open_text(out);
        self.text.append(text);
        let data = part_object(
            self.text_index,
            self.text_id.as_str(),
            "content_index",
            "delta",
            JsonValue::text(text),
        );
        self.event("response.output_text.delta", data, out);
    }
}

/// A stream at its start.
pub open spec fn started(model: Seq<char>, request: Json, seed: Seq<char>, now: i64) -> StreamView {
    let pool = IdPoolView { seed, next: 0 };
    StreamView {
        ids: id_taken(pool),
        response_id: fresh_id(pool, "resp"@),
        created: now,
        model,
        request,
        sequence: 0,
        created_sent: false,
        finished: false,
        text_open: false,
        text_index: (-1) as i64,
        text_id: Seq::empty(),
        text: Seq::empty(),
        reasoning_open: false,
        reasoning_closed: false,
        reasoning_index: (-1) as i64,
        reasoning_id: Seq::empty(),
        reasoning: Seq::empty(),
        tools: Seq::empty(),
        next_index: 0,
        usage: None,
        finish_reason: None,
        output_items: Seq::empty(),
    }
}

fn find_tool(tools: &Vec<ToolAccum>, key: i64) -> (at: usize)
    ensures
        at == tool_place(tools_view(tools@), key),
        at <= tools@.len(),
{
    let ghost all = tools_view(tools@);
    assert(all.skip(0) =~= all);
    let mut i: usize = 0;
    while i < tools.len()
        invariant
            i <= tools@.len(),
            all == tools_view(tools@),
            tool_place(all, key) == i + tool_place(all.skip(i as int), key),
        decreases tools@.len() - i,
    {
        assert(all.skip(i as int)[0] == tools@[i as int]@);
        assert(all.skip(i as int).drop_first() =~= all.skip(i + 1));
        if tools[i].key == key {
            return i;
        }
        i = i + 1;
    }
    i
}

proof fn lemma_tool_place_push(tools: Seq<ToolView>, t: ToolView)
    requires
        tool_place(tools, t.key) == tools.len(),
    ensures
        tool_place(tools.push(t), t.key) == tools.len(),
    decreases tools.len(),
{
    if tools.len() > 0 {
        assert(tools.push(t).drop_first() =~= tools.drop_first().push(t));
        lemma_tool_place_push(tools.drop_first(), t);
    }
}

proof fn lemma_tool_place(tools: Seq<ToolView>, key: i64)
    ensures
        0 <= tool_place(tools, key) <= tools.len(),
    decreases tools.len(),
{
    if tools.len() > 0 {
        lemma_tool_place(tools.drop_first(), key);
    }
}

fn key_of(call: &JsonValue) -> (key: i64)
    ensures
        key == tool_key(call@),
{
    match call.get("index") {
        Some(v) => match v.as_i64() {
            Some(k) => k,
            None => 0,
        },
        None => 0,
    }
}

fn dup_tool(t: &ToolAccum) -> (out: ToolAccum)
    ensures
        out@ == t@,
{
    ToolAccum {
        key: t.key,
        index: t.index,
        item_id: t.item_id.clone(),
        call_id: t.call_id.clone(),
        name: t.name.clone(),
        arguments: t.arguments.clone(),
        announced: t.announced,
    }
}

fn extend_tool(t: &ToolAccum, call: &JsonValue) -> (out: ToolAccum)
    ensures
        out@ == tool_extended(t@, call@),
{
    let mut out = dup_tool(t);
    let id = text_piece(call.get("id"));
    if !id.as_str().is_empty() {
        out.call_id = id;
    }
    let name = text_piece(inner(call, "function", "name"));
    if !name.as_str().is_empty() {
        out.name = name;
    }
    let arguments = text_piece(inner(call, "function", "arguments"));
    out.arguments.append(arguments.as_str());
    out
}

impl ResponsesStream {
    fn begin_tool(&mut self, key: i64) -> (at: usize)
        ensures
            final(self)@ == tool_begun(old(self)@, key),
            at == tool_place(final(self)@.tools, key),
            at < final(self).tools@.len(),
    {
        let at = find_tool(&self.tools, key);
        assert(tools_view(self.tools@).len() == self.tools@.len());
        if at < self.tools.len() {
            return at;
        }
        let index: i64 = self.next_index;
        let item_id = self.ids.fresh("fc");
        self.next_index = number_after(index);
        let ghost before = self.tools@;
        let call_id = String::new();
        let name = String::new();
        let arguments = String::new();
        assert(call_id@ =~= Seq::<char>::empty());
        assert(name@ =~= Seq::<char>::empty());
        assert(arguments@ =~= Seq::<char>::empty());
        let tool = ToolAccum { key, index, item_id, call_id, name, arguments, announced: false };
        let ghost t = tool@;
        self.tools.push(tool);
        assert(tools_view(self.tools@) =~= tools_view(before).push(t));
        proof {
            lemma_tool_place_push(tools_view(before), t);
        }
        at
    }

    fn set_tool(&mut self, at: usize, tool: ToolAccum)
        requires
            at < old(self).tools@.len(),
        ensures
            final(self)@ == (StreamView {
                tools: old(self)@.tools.update(at as int, tool@),
                ..old(self)@
            }),
    {
        let ghost before = self.tools@;
        let ghost t = tool@;
        self.tools.set(at, tool);
        assert(tools_view(self.tools@) =~= tools_view(before).update(at as int, t));
    }

    fn consume_tool(&mut self, call: &JsonValue, out: &mut Vec<StreamEvent>)
        ensures
            step(*final(self), final(out)@) == call_written(step(*old(self), old(out)@), call@),
    {
        self.close_reasoning(out);
        self.close_text(out);
        let key = key_of(call);
        let at = self.begin_tool(key);
        assert(self@.tools[at as int] == self.tools@[at as int]@);
        let mut tool = extend_tool(&self.tools[at], call);
        let now_announced = !tool.announced && !tool.name.as_str().is_empty();
        if now_announced {
            if tool.call_id.as_str().is_empty() {
                tool.call_id = self.ids.fresh("call");
            }
            tool.announced = true;
        }
        let kept = dup_tool(&tool);
        self.set_tool(at, kept);
        if now_announced {
            let item = call_item_value(
                tool.item_id.as_str(),
                "in_progress",
                tool.call_id.as_str(),
                tool.name.as_str(),
                "",
            );
            proof {
                reveal_strlit("");
                assert(""@ =~= Seq::<char>::empty());
            }
            self.event("response.output_item.added", item_object(tool.index, item), out);
            if !tool.arguments.as_str().is_empty() {
                let data = call_object(&tool, "delta", tool.arguments.as_str());
                self.event("response.function_call_arguments.delta", data, out);
            }
        } else {
            let arguments = text_piece(inner(call, "function", "arguments"));
            if !arguments.as_str().is_empty() {
                let data = call_object(&tool, "delta", arguments.as_str());
                self.event("response.function_call_arguments.delta", data, out);
            }
        }
    }

    fn end_tool(&mut self, t: &ToolAccum, out: &mut Vec<StreamEvent>)
        ensures
            step(*final(self), final(out)@) == tool_ended(step(*old(self), old(out)@), t@),
            final(self).tools == old(self).tools,
    {
        let mut full = dup_tool(t);
        if full.call_id.as_str().is_empty() {
            full.call_id = self.ids.fresh("call");
        }
        if full.name.as_str().is_empty() {
            full.name = "unknown".to_owned();
        }
        if full.arguments.as_str().is_empty() {
            full.arguments = "{}".to_owned();
        }
        assert(full@ == tool_final(t@, old(self)@.ids));
        let item = call_item_value(
            full.item_id.as_str(),
            "completed",
            full.call_id.as_str(),
            full.name.as_str(),
            full.arguments.as_str(),
        );
        self.output_items.push((full.index, item.dup()));
        assert(items_view(self.output_items@) =~= items_view(old(self).output_items@).push(
            (full.index, item@),
        ));
        if t.announced {
            let data = call_object(&full, "arguments", full.arguments.as_str());
            let event = response_event(
                &mut self.sequence,
                "response.function_call_arguments.done",
                data,
            );
            push_event(out, event);
        }
        let event = response_event(
            &mut self.sequence,
            "response.output_item.done",
            item_object(full.index, item),
        );
        push_event(out, event);
    }

    fn close_tools(&mut self, out: &mut Vec<StreamEvent>)
        ensures
            step(*final(self), final(out)@) == tools_ended(
                step(*old(self), old(out)@),
                old(self)@.tools,
                old(self)@.tools.len(),
            ),
    {
        let ghost start = step(*self, out@);
        let ghost all = self@.tools;
        let count: usize = self.tools.len();
        for n in 0..count
            invariant
                self.tools@.len() == count,
                tools_view(self.tools@) == all,
                all.len() == count,
                step(*self, out@) == tools_ended(start, all, n as nat),
        {
            let tool = dup_tool(&self.tools[n]);
            assert(all[n as int] == tool@);
            self.end_tool(&tool, out);
        }
    }

    fn fail(&mut self, error: &JsonValue, now: i64, out: &mut Vec<StreamEvent>)
        ensures
            step(*final(self), final(out)@) == failed(step(*old(self), old(out)@), error@, now),
    {
        self.finished = true;
        self.emit_created(now, out);
        let first = string_field(error, "message");
        let message = if first.as_str().is_empty() {
            string_value(error)
        } else {
            first
        };
        assert(message@ =~= error_message(error@));
        let code = dup_or_null(truthy_only(error.get("code")));
        let mut o = Object::new();
        o.push("code", code.dup());
        o.push("message", JsonValue::text(message.as_str()));
        o.push("param", JsonValue::Null);
        assert(o@ =~= seq![
            ("code"@, error_code(error@)),
            ("message"@, Json::Str(error_message(error@))),
            ("param"@, Json::Null),
        ]);
        self.event("error", o, out);
        let ghost response = failed_response(self@, error@, now);
        let none: Vec<JsonValue> = Vec::new();
        assert(list_view(none) =~= Seq::empty());
        let mut failed_object = response_envelope(
            self.response_id.as_str(),
            self.model.as_str(),
            "failed",
            none,
            usage_to_responses(self.usage.as_ref()),
            &self.request,
            self.created,
            None,
            now,
        );
        let mut detail = Object::new();
        detail.push("code", code);
        detail.push("message", JsonValue::text(message.as_str()));
        assert(detail@ =~= seq![
            ("code"@, error_code(error@)),
            ("message"@, Json::Str(error_message(error@))),
        ]);
        failed_object.insert("error", JsonValue::Obj(detail));
        let mut data = Object::new();
        data.push("response", JsonValue::Obj(failed_object));
        assert(data@ =~= seq![("response"@, Json::Obj(response))]);
        self.event("response.failed", data, out);
    }

    fn note(&mut self, chunk: &JsonValue)
        ensures
            final(self)@ == noted(old(self)@, chunk@),
    {
        let id = text_piece(chunk.get("id"));
        if !id.as_str().is_empty() && !self.created_sent {
            self.response_id = id;
        }
        if let Some(usage) = chunk.get("usage") {
            if let JsonValue::Obj(_) = usage {
                self.usage = Some(usage.dup());
            }
        }
        if let Some(choice) = first_item(chunk, "choices") {
            let finish = text_piece(choice.get("finish_reason"));
            if !finish.as_str().is_empty() {
                self.finish_reason = Some(finish);
            }
        }
    }

    fn write_delta(&mut self, delta: &JsonValue, out: &mut Vec<StreamEvent>)
        ensures
            step(*final(self), final(out)@) == delta_written(step(*old(self), old(out)@), delta@),
    {
        self.write_reasoning(reasoning_in(delta).as_str(), out);
        self.write_text(text_piece(delta.get("content")).as_str(), out);
        if let Some(JsonValue::Arr(calls)) = delta.get("tool_calls") {
            let ghost start = step(*self, out@);
            let ghost all = list_view(*calls);
            assert(all.take(0) =~= Seq::empty());
            for i in 0..calls.len()
                invariant
                    all == list_view(*calls),
                    step(*self, out@) == calls_written(start, all.take(i as int)),
            {
                assert(all.take(i + 1).drop_last() =~= all.take(i as int));
                assert(all.take(i + 1).last() == calls@[i as int]@);
                self.consume_tool(&calls[i], out);
            }
            assert(all.take(all.len() as int) =~= all);
        }
    }

    /// One chunk of the Chat stream: the events that it gives are added to `out`.
    pub fn consume(&mut self, chunk: &JsonValue, now: i64, out: &mut Vec<StreamEvent>)
        ensures
            step(*final(self), final(out)@) == chunk_consumed(
                step(*old(self), old(out)@),
                chunk@,
                now,
            ),
    {
        if self.finished {
            return ;
        }
        if let Some(error) = truthy_only(chunk.get("error")) {
            self.fail(error, now, out);
            return ;
        }
        self.note(chunk);
        self.emit_created(now, out);
        let delta = match first_item(chunk, "choices") {
            Some(choice) => choice.get("delta"),
            None => None,
        };
        if let Some(delta) = delta {
            self.write_delta(delta, out);
        }
    }

    fn items_in_order(&self) -> (out: Vec<JsonValue>)
        ensures
            list_view(out) == sorted_items(self@.output_items),
    {
        let ghost items = self@.output_items;
        let mut keys: Vec<SortKey> = Vec::new();
        for i in 0..self.output_items.len()
            invariant
                items == self@.output_items,
                keys@ =~= item_keys(items).take(i as int),
        {
            keys.push(SortKey { rank: 0, major: self.output_items[i].0, minor: 0 });
        }
        assert(keys@ =~= item_keys(items));
        let order = order_of(&keys);
        let ghost positions = stable_order(keys@);
        let ghost all = sorted_items(items);
        let mut out: Vec<JsonValue> = Vec::new();
        assert(list_view(out) =~= all.take(0));
        for n in 0..order.len()
            invariant
                items == self@.output_items,
                keys@.len() == self.output_items@.len(),
                order@.len() == keys@.len(),
                positions == order@.map_values(|i: usize| i as int),
                all == positions.map_values(|i: int| items[i].1),
                forall|i: int| 0 <= i < order@.len() ==> #[trigger] order@[i] < keys@.len(),
                list_view(out) == all.take(n as int),
        {
            assert(positions[n as int] == order@[n as int] as int);
            assert(items[order@[n as int] as int].1 == self.output_items@[order@[n as int] as int].1@);
            push_value(&mut out, self.output_items[order[n]].1.dup());
            assert(list_view(out) =~= all.take(n + 1));
        }
        assert(all.take(all.len() as int) =~= all);
        out
    }

    fn end(&mut self, now: i64, out: &mut Vec<StreamEvent>)
        ensures
            step(*final(self), final(out)@) == ended(step(*old(self), old(out)@), now),
    {
        if self.finished {
            return ;
        }
        self.finished = true;
        self.emit_created(now, out);
        self.close_reasoning(out);
        assert(self@.tools.len() == self.tools@.len());
        if !self.text_open && self.tools.len() == 0 {
            self.open_text(out);
        }
        self.close_text(out);
        self.close_tools(out);
        let ghost response = final_response(self@, now);
        let reason = match &self.finish_reason {
            Some(finish) => reason_for(finish.as_str()),
            None => None,
        };
        let status = if reason.is_some() { "incomplete" } else { "completed" };
        let whole = response_envelope(
            self.response_id.as_str(),
            self.model.as_str(),
            status,
            self.items_in_order(),
            usage_to_responses(self.usage.as_ref()),
            &self.request,
            self.created,
            reason,
            now,
        );
        let mut data = Object::new();
        data.push("response", JsonValue::Obj(whole));
        assert(data@ =~= seq![("response"@, Json::Obj(response))]);
        self.event("response.completed", data, out);
    }

    fn consume_all(&mut self, texts: &Vec<Option<String>>, now: i64, out: &mut Vec<StreamEvent>)
        ensures
            step(*final(self), final(out)@) == rest_consumed(
                step(*old(self), old(out)@),
                payloads_view(texts@),
                now,
            ),
    {
        let ghost start = step(*self, out@);
        let ghost all = payloads_view(texts@);
        assert(all.take(0) =~= Seq::empty());
        for i in 0..texts.len()
            invariant
                all == payloads_view(texts@),
                step(*self, out@) == rest_consumed(start, all.take(i as int), now),
        {
            assert(all.take(i + 1).drop_last() =~= all.take(i as int));
            assert(all.take(i + 1).last() == text_view(texts@[i as int]));
            if let Some(text) = &texts[i] {
                if let Ok(chunk) = parse_json(text.as_str()) {
                    self.consume(&chunk, now, out);
                }
            }
        }
        assert(all.take(all.len() as int) =~= all);
    }

    /// The end of the Chat stream. `rest` is what was left in the reader.
    pub fn finish(&mut self, rest: &Vec<Option<String>>, now: i64, out: &mut Vec<StreamEvent>)
        ensures
            step(*final(self), final(out)@) == finished_with(
                step(*old(self), old(out)@),
                payloads_view(rest@),
                now,
            ),
    {
        if self.finished {
            return ;
        }
        self.consume_all(rest, now, out);
        self.end(now, out);
    }

    /// Payloads of the Chat stream as they come in. `rest` is what is left in the reader, for the
    /// case that the mark of the end is among them.
    pub fn push(
        &mut self,
        payloads: &Vec<Option<String>>,
        rest: &Vec<Option<String>>,
        now: i64,
        out: &mut Vec<StreamEvent>,
    )
        ensures
            step(*final(self), final(out)@) == payloads_consumed(
                step(*old(self), old(out)@),
                payloads_view(payloads@),
                payloads_view(rest@),
                now,
            ),
    {
        let ghost start = step(*self, out@);
        let ghost all = payloads_view(payloads@);
        assert(all.take(0) =~= Seq::empty());
        for i in 0..payloads.len()
            invariant
                all == payloads_view(payloads@),
                step(*self, out@) == payloads_consumed(
                    start,
                    all.take(i as int),
                    payloads_view(rest@),
                    now,
                ),
        {
            assert(all.take(i + 1).drop_last() =~= all.take(i as int));
            assert(all.take(i + 1).last() == text_view(payloads@[i as int]));
            match &payloads[i] {
                None => {
                    self.finish(rest, now, out);
                },
                Some(text) => {
                    if let Ok(chunk) = parse_json(text.as_str()) {
                        self.consume(&chunk, now, out);
                    }
                },
            }
        }
        assert(all.take(all.len() as int) =~= all);
    }
}

} // verus!
