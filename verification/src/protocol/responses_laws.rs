//! What holds of every Responses stream.
use vstd::prelude::*;
use crate::json::{field, find_of_put, json_int, Fields, Json};
use crate::protocol::responses_stream::{
    all_ended, announced, announces, call_events, call_written, calls_written, chunk_consumed,
    delta_written, emit, ended, failed, finished_with, next_number, noted, numbered,
    payloads_consumed, reasoning_begun, reasoning_ended, reasoning_writing, reasoning_written,
    rest_consumed, text_begun, text_ended, text_written, tool_announced, tool_begun, tool_ended,
    tool_extended, tool_key, tool_place, tools_ended, Step, StreamView, ToolView,
};
use crate::protocol::EventView;

verus! {

/// The number that an event carries.
pub open spec fn number_of_event(e: EventView) -> Option<Json> {
    field(e.data, "sequence_number"@)
}

/// `b` continues `a`: the events of `a` come first, each further event carries the number that
/// follows that of the one before it, and a stream that was finished or announced stays so.
/// Numbers are counted up to the largest that there is.
pub open spec fn continues(a: Step, b: Step) -> bool {
    let more = b.events.len() - a.events.len();
    &&& more >= 0
    &&& b.events.take(a.events.len() as int) == a.events
    &&& (a.state.finished ==> b.state.finished)
    &&& (a.state.created_sent ==> b.state.created_sent)
    &&& a.state.sequence + more <= i64::MAX ==> {
        &&& b.state.sequence == a.state.sequence + more
        &&& forall|i: int|
            a.events.len() <= i < b.events.len() ==> number_of_event(#[trigger] b.events[i]) == Some(
                json_int(a.state.sequence + (i - a.events.len())),
            )
    }
}

proof fn lemma_continues_chain(a: Step, b: Step, c: Step)
    requires
        continues(a, b),
        continues(b, c),
    ensures
        continues(a, c),
{
    let n = a.events.len() as int;
    let m = b.events.len() as int;
    assert(c.events.take(m) == b.events);
    assert(c.events.take(n) =~= a.events) by {
        assert forall|i: int| 0 <= i < n implies c.events[i] == a.events[i] by {
            assert(c.events.take(m)[i] == b.events[i]);
            assert(b.events.take(n)[i] == a.events[i]);
        }
    }
    if a.state.sequence + (c.events.len() - n) <= i64::MAX {
        assert forall|i: int| n <= i < c.events.len() implies number_of_event(#[trigger] c.events[i])
            == Some(json_int(a.state.sequence + (i - n))) by {
            if i < m {
                assert(c.events.take(m)[i] == b.events[i]);
                assert(c.events[i] == b.events[i]);
                assert(number_of_event(b.events[i]) == Some(json_int(a.state.sequence + (i - n))));
            }
        }
    }
}

/// A step that changes the state but for number, end and announcement, and gives no event.
proof fn lemma_continues_state(a: Step, b: Step)
    requires
        b.events == a.events,
        b.state.sequence == a.state.sequence,
        a.state.finished ==> b.state.finished,
        a.state.created_sent ==> b.state.created_sent,
    ensures
        continues(a, b),
{
    assert(b.events.take(a.events.len() as int) =~= a.events);
}

proof fn lemma_emit(s: Step, name: Seq<char>, data: Fields)
    ensures
        continues(s, emit(s, name, data)),
{
    broadcast use find_of_put;

    let t = emit(s, name, data);
    let n = s.events.len() as int;
    assert(t.events.take(n) =~= s.events);
    assert(number_of_event(t.events[n]) == Some(json_int(s.state.sequence as int)));
}

/// Gives a name to the step between two events.
proof fn lemma_then_emit(a: Step, b: Step, name: Seq<char>, data: Fields)
    requires
        continues(a, b),
    ensures
        continues(a, emit(b, name, data)),
{
    lemma_emit(b, name, data);
    lemma_continues_chain(a, b, emit(b, name, data));
}

proof fn lemma_announced(s: Step, now: i64)
    ensures
        continues(s, announced(s, now)),
        announced(s, now).state.created_sent,
        announced(s, now).state.finished == s.state.finished,
{
    lemma_continues_state(s, s);
    if !s.state.created_sent {
        let t = Step { state: StreamView { created_sent: true, ..s.state }, ..s };
        lemma_continues_state(s, t);
        lemma_then_emit(
            s,
            t,
            "response.created"@,
            crate::protocol::responses_stream::created_data(s.state, now),
        );
    }
}

proof fn lemma_reasoning_begun(s: Step)
    ensures
        continues(s, reasoning_begun(s)),
        reasoning_begun(s).state.finished == s.state.finished,
{
    lemma_continues_state(s, s);
    if !s.state.reasoning_open {
        let id = crate::protocol::fresh_id(s.state.ids, "rs"@);
        let index = s.state.next_index;
        let t = Step {
            state: StreamView {
                reasoning_open: true,
                reasoning_index: index,
                next_index: next_number(index),
                reasoning_id: id,
                ids: crate::protocol::id_taken(s.state.ids),
                ..s.state
            },
            ..s
        };
        lemma_continues_state(s, t);
        let d1 = crate::protocol::responses_stream::item_data(
            index,
            crate::protocol::responses_stream::reasoning_entry(id, "in_progress"@, Seq::empty()),
        );
        lemma_then_emit(s, t, "response.output_item.added"@, d1);
        let u = emit(t, "response.output_item.added"@, d1);
        let d2 = crate::protocol::responses_stream::part_data(
            index,
            id,
            "summary_index"@,
            "part"@,
            crate::protocol::responses_stream::summary_part(Seq::empty()),
        );
        lemma_then_emit(s, u, "response.reasoning_summary_part.added"@, d2);
    }
}

/// Three events after a change of state.
proof fn lemma_three(
    s: Step,
    t: Step,
    n1: Seq<char>,
    d1: Fields,
    n2: Seq<char>,
    d2: Fields,
    n3: Seq<char>,
    d3: Fields,
)
    requires
        continues(s, t),
    ensures
        continues(s, emit(emit(emit(t, n1, d1), n2, d2), n3, d3)),
{
    lemma_then_emit(s, t, n1, d1);
    lemma_then_emit(s, emit(t, n1, d1), n2, d2);
    lemma_then_emit(s, emit(emit(t, n1, d1), n2, d2), n3, d3);
}

proof fn lemma_reasoning_ended(s: Step)
    ensures
        continues(s, reasoning_ended(s)),
        reasoning_ended(s).state.finished == s.state.finished,
        !reasoning_writing(reasoning_ended(s).state),
        reasoning_ended(s).state.text_open == s.state.text_open,
        reasoning_ended(s).state.tools == s.state.tools,
{
    lemma_continues_state(s, s);
    if reasoning_writing(s.state) {
        let id = s.state.reasoning_id;
        let index = s.state.reasoning_index;
        let text = s.state.reasoning;
        let item = crate::protocol::responses_stream::reasoning_entry(
            id,
            "completed"@,
            seq![crate::protocol::responses_stream::summary_part(text)],
        );
        let t = Step {
            state: StreamView {
                reasoning_closed: true,
                output_items: s.state.output_items.push((index, item)),
                ..s.state
            },
            ..s
        };
        lemma_continues_state(s, t);
        lemma_three(
            s,
            t,
            "response.reasoning_summary_text.done"@,
            crate::protocol::responses_stream::part_data(
                index,
                id,
                "summary_index"@,
                "text"@,
                Json::Str(text),
            ),
            "response.reasoning_summary_part.done"@,
            crate::protocol::responses_stream::part_data(
                index,
                id,
                "summary_index"@,
                "part"@,
                crate::protocol::responses_stream::summary_part(text),
            ),
            "response.output_item.done"@,
            crate::protocol::responses_stream::item_data(index, item),
        );
    }
}

proof fn lemma_text_begun(s: Step)
    ensures
        continues(s, text_begun(s)),
        text_begun(s).state.finished == s.state.finished,
        reasoning_writing(text_begun(s).state) == reasoning_writing(s.state),
        text_begun(s).state.tools == s.state.tools,
{
    lemma_continues_state(s, s);
    if !s.state.text_open {
        let id = crate::protocol::fresh_id(s.state.ids, "msg"@);
        let index = s.state.next_index;
        let t = Step {
            state: StreamView {
                text_open: true,
                text_index: index,
                next_index: next_number(index),
                text_id: id,
                ids: crate::protocol::id_taken(s.state.ids),
                ..s.state
            },
            ..s
        };
        lemma_continues_state(s, t);
        let d1 = crate::protocol::responses_stream::item_data(
            index,
            crate::protocol::responses_stream::open_message(id),
        );
        lemma_then_emit(s, t, "response.output_item.added"@, d1);
        lemma_then_emit(
            s,
            emit(t, "response.output_item.added"@, d1),
            "response.content_part.added"@,
            crate::protocol::responses_stream::part_data(
                index,
                id,
                "content_index"@,
                "part"@,
                crate::protocol::responses_stream::open_part(),
            ),
        );
    }
}

proof fn lemma_text_ended(s: Step)
    ensures
        continues(s, text_ended(s)),
        text_ended(s).state.finished == s.state.finished,
        !text_ended(s).state.text_open,
        reasoning_writing(text_ended(s).state) == reasoning_writing(s.state),
        text_ended(s).state.tools == s.state.tools,
{
    lemma_continues_state(s, s);
    if s.state.text_open {
        let id = s.state.text_id;
        let index = s.state.text_index;
        let text = s.state.text;
        let item = crate::protocol::responses::message_item(id, text);
        let t = Step {
            state: StreamView {
                text_open: false,
                output_items: s.state.output_items.push((index, item)),
                ..s.state
            },
            ..s
        };
        lemma_continues_state(s, t);
        lemma_three(
            s,
            t,
            "response.output_text.done"@,
            crate::protocol::responses_stream::part_data(
                index,
                id,
                "content_index"@,
                "text"@,
                Json::Str(text),
            ),
            "response.content_part.done"@,
            crate::protocol::responses_stream::part_data(
                index,
                id,
                "content_index"@,
                "part"@,
                crate::protocol::responses::finished_part(text),
            ),
            "response.output_item.done"@,
            crate::protocol::responses_stream::item_data(index, item),
        );
    }
}

proof fn lemma_reasoning_written(s: Step, text: Seq<char>)
    ensures
        continues(s, reasoning_written(s, text)),
        reasoning_written(s, text).state.finished == s.state.finished,
{
    lemma_continues_state(s, s);
    if text.len() > 0 {
        lemma_reasoning_begun(s);
        let t = reasoning_begun(s);
        let u = Step { state: StreamView { reasoning: t.state.reasoning + text, ..t.state }, ..t };
        lemma_continues_state(t, u);
        lemma_continues_chain(s, t, u);
        lemma_then_emit(
            s,
            u,
            "response.reasoning_summary_text.delta"@,
            crate::protocol::responses_stream::part_data(
                u.state.reasoning_index,
                u.state.reasoning_id,
                "summary_index"@,
                "delta"@,
                Json::Str(text),
            ),
        );
    }
}

proof fn lemma_text_written(s: Step, text: Seq<char>)
    ensures
        continues(s, text_written(s, text)),
        text_written(s, text).state.finished == s.state.finished,
        text.len() > 0 ==> !reasoning_writing(text_written(s, text).state),
{
    lemma_continues_state(s, s);
    if text.len() > 0 {
        lemma_reasoning_ended(s);
        let r = reasoning_ended(s);
        lemma_text_begun(r);
        let t = text_begun(r);
        lemma_continues_chain(s, r, t);
        let u = Step { state: StreamView { text: t.state.text + text, ..t.state }, ..t };
        lemma_continues_state(t, u);
        lemma_continues_chain(s, t, u);
        lemma_then_emit(
            s,
            u,
            "response.output_text.delta"@,
            crate::protocol::responses_stream::part_data(
                u.state.text_index,
                u.state.text_id,
                "content_index"@,
                "delta"@,
                Json::Str(text),
            ),
        );
    }
}

proof fn lemma_call_events(s: Step, t: Step, tool: ToolView, now_announced: bool, arguments: Seq<char>)
    requires
        continues(s, t),
    ensures
        continues(s, call_events(t, tool, now_announced, arguments)),
        call_events(t, tool, now_announced, arguments).state.finished == t.state.finished,
        call_events(t, tool, now_announced, arguments).state.text_open == t.state.text_open,
        reasoning_writing(call_events(t, tool, now_announced, arguments).state)
            == reasoning_writing(t.state),
{
    if now_announced {
        let d1 = crate::protocol::responses_stream::item_data(
            tool.index,
            crate::protocol::responses::call_item(
                tool.item_id,
                "in_progress"@,
                tool.call_id,
                tool.name,
                Seq::empty(),
            ),
        );
        lemma_then_emit(s, t, "response.output_item.added"@, d1);
        lemma_then_emit(
            s,
            emit(t, "response.output_item.added"@, d1),
            "response.function_call_arguments.delta"@,
            crate::protocol::responses_stream::call_data(tool, "delta"@, tool.arguments),
        );
    } else {
        lemma_then_emit(
            s,
            t,
            "response.function_call_arguments.delta"@,
            crate::protocol::responses_stream::call_data(tool, "delta"@, arguments),
        );
    }
}

proof fn lemma_call_written(s: Step, call: Json)
    ensures
        continues(s, call_written(s, call)),
        call_written(s, call).state.finished == s.state.finished,
        !call_written(s, call).state.text_open,
        !reasoning_writing(call_written(s, call).state),
{
    lemma_reasoning_ended(s);
    let a = reasoning_ended(s);
    lemma_text_ended(a);
    let b = text_ended(a);
    lemma_continues_chain(s, a, b);
    let key = tool_key(call);
    let state = tool_begun(b.state, key);
    let at = tool_place(state.tools, key);
    let t = tool_extended(state.tools[at], call);
    let arguments = crate::protocol::responses_stream::piece(
        crate::protocol::inner_field(call, "function"@, "arguments"@),
    );
    if announces(t) {
        let full = tool_announced(t, state.ids);
        let c = Step {
            state: StreamView {
                tools: state.tools.update(at, full),
                ids: if t.call_id.len() > 0 {
                    state.ids
                } else {
                    crate::protocol::id_taken(state.ids)
                },
                ..state
            },
            ..b
        };
        lemma_continues_state(b, c);
        lemma_continues_chain(s, b, c);
        lemma_call_events(s, c, full, true, arguments);
    } else {
        let c = Step { state: StreamView { tools: state.tools.update(at, t), ..state }, ..b };
        lemma_continues_state(b, c);
        lemma_continues_chain(s, b, c);
        lemma_call_events(s, c, t, false, arguments);
    }
}

proof fn lemma_calls_written(s: Step, calls: Seq<Json>)
    ensures
        continues(s, calls_written(s, calls)),
        calls_written(s, calls).state.finished == s.state.finished,
    decreases calls.len(),
{
    lemma_continues_state(s, s);
    if calls.len() > 0 {
        lemma_calls_written(s, calls.drop_last());
        let t = calls_written(s, calls.drop_last());
        lemma_call_written(t, calls.last());
        lemma_continues_chain(s, t, call_written(t, calls.last()));
    }
}

proof fn lemma_delta_written(s: Step, delta: Json)
    ensures
        continues(s, delta_written(s, delta)),
        delta_written(s, delta).state.finished == s.state.finished,
{
    let a = reasoning_written(s, crate::protocol::responses::carried_reasoning(delta));
    lemma_reasoning_written(s, crate::protocol::responses::carried_reasoning(delta));
    let text = crate::protocol::responses_stream::piece(field(delta, "content"@));
    lemma_text_written(a, text);
    let b = text_written(a, text);
    lemma_continues_chain(s, a, b);
    match field(delta, "tool_calls"@) {
        Some(Json::Arr(calls)) => {
            lemma_calls_written(b, calls);
            lemma_continues_chain(s, b, calls_written(b, calls));
        },
        _ => {},
    }
}

proof fn lemma_failed(s: Step, error: Json, now: i64)
    ensures
        continues(s, failed(s, error, now)),
        failed(s, error, now).state.finished,
        failed(s, error, now).state.created_sent,
{
    let t = Step { state: StreamView { finished: true, ..s.state }, ..s };
    lemma_continues_state(s, t);
    lemma_announced(t, now);
    let u = announced(t, now);
    lemma_continues_chain(s, t, u);
    let d1 = seq![
        ("code"@, crate::protocol::responses_stream::error_code(error)),
        ("message"@, Json::Str(crate::protocol::responses_stream::error_message(error))),
        ("param"@, Json::Null),
    ];
    lemma_then_emit(s, u, "error"@, d1);
    let v = emit(u, "error"@, d1);
    lemma_then_emit(
        s,
        v,
        "response.failed"@,
        seq![
            (
                "response"@,
                Json::Obj(
                    crate::protocol::responses_stream::failed_response(v.state, error, now),
                ),
            ),
        ],
    );
}

/// A chunk continues the stream: its events are numbered in a row after those before it. It
/// announces the stream, and ends it only where it is an error.
pub proof fn chunk_continues(s: Step, chunk: Json, now: i64)
    ensures
        continues(s, chunk_consumed(s, chunk, now)),
        !s.state.finished ==> chunk_consumed(s, chunk, now).state.created_sent,
        !s.state.finished ==> chunk_consumed(s, chunk, now).state.finished == (
        crate::protocol::if_truthy(field(chunk, "error"@)) is Some),
{
    lemma_continues_state(s, s);
    if !s.state.finished {
        match crate::protocol::if_truthy(field(chunk, "error"@)) {
            Some(error) => {
                lemma_failed(s, error, now);
            },
            None => {
                let t = Step { state: noted(s.state, chunk), ..s };
                lemma_continues_state(s, t);
                lemma_announced(t, now);
                let u = announced(t, now);
                lemma_continues_chain(s, t, u);
                match crate::protocol::responses_stream::chunk_delta(chunk) {
                    Some(delta) => {
                        lemma_delta_written(u, delta);
                        lemma_continues_chain(s, u, delta_written(u, delta));
                    },
                    None => {},
                }
            },
        }
    }
}

proof fn lemma_tool_ended(s: Step, t: ToolView)
    ensures
        continues(s, tool_ended(s, t)),
        tool_ended(s, t).state.finished == s.state.finished,
        tool_ended(s, t).state.text_open == s.state.text_open,
        reasoning_writing(tool_ended(s, t).state) == reasoning_writing(s.state),
{
    let f = crate::protocol::responses_stream::tool_final(t, s.state.ids);
    let item = crate::protocol::responses::call_item(
        f.item_id,
        "completed"@,
        f.call_id,
        f.name,
        f.arguments,
    );
    let a = Step {
        state: StreamView {
            output_items: s.state.output_items.push((f.index, item)),
            ids: if t.call_id.len() > 0 {
                s.state.ids
            } else {
                crate::protocol::id_taken(s.state.ids)
            },
            ..s.state
        },
        ..s
    };
    lemma_continues_state(s, a);
    let d = crate::protocol::responses_stream::call_data(f, "arguments"@, f.arguments);
    lemma_then_emit(s, a, "response.function_call_arguments.done"@, d);
    let b = if t.announced {
        emit(a, "response.function_call_arguments.done"@, d)
    } else {
        a
    };
    lemma_then_emit(
        s,
        b,
        "response.output_item.done"@,
        crate::protocol::responses_stream::item_data(f.index, item),
    );
}

proof fn lemma_tools_ended(s: Step, tools: Seq<ToolView>, n: nat)
    ensures
        continues(s, tools_ended(s, tools, n)),
        tools_ended(s, tools, n).state.finished == s.state.finished,
        tools_ended(s, tools, n).state.text_open == s.state.text_open,
        reasoning_writing(tools_ended(s, tools, n).state) == reasoning_writing(s.state),
    decreases n,
{
    lemma_continues_state(s, s);
    if n > 0 {
        let m = (n - 1) as nat;
        lemma_tools_ended(s, tools, m);
        let t = tools_ended(s, tools, m);
        lemma_tool_ended(t, tools[m as int]);
        lemma_continues_chain(s, t, tool_ended(t, tools[m as int]));
    }
}

proof fn lemma_all_ended(s: Step)
    ensures
        continues(s, all_ended(s)),
        all_ended(s).state.finished == s.state.finished,
        !all_ended(s).state.text_open,
        !reasoning_writing(all_ended(s).state),
{
    lemma_reasoning_ended(s);
    let a = reasoning_ended(s);
    lemma_text_begun(a);
    lemma_continues_chain(s, a, text_begun(a));
    let b = if !a.state.text_open && a.state.tools.len() == 0 {
        text_begun(a)
    } else {
        a
    };
    lemma_text_ended(b);
    let c = text_ended(b);
    lemma_continues_chain(s, b, c);
    lemma_tools_ended(c, c.state.tools, c.state.tools.len());
    lemma_continues_chain(s, c, tools_ended(c, c.state.tools, c.state.tools.len()));
}

/// The end continues the stream: its events are numbered in a row after those before it, nothing
/// is being written any more, and the last event is that of the completed answer.
pub proof fn end_continues(s: Step, now: i64)
    requires
        !s.state.finished,
    ensures
        continues(s, ended(s, now)),
        ended(s, now).state.finished,
        !ended(s, now).state.text_open,
        !reasoning_writing(ended(s, now).state),
        ended(s, now).events.len() > 0,
        ended(s, now).events.last().name == "response.completed"@,
{
    let t = Step { state: StreamView { finished: true, ..s.state }, ..s };
    lemma_continues_state(s, t);
    lemma_announced(t, now);
    let u = announced(t, now);
    lemma_continues_chain(s, t, u);
    lemma_all_ended(u);
    let v = all_ended(u);
    lemma_continues_chain(s, u, v);
    lemma_then_emit(
        s,
        v,
        "response.completed"@,
        seq![
            (
                "response"@,
                Json::Obj(crate::protocol::responses_stream::final_response(v.state, now)),
            ),
        ],
    );
}

/// After the end nothing comes: neither a chunk nor another end changes a finished stream.
pub proof fn after_the_end_nothing_comes(
    s: Step,
    payloads: Seq<Option<Seq<char>>>,
    rest: Seq<Option<Seq<char>>>,
    now: i64,
)
    requires
        s.state.finished,
    ensures
        payloads_consumed(s, payloads, rest, now) == s,
        finished_with(s, rest, now) == s,
    decreases payloads.len(),
{
    if payloads.len() > 0 {
        after_the_end_nothing_comes(s, payloads.drop_last(), rest, now);
    }
}

/// The end comes once: asked for it again, a stream gives nothing more.
pub proof fn end_comes_once(s: Step, rest: Seq<Option<Seq<char>>>, now: i64, later: i64)
    ensures
        finished_with(s, rest, now).state.finished,
        finished_with(finished_with(s, rest, now), rest, later) == finished_with(s, rest, now),
{
    if !s.state.finished {
        let t = rest_consumed(s, rest, now);
        if !t.state.finished {
            end_continues(t, now);
        }
    }
}

proof fn lemma_announced_first(s: Step, now: i64)
    requires
        s.events.len() == 0,
        !s.state.created_sent,
    ensures
        announced(s, now).events.len() == 1,
        announced(s, now).events[0].name == "response.created"@,
{
}

proof fn lemma_first_kept(a: Step, b: Step)
    requires
        continues(a, b),
        a.events.len() == 1,
        a.events[0].name == "response.created"@,
    ensures
        b.events.len() >= 1,
        b.events[0].name == "response.created"@,
{
    assert(b.events.take(1)[0] == a.events[0]);
}

/// Whatever a stream starts with, its first event is that it was created.
pub proof fn created_comes_first(s: Step, chunk: Json, now: i64)
    requires
        s.events.len() == 0,
        !s.state.created_sent,
        !s.state.finished,
    ensures
        chunk_consumed(s, chunk, now).events.len() > 0,
        chunk_consumed(s, chunk, now).events[0].name == "response.created"@,
        ended(s, now).events.len() > 0,
        ended(s, now).events[0].name == "response.created"@,
{
    let f = Step { state: StreamView { finished: true, ..s.state }, ..s };
    lemma_announced_first(f, now);
    let g = announced(f, now);
    match crate::protocol::if_truthy(field(chunk, "error"@)) {
        Some(error) => {
            let d1 = seq![
                ("code"@, crate::protocol::responses_stream::error_code(error)),
                ("message"@, Json::Str(crate::protocol::responses_stream::error_message(error))),
                ("param"@, Json::Null),
            ];
            lemma_emit(g, "error"@, d1);
            let v = emit(g, "error"@, d1);
            lemma_then_emit(
                g,
                v,
                "response.failed"@,
                seq![
                    (
                        "response"@,
                        Json::Obj(
                            crate::protocol::responses_stream::failed_response(v.state, error, now),
                        ),
                    ),
                ],
            );
            lemma_first_kept(g, failed(s, error, now));
        },
        None => {
            let t = Step { state: noted(s.state, chunk), ..s };
            lemma_announced_first(t, now);
            let u = announced(t, now);
            match crate::protocol::responses_stream::chunk_delta(chunk) {
                Some(delta) => {
                    lemma_delta_written(u, delta);
                    lemma_first_kept(u, delta_written(u, delta));
                },
                None => {},
            }
        },
    }
    lemma_all_ended(g);
    let v = all_ended(g);
    lemma_then_emit(
        g,
        v,
        "response.completed"@,
        seq![
            (
                "response"@,
                Json::Obj(crate::protocol::responses_stream::final_response(v.state, now)),
            ),
        ],
    );
    lemma_first_kept(g, ended(s, now));
}

/// Where text is written, reasoning is not.
pub proof fn text_ends_reasoning(s: Step, text: Seq<char>)
    requires
        text.len() > 0,
    ensures
        !reasoning_writing(text_written(s, text).state),
        text_written(s, text).state.text_open,
        text_written(s, text).state.text == s.state.text + text,
{
    lemma_text_written(s, text);
}

/// Where a call is written, neither reasoning nor text is.
pub proof fn call_ends_reasoning_and_text(s: Step, call: Json)
    ensures
        !call_written(s, call).state.text_open,
        !reasoning_writing(call_written(s, call).state),
{
    lemma_call_written(s, call);
}

} // verus!
