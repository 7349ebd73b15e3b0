//! What a response tells of the Chat answer that it was made of.
use vstd::prelude::*;
use crate::json::{field, find, json_int, lemma_find_at, lemma_find_none, Fields, Json};
use crate::protocol::responses::{
    answer_created, answer_id, answer_items, answer_response, call_item, carried_reasoning,
    chat_finish, chat_message, chat_text, envelope, incomplete_reason, reasoning_item,
    responses_usage, status_for, with_call, with_calls, with_message, with_reasoning, Answer,
};
use crate::protocol::stream_laws::{
    head_of, lemma_call_item, lemma_message_item, lemma_reasons, part_of, reasons, said,
};
use crate::protocol::{fresh_id, joined_text, IdPoolView};

verus! {

// ─── The envelope ────────────────────────────────────────────

proof fn lemma_envelope_keys()
    ensures
        "id"@.len() == 2,
        "object"@.len() == 6,
        "created_at"@.len() == 10,
        "status"@.len() == 6,
        "completed_at"@.len() == 12,
        "background"@.len() == 10,
        "error"@.len() == 5,
        "incomplete_details"@.len() == 18,
        "instructions"@.len() == 12,
        "max_output_tokens"@.len() == 17,
        "max_tool_calls"@.len() == 14,
        "model"@.len() == 5,
        "output"@.len() == 6,
        "parallel_tool_calls"@.len() == 19,
        "previous_response_id"@.len() == 20,
        "reasoning"@.len() == 9,
        "store"@.len() == 5,
        "temperature"@.len() == 11,
        "text"@.len() == 4,
        "tool_choice"@.len() == 11,
        "tools"@.len() == 5,
        "top_logprobs"@.len() == 12,
        "top_p"@.len() == 5,
        "truncation"@.len() == 10,
        "usage"@.len() == 5,
        "user"@.len() == 4,
        "metadata"@.len() == 8,
        "output_text"@.len() == 11,
        "object"@ != "status"@,
        "object"@ != "output"@,
        "created_at"@ != "background"@,
        "created_at"@ != "truncation"@,
        "status"@ != "output"@,
        "completed_at"@ != "instructions"@,
        "completed_at"@ != "top_logprobs"@,
        "background"@ != "truncation"@,
        "error"@ != "model"@,
        "error"@ != "store"@,
        "error"@ != "tools"@,
        "error"@ != "top_p"@,
        "error"@ != "usage"@,
        "instructions"@ != "top_logprobs"@,
        "model"@ != "store"@,
        "model"@ != "tools"@,
        "model"@ != "top_p"@,
        "model"@ != "usage"@,
        "store"@ != "tools"@,
        "store"@ != "top_p"@,
        "store"@ != "usage"@,
        "temperature"@ != "tool_choice"@,
        "temperature"@ != "output_text"@,
        "text"@ != "user"@,
        "tool_choice"@ != "output_text"@,
        "tools"@ != "top_p"@,
        "tools"@ != "usage"@,
        "top_p"@ != "usage"@,
{
    reveal_strlit("id");
    reveal_strlit("object");
    reveal_strlit("created_at");
    reveal_strlit("status");
    reveal_strlit("completed_at");
    reveal_strlit("background");
    reveal_strlit("error");
    reveal_strlit("incomplete_details");
    reveal_strlit("instructions");
    reveal_strlit("max_output_tokens");
    reveal_strlit("max_tool_calls");
    reveal_strlit("model");
    reveal_strlit("output");
    reveal_strlit("parallel_tool_calls");
    reveal_strlit("previous_response_id");
    reveal_strlit("reasoning");
    reveal_strlit("store");
    reveal_strlit("temperature");
    reveal_strlit("text");
    reveal_strlit("tool_choice");
    reveal_strlit("tools");
    reveal_strlit("top_logprobs");
    reveal_strlit("top_p");
    reveal_strlit("truncation");
    reveal_strlit("usage");
    reveal_strlit("user");
    reveal_strlit("metadata");
    reveal_strlit("output_text");
    assert("object"@[0] != "status"@[0]);
    assert("object"@[1] != "output"@[1]);
    assert("created_at"@[0] != "background"@[0]);
    assert("created_at"@[0] != "truncation"@[0]);
    assert("status"@[0] != "output"@[0]);
    assert("completed_at"@[0] != "instructions"@[0]);
    assert("completed_at"@[0] != "top_logprobs"@[0]);
    assert("background"@[0] != "truncation"@[0]);
    assert("error"@[0] != "model"@[0]);
    assert("error"@[0] != "store"@[0]);
    assert("error"@[0] != "tools"@[0]);
    assert("error"@[0] != "top_p"@[0]);
    assert("error"@[0] != "usage"@[0]);
    assert("instructions"@[0] != "top_logprobs"@[0]);
    assert("model"@[0] != "store"@[0]);
    assert("model"@[0] != "tools"@[0]);
    assert("model"@[0] != "top_p"@[0]);
    assert("model"@[0] != "usage"@[0]);
    assert("store"@[0] != "tools"@[0]);
    assert("store"@[0] != "top_p"@[0]);
    assert("store"@[0] != "usage"@[0]);
    assert("temperature"@[1] != "tool_choice"@[1]);
    assert("temperature"@[0] != "output_text"@[0]);
    assert("text"@[0] != "user"@[0]);
    assert("tool_choice"@[0] != "output_text"@[0]);
    assert("tools"@[2] != "top_p"@[2]);
    assert("tools"@[0] != "usage"@[0]);
    assert("top_p"@[0] != "usage"@[0]);
}

/// The value of a request under a key, where it is set.
pub open spec fn asked(request: Json, key: Seq<char>, otherwise: Json) -> Json {
    if part_of(request, key) == Json::Null {
        otherwise
    } else {
        part_of(request, key)
    }
}

/// What every response says under its keys: what it was made of, and the settings of the request
/// or, where the request does not set them, the usual ones.
pub open spec fn enveloped(
    o: Fields,
    id: Seq<char>,
    model: Seq<char>,
    status: Seq<char>,
    output: Seq<Json>,
    usage: Json,
    request: Json,
    created: i64,
) -> bool {
    let r = Json::Obj(o);
    &&& part_of(r, "id"@) == Json::Str(id)
    &&& part_of(r, "object"@) == Json::Str("response"@)
    &&& part_of(r, "created_at"@) == json_int(created as int)
    &&& part_of(r, "status"@) == Json::Str(status)
    &&& part_of(r, "background"@) == Json::Bool(false)
    &&& part_of(r, "model"@) == Json::Str(model)
    &&& part_of(r, "output"@) == Json::Arr(output)
    &&& part_of(r, "previous_response_id"@) == Json::Null
    &&& part_of(r, "store"@) == Json::Bool(false)
    &&& part_of(r, "usage"@) == usage
    &&& part_of(request, "tools"@) is Arr ==> part_of(r, "tools"@) == part_of(request, "tools"@)
    &&& !(part_of(request, "tools"@) is Arr) ==> part_of(r, "tools"@) == Json::Arr(Seq::empty())
    &&& part_of(request, "text"@) != Json::Null ==> part_of(r, "text"@) == part_of(request, "text"@)
    &&& part_of(part_of(r, "reasoning"@), "effort"@) == part_of(
        part_of(request, "reasoning"@),
        "effort"@,
    )
    &&& part_of(part_of(r, "reasoning"@), "summary"@) == part_of(
        part_of(request, "reasoning"@),
        "summary"@,
    )
    &&& part_of(r, "instructions"@) == asked(request, "instructions"@, Json::Null)
    &&& part_of(r, "max_output_tokens"@) == asked(request, "max_output_tokens"@, Json::Null)
    &&& part_of(r, "max_tool_calls"@) == asked(request, "max_tool_calls"@, Json::Null)
    &&& part_of(r, "parallel_tool_calls"@) == asked(request, "parallel_tool_calls"@, Json::Bool(true))
    &&& part_of(r, "temperature"@) == asked(request, "temperature"@, json_int(1))
    &&& part_of(r, "tool_choice"@) == asked(request, "tool_choice"@, Json::Str("auto"@))
    &&& part_of(r, "top_logprobs"@) == asked(request, "top_logprobs"@, json_int(0))
    &&& part_of(r, "top_p"@) == asked(request, "top_p"@, json_int(1))
    &&& part_of(r, "truncation"@) == asked(request, "truncation"@, Json::Str("disabled"@))
    &&& part_of(r, "user"@) == asked(request, "user"@, Json::Null)
    &&& part_of(r, "metadata"@) == asked(request, "metadata"@, Json::Obj(Seq::empty()))
}

pub proof fn lemma_enveloped(
    o: Fields,
    id: Seq<char>,
    model: Seq<char>,
    status: Seq<char>,
    output: Seq<Json>,
    usage: Json,
    request: Json,
    created: i64,
    reason: Option<Seq<char>>,
    now: i64,
)
    requires
        ({
            let base = envelope(id, model, status, output, usage, request, created, reason, now);
            o == base || exists|v: Json| o == #[trigger] base.push(("output_text"@, v))
        }),
    ensures
        enveloped(o, id, model, status, output, usage, request, created),
        status == "completed"@ ==> find(o, "completed_at"@) == Some(json_int(now as int)),
        status != "completed"@ ==> find(o, "completed_at"@) == Some(Json::Null),
        find(o, "error"@) == Some(Json::Null),
        reason is None ==> find(o, "incomplete_details"@) == Some(Json::Null),
        reason is Some ==> part_of(part_of(Json::Obj(o), "incomplete_details"@), "reason"@)
            == Json::Str(reason->0),
{
    lemma_envelope_keys();
    lemma_find_at(o, "id"@, 0);
    lemma_find_at(o, "object"@, 1);
    lemma_find_at(o, "created_at"@, 2);
    lemma_find_at(o, "status"@, 3);
    lemma_find_at(o, "completed_at"@, 4);
    lemma_find_at(o, "background"@, 5);
    lemma_find_at(o, "error"@, 6);
    lemma_find_at(o, "incomplete_details"@, 7);
    lemma_find_at(o, "instructions"@, 8);
    lemma_find_at(o, "max_output_tokens"@, 9);
    lemma_find_at(o, "max_tool_calls"@, 10);
    lemma_find_at(o, "model"@, 11);
    lemma_find_at(o, "output"@, 12);
    lemma_find_at(o, "parallel_tool_calls"@, 13);
    lemma_find_at(o, "previous_response_id"@, 14);
    lemma_find_at(o, "reasoning"@, 15);
    lemma_find_at(o, "store"@, 16);
    lemma_find_at(o, "temperature"@, 17);
    lemma_find_at(o, "text"@, 18);
    lemma_find_at(o, "tool_choice"@, 19);
    lemma_find_at(o, "tools"@, 20);
    lemma_find_at(o, "top_logprobs"@, 21);
    lemma_find_at(o, "top_p"@, 22);
    lemma_find_at(o, "truncation"@, 23);
    lemma_find_at(o, "usage"@, 24);
    lemma_find_at(o, "user"@, 25);
    lemma_find_at(o, "metadata"@, 26);
    let thought = part_of(Json::Obj(o), "reasoning"@)->Obj_0;
    reveal_strlit("effort");
    reveal_strlit("summary");
    assert("effort"@.len() == 6 && "summary"@.len() == 7);
    lemma_find_at(thought, "effort"@, 0);
    lemma_find_at(thought, "summary"@, 1);
    if reason is Some {
        lemma_find_at(part_of(Json::Obj(o), "incomplete_details"@)->Obj_0, "reason"@, 0);
    }
}

/// The response of a stream says all that an envelope says.
pub proof fn envelope_tells_all(
    id: Seq<char>,
    model: Seq<char>,
    status: Seq<char>,
    output: Seq<Json>,
    usage: Json,
    request: Json,
    created: i64,
    reason: Option<Seq<char>>,
    now: i64,
)
    ensures
        ({
            let o = envelope(id, model, status, output, usage, request, created, reason, now);
            &&& enveloped(o, id, model, status, output, usage, request, created)
            &&& status == "completed"@ ==> find(o, "completed_at"@) == Some(json_int(now as int))
            &&& status != "completed"@ ==> find(o, "completed_at"@) == Some(Json::Null)
            &&& find(o, "error"@) == Some(Json::Null)
            &&& reason is None ==> find(o, "incomplete_details"@) == Some(Json::Null)
            &&& reason is Some ==> part_of(
                part_of(Json::Obj(o), "incomplete_details"@),
                "reason"@,
            ) == Json::Str(reason->0)
        }),
{
    lemma_enveloped(
        envelope(id, model, status, output, usage, request, created, reason, now),
        id,
        model,
        status,
        output,
        usage,
        request,
        created,
        reason,
        now,
    );
}

// ─── Usage ───────────────────────────────────────────────────

proof fn lemma_usage_keys()
    ensures
        "input_tokens"@.len() == 12,
        "input_tokens_details"@.len() == 20,
        "output_tokens"@.len() == 13,
        "output_tokens_details"@.len() == 21,
        "total_tokens"@.len() == 12,
        "input_tokens"@ != "total_tokens"@,
{
    reveal_strlit("input_tokens");
    reveal_strlit("input_tokens_details");
    reveal_strlit("output_tokens");
    reveal_strlit("output_tokens_details");
    reveal_strlit("total_tokens");
    assert("input_tokens"@[0] != "total_tokens"@[0]);
}

/// The tokens of the prompt are those of the input and the tokens of the completion those of the
/// output; the total is as told, but never less than both together.
pub proof fn usage_keeps_its_numbers(usage: Json, prompt: int, completion: int, total: int)
    requires
        usage is Obj,
        part_of(usage, "prompt_tokens"@) == json_int(prompt),
        part_of(usage, "completion_tokens"@) == json_int(completion),
        part_of(usage, "total_tokens"@) == json_int(total),
        0 <= prompt <= i64::MAX,
        0 <= completion <= i64::MAX,
        0 <= total <= i64::MAX,
        prompt + completion <= i64::MAX,
    ensures
        ({
            let r = responses_usage(Some(usage));
            &&& part_of(r, "input_tokens"@) == json_int(prompt)
            &&& part_of(r, "output_tokens"@) == json_int(completion)
            &&& total >= prompt + completion ==> part_of(r, "total_tokens"@) == json_int(total)
            &&& total < prompt + completion ==> part_of(r, "total_tokens"@) == json_int(
                prompt + completion,
            )
        }),
{
    lemma_usage_keys();
    let o = responses_usage(Some(usage))->Obj_0;
    let n = o.len() as int;
    lemma_find_at(o, "input_tokens"@, 0);
    lemma_find_at(o, "total_tokens"@, n - 1);
    if o[1].0 == "output_tokens"@ {
        lemma_find_at(o, "output_tokens"@, 1);
    } else {
        lemma_find_at(o, "output_tokens"@, 2);
    }
}

/// Tokens that came from a cache, and tokens that were spent on reasoning, are told where there
/// are any.
pub proof fn usage_keeps_its_details(usage: Json, cached: int, thought: int)
    requires
        usage is Obj,
        part_of(part_of(usage, "prompt_tokens_details"@), "cached_tokens"@) == json_int(cached),
        part_of(part_of(usage, "completion_tokens_details"@), "reasoning_tokens"@) == json_int(
            thought,
        ),
        0 < cached <= i64::MAX,
        0 <= thought <= i64::MAX,
    ensures
        ({
            let r = responses_usage(Some(usage));
            &&& part_of(part_of(r, "input_tokens_details"@), "cached_tokens"@) == json_int(cached)
            &&& thought > 0 ==> part_of(part_of(r, "output_tokens_details"@), "reasoning_tokens"@)
                == json_int(thought)
            &&& thought == 0 ==> field(r, "output_tokens_details"@) is None
        }),
{
    lemma_usage_keys();
    let o = responses_usage(Some(usage))->Obj_0;
    lemma_find_at(o, "input_tokens_details"@, 1);
    lemma_find_at(o[1].1->Obj_0, "cached_tokens"@, 0);
    if thought > 0 {
        lemma_find_at(o, "output_tokens_details"@, 3);
        lemma_find_at(o[3].1->Obj_0, "reasoning_tokens"@, 0);
    } else {
        lemma_find_none(o, "output_tokens_details"@);
    }
}

/// Where no usage is told, none is made up.
pub proof fn no_usage_is_made_up(usage: Option<Json>)
    requires
        !(usage matches Some(Json::Obj(_))),
    ensures
        responses_usage(usage) == Json::Null,
{
}

// ─── The items ───────────────────────────────────────────────

/// The first choice of a Chat answer.
pub open spec fn chosen(chat: Json) -> Json {
    match part_of(chat, "choices"@) {
        Json::Arr(choices) => head_of(Json::Arr(choices)),
        choices => part_of(choices, "0"@),
    }
}

/// The calls of a Chat answer.
pub open spec fn called(chat: Json) -> Seq<Json> {
    match part_of(part_of(chosen(chat), "message"@), "tool_calls"@) {
        Json::Arr(calls) => calls,
        _ => Seq::empty(),
    }
}

/// The item is the call: the same id to answer under, the same function, the same arguments.
pub open spec fn same_call(item: Json, call: Json) -> bool {
    let function = part_of(call, "function"@);
    &&& part_of(item, "type"@) == Json::Str("function_call"@)
    &&& part_of(item, "status"@) == Json::Str("completed"@)
    &&& part_of(call, "id"@) is Str ==> part_of(item, "call_id"@) == part_of(call, "id"@)
    &&& part_of(function, "name"@) is Str ==> part_of(item, "name"@) == part_of(function, "name"@)
    &&& part_of(function, "arguments"@) is Str ==> part_of(item, "arguments"@) == part_of(
        function,
        "arguments"@,
    )
    &&& field(function, "arguments"@) is None ==> part_of(item, "arguments"@) == Json::Str("{}"@)
}

proof fn lemma_same_call(a: Answer, call: Json)
    ensures
        with_call(a, call).output.len() == a.output.len() + 1,
        forall|i: int| 0 <= i < a.output.len() ==> with_call(a, call).output[i] == a.output[i],
        same_call(with_call(a, call).output.last(), call),
{
    let item = with_call(a, call).output.last();
    let o = item->Obj_0;
    lemma_call_item(
        said(o[1].1),
        said(o[2].1),
        said(o[3].1),
        said(o[4].1),
        said(o[5].1),
    );
    assert(item == call_item(said(o[1].1), said(o[2].1), said(o[3].1), said(o[4].1), said(o[5].1)));
}

proof fn lemma_same_calls(a: Answer, calls: Seq<Json>)
    ensures
        with_calls(a, calls).output.len() == a.output.len() + calls.len(),
        forall|i: int|
            0 <= i < a.output.len() ==> #[trigger] with_calls(a, calls).output[i] == a.output[i],
        forall|i: int|
            0 <= i < calls.len() ==> same_call(
                with_calls(a, calls).output[a.output.len() + i],
                #[trigger] calls[i],
            ),
    decreases calls.len(),
{
    if calls.len() > 0 {
        let short = calls.drop_last();
        lemma_same_calls(a, short);
        let before = with_calls(a, short);
        lemma_same_call(before, calls.last());
        let after = with_calls(a, calls);
        assert forall|i: int| 0 <= i < a.output.len() implies #[trigger] after.output[i]
            == a.output[i] by {
            assert(before.output[i] == a.output[i]);
        }
        assert forall|i: int| 0 <= i < calls.len() implies same_call(
            after.output[a.output.len() + i],
            #[trigger] calls[i],
        ) by {
            if i < short.len() {
                assert(short[i] == calls[i]);
                assert(after.output[a.output.len() + i] == before.output[a.output.len() + i]);
            }
        }
    }
}

/// The items of a response, from the front: its reasoning where there is any, its text where
/// there is any or nothing is called, and then one item for each call of the answer, in their
/// order, with the same id, the same name and the same arguments. Nothing else is in it.
pub proof fn response_holds_every_call(
    chat: Json,
    model: Seq<char>,
    request: Json,
    pool: IdPoolView,
    now: i64,
)
    ensures
        ({
            let output = part_of(
                Json::Obj(answer_response(chat, model, request, pool, now)),
                "output"@,
            )->Arr_0;
            let calls = called(chat);
            let before = output.len() - calls.len();
            &&& 0 <= before <= 2
            &&& forall|i: int|
                0 <= i < calls.len() ==> same_call(output[before + i], #[trigger] calls[i])
            &&& forall|i: int|
                0 <= i < before ==> part_of(#[trigger] output[i], "type"@) != Json::Str(
                    "function_call"@,
                )
        }),
{
    let message = part_of(chosen(chat), "message"@);
    let a = answer_items(chat, pool);
    lemma_answer_envelope(chat, model, request, pool, now);
    assert(chat_message(chat) == message);
    lemma_type_names();
    let start = Answer { output: Seq::empty(), pool };
    let first = with_reasoning(start, carried_reasoning(message));
    lemma_reasoning_item(fresh_id(start.pool, "rs"@), carried_reasoning(message));
    lemma_message_item(fresh_id(first.pool, "msg"@), chat_text(chat));
    match field(message, "tool_calls"@) {
        Some(Json::Arr(calls)) => {
            let second = if chat_text(chat).len() > 0 {
                with_message(first, chat_text(chat))
            } else {
                first
            };
            lemma_same_calls(second, calls);
        },
        _ => {},
    }
}

pub proof fn lemma_type_names()
    ensures
        "message"@.len() == 7,
        "reasoning"@.len() == 9,
        "function_call"@.len() == 13,
{
    reveal_strlit("message");
    reveal_strlit("reasoning");
    reveal_strlit("function_call");
}

pub proof fn lemma_reasoning_item(id: Seq<char>, text: Seq<char>)
    ensures
        ({
            let item = reasoning_item(id, text);
            &&& part_of(item, "type"@) == Json::Str("reasoning"@)
            &&& part_of(item, "id"@) == Json::Str(id)
            &&& part_of(head_of(part_of(item, "summary"@)), "text"@) == Json::Str(text)
        }),
{
    lemma_reasoning_keys();
    let o = reasoning_item(id, text)->Obj_0;
    lemma_find_at(o, "type"@, 0);
    lemma_find_at(o, "id"@, 1);
    lemma_find_at(o, "summary"@, 2);
    let part = o[2].1->Arr_0[0]->Obj_0;
    lemma_find_at(part, "text"@, 1);
}

proof fn lemma_reasoning_keys()
    ensures
        "type"@.len() == 4,
        "id"@.len() == 2,
        "summary"@.len() == 7,
        "text"@.len() == 4,
        "type"@ != "text"@,
{
    reveal_strlit("type");
    reveal_strlit("id");
    reveal_strlit("summary");
    reveal_strlit("text");
    assert("type"@[1] != "text"@[1]);
}

/// What a part of a content says.
pub open spec fn part_says(part: Json) -> Seq<char> {
    match part {
        Json::Str(s) => s,
        _ => said(part_of(part, "text"@)),
    }
}

/// What the parts of a content say, one after the other.
pub open spec fn parts_say(parts: Seq<Json>) -> Seq<char>
    decreases parts.len(),
{
    if parts.len() == 0 {
        Seq::empty()
    } else {
        part_says(parts[0]) + parts_say(parts.drop_first())
    }
}

/// A part holds its text as a text, or none.
pub open spec fn plain_part(part: Json) -> bool {
    part is Str || part_of(part, "text"@) is Str || part_of(part, "text"@) == Json::Null
}

proof fn lemma_parts_say(parts: Seq<Json>)
    requires
        forall|i: int| 0 <= i < parts.len() ==> plain_part(#[trigger] parts[i]),
    ensures
        joined_text(parts) == parts_say(parts),
    decreases parts.len(),
{
    if parts.len() > 0 {
        let short = parts.drop_last();
        assert forall|i: int| 0 <= i < short.len() implies plain_part(#[trigger] short[i]) by {
            assert(short[i] == parts[i]);
        }
        lemma_parts_say(short);
        assert(plain_part(parts[parts.len() - 1]));
        lemma_parts_say_last(parts);
    }
}

proof fn lemma_parts_say_last(parts: Seq<Json>)
    requires
        parts.len() > 0,
    ensures
        parts_say(parts) == parts_say(parts.drop_last()) + part_says(parts.last()),
    decreases parts.len(),
{
    let rest = parts.drop_first();
    if rest.len() == 0 {
        assert(parts_say(parts.drop_last()) =~= Seq::empty());
        assert(parts_say(rest) =~= Seq::empty());
        assert(parts_say(parts) =~= parts_say(parts.drop_last()) + part_says(parts.last()));
    } else {
        lemma_parts_say_last(rest);
        assert(parts.drop_last().drop_first() =~= rest.drop_last());
        assert(parts_say(parts) =~= parts_say(parts.drop_last()) + part_says(parts.last()));
    }
}

/// The text of an answer whose content is a list of parts is what its parts say, in order; so is
/// that of a message of the assistant.
pub proof fn parts_make_the_text(
    chat: Json,
    model: Seq<char>,
    request: Json,
    pool: IdPoolView,
    now: i64,
    parts: Seq<Json>,
)
    requires
        part_of(part_of(chosen(chat), "message"@), "content"@) == Json::Arr(parts),
        forall|i: int| 0 <= i < parts.len() ==> plain_part(#[trigger] parts[i]),
    ensures
        part_of(Json::Obj(answer_response(chat, model, request, pool, now)), "output_text"@)
            == Json::Str(parts_say(parts)),
{
    lemma_parts_say(parts);
    assert(chat_message(chat) == part_of(chosen(chat), "message"@));
    lemma_answer_envelope(chat, model, request, pool, now);
}

/// The answer ended in this way, or in none.
pub open spec fn finishes(choice: Json, finish: Seq<char>) -> bool {
    part_of(choice, "finish_reason"@) == Json::Str(finish) || (part_of(choice, "finish_reason"@)
        == Json::Null && finish.len() == 0)
}

/// The state of an answer that ended in this way: cut short at the limit of tokens or by a
/// filter, and complete otherwise.
pub open spec fn ends_as(o: Fields, finish: Seq<char>) -> bool {
    let r = Json::Obj(o);
    let reason = part_of(part_of(r, "incomplete_details"@), "reason"@);
    &&& finish == "length"@ ==> part_of(r, "status"@) == Json::Str("incomplete"@) && reason
        == Json::Str("max_output_tokens"@)
    &&& finish == "content_filter"@ ==> part_of(r, "status"@) == Json::Str("incomplete"@) && reason
        == Json::Str("content_filter"@)
    &&& finish != "length"@ && finish != "content_filter"@ ==> part_of(r, "status"@) == Json::Str(
        "completed"@,
    ) && find(o, "incomplete_details"@) == Some(Json::Null)
}

proof fn lemma_answer_envelope(
    chat: Json,
    model: Seq<char>,
    request: Json,
    pool: IdPoolView,
    now: i64,
)
    ensures
        ({
            let a = answer_items(chat, pool);
            let o = answer_response(chat, model, request, pool, now);
            let reason = incomplete_reason(chat_finish(chat));
            &&& enveloped(
                o,
                answer_id(chat, a.pool),
                model,
                status_for(reason),
                a.output,
                responses_usage(field(chat, "usage"@)),
                request,
                answer_created(chat, now),
            )
            &&& find(o, "output_text"@) == Some(Json::Str(chat_text(chat)))
            &&& ends_as(o, chat_finish(chat))
        }),
{
    let a = answer_items(chat, pool);
    let o = answer_response(chat, model, request, pool, now);
    let reason = incomplete_reason(chat_finish(chat));
    lemma_enveloped(
        o,
        answer_id(chat, a.pool),
        model,
        status_for(reason),
        a.output,
        responses_usage(field(chat, "usage"@)),
        request,
        answer_created(chat, now),
        reason,
        now,
    );
    lemma_find_at(o, "output_text"@, o.len() - 1);
    reveal_strlit("length");
    reveal_strlit("content_filter");
    assert("length"@.len() == 6 && "content_filter"@.len() == 14);
}

/// What a response says of the answer: its id, its time, its model, its usage, how it ended, and
/// the settings of the request. It holds the reasoning and the text of the answer, each whole.
pub proof fn response_tells_the_answer(
    chat: Json,
    model: Seq<char>,
    request: Json,
    pool: IdPoolView,
    now: i64,
    thought: Seq<char>,
    text: Seq<char>,
    finish: Seq<char>,
    created: i64,
)
    requires
        reasons(part_of(chosen(chat), "message"@), thought),
        finishes(chosen(chat), finish),
        ({
            let content = part_of(part_of(chosen(chat), "message"@), "content"@);
            content == Json::Str(text) || (content == Json::Null && text.len() == 0)
        }),
        part_of(chat, "created"@) == json_int(created as int) || (part_of(chat, "created"@)
            == Json::Null && created == now),
    ensures
        ({
            let o = answer_response(chat, model, request, pool, now);
            let output = part_of(Json::Obj(o), "output"@)->Arr_0;
            let id = said(part_of(Json::Obj(o), "id"@));
            let status = said(part_of(Json::Obj(o), "status"@));
            let usage = responses_usage(field(chat, "usage"@));
            let calls = called(chat);
            let lists = part_of(part_of(chosen(chat), "message"@), "tool_calls"@) is Arr;
            let thoughts: int = if thought.len() > 0 {
                1
            } else {
                0
            };
            let texts: int = if text.len() > 0 || !lists {
                1
            } else {
                0
            };
            &&& part_of(chat, "id"@) is Str && said(part_of(chat, "id"@)).len() > 0 ==> id == said(
                part_of(chat, "id"@),
            )
            &&& enveloped(o, id, model, status, output, usage, request, created)
            &&& ends_as(o, finish)
            &&& part_of(Json::Obj(o), "output_text"@) == Json::Str(text)
            &&& output.len() == thoughts + texts + calls.len()
            &&& thought.len() > 0 ==> {
                &&& part_of(output[0], "type"@) == Json::Str("reasoning"@)
                &&& part_of(head_of(part_of(output[0], "summary"@)), "text"@) == Json::Str(thought)
            }
            &&& texts == 1 ==> {
                &&& part_of(output[thoughts], "type"@) == Json::Str("message"@)
                &&& part_of(output[thoughts], "role"@) == Json::Str("assistant"@)
                &&& part_of(head_of(part_of(output[thoughts], "content"@)), "text"@) == Json::Str(
                    text,
                )
            }
        }),
{
    let message = part_of(chosen(chat), "message"@);
    lemma_reasons(message, thought);
    assert(chat_message(chat) == message);
    assert(chat_text(chat) =~= text);
    assert(chat_finish(chat) =~= finish);
    assert(answer_created(chat, now) == created);
    lemma_answer_envelope(chat, model, request, pool, now);
    let a = answer_items(chat, pool);
    let o = answer_response(chat, model, request, pool, now);
    assert(part_of(Json::Obj(o), "id"@) == Json::Str(answer_id(chat, a.pool)));
    assert(enveloped(
        o,
        answer_id(chat, a.pool),
        model,
        status_for(incomplete_reason(finish)),
        a.output,
        responses_usage(field(chat, "usage"@)),
        request,
        created,
    ));
    let start = Answer { output: Seq::empty(), pool };
    let first = with_reasoning(start, thought);
    lemma_reasoning_item(fresh_id(start.pool, "rs"@), thought);
    lemma_message_item(fresh_id(first.pool, "msg"@), text);
    match field(message, "tool_calls"@) {
        Some(Json::Arr(calls)) => {
            let second = if text.len() > 0 {
                with_message(first, text)
            } else {
                first
            };
            lemma_same_calls(second, calls);
            assert(a == with_calls(second, calls));
            if thought.len() > 0 {
                assert(a.output[0] == second.output[0]);
                assert(second.output[0] == reasoning_item(fresh_id(start.pool, "rs"@), thought));
            }
            if text.len() > 0 {
                let at = first.output.len() as int;
                assert(a.output[at] == second.output[at]);
            }
        },
        _ => {
            assert(a == with_message(first, text));
        },
    }
}

// ─── Ids ─────────────────────────────────────────────────────

proof fn lemma_call_ids(a: Answer, calls: Seq<Json>, i: int)
    requires
        a.pool.next + calls.len() <= u64::MAX,
    ensures
        with_calls(a, calls).pool.next == a.pool.next + calls.len(),
        with_calls(a, calls).pool.seed == a.pool.seed,
        with_calls(a, calls).output.len() == a.output.len() + calls.len(),
        0 <= i < calls.len() ==> part_of(with_calls(a, calls).output[a.output.len() + i], "id"@)
            == Json::Str(
            fresh_id(IdPoolView { next: (a.pool.next + i) as u64, ..a.pool }, "fc"@),
        ),
    decreases calls.len(),
{
    if calls.len() > 0 {
        let short = calls.drop_last();
        lemma_call_ids(a, short, i);
        let before = with_calls(a, short);
        let item = with_calls(a, calls).output.last();
        let o = item->Obj_0;
        lemma_call_item(said(o[1].1), said(o[2].1), said(o[3].1), said(o[4].1), said(o[5].1));
        assert(item == call_item(
            said(o[1].1),
            said(o[2].1),
            said(o[3].1),
            said(o[4].1),
            said(o[5].1),
        ));
        if i == calls.len() - 1 {
            assert(before.pool == IdPoolView { next: (a.pool.next + i) as u64, ..a.pool });
        }
    }
}

/// No two calls of an answer have the same id.
pub proof fn calls_have_ids_of_their_own(a: Answer, calls: Seq<Json>, i: int, j: int)
    requires
        a.pool.next + calls.len() <= u64::MAX,
        0 <= i < j < calls.len(),
    ensures
        part_of(with_calls(a, calls).output[a.output.len() + i], "id"@) != part_of(
            with_calls(a, calls).output[a.output.len() + j],
            "id"@,
        ),
{
    lemma_call_ids(a, calls, i);
    lemma_call_ids(a, calls, j);
    let x = IdPoolView { next: (a.pool.next + i) as u64, ..a.pool };
    let y = IdPoolView { next: (a.pool.next + j) as u64, ..a.pool };
    if fresh_id(x, "fc"@) == fresh_id(y, "fc"@) {
        crate::protocol::fresh_ids_differ(x, y, "fc"@);
    }
}

} // verus!
