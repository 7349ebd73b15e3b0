//! What a collected answer holds of the chunks that it was made of.
use vstd::prelude::*;
use crate::json::{json_int, lemma_find_at, Json};
use crate::protocol::answer_laws::{ends_as, enveloped, lemma_enveloped, lemma_reasoning_item};
use crate::protocol::call_laws::{newer, piece_of, whole_arguments};
use crate::protocol::responses::{
    call_item, incomplete_reason, responses_usage, status_for, with_message, with_reasoning, Answer,
};
use crate::protocol::responses_collector::{
    ascending, begun, collected, collected_items, collected_response, extended, payloads_collected,
    with_all_collected, with_collected, with_piece, with_pieces, CallView, CollectorView,
};
use crate::protocol::responses_stream::tool_key;
use crate::protocol::stream_laws::{
    brought, head_of, lemma_call_item, lemma_message_item, lemma_reasons, part_of, reasons, said,
    text_brought,
};
use crate::protocol::{fresh_id, IdPoolView};

verus! {

// ─── Chunks ──────────────────────────────────────────────────

/// A chunk is collected: its text and its reasoning behind those that were there, its usage, how
/// it ended and its time; of several ids the first stays.
pub proof fn chunk_is_collected(c: CollectorView, chunk: Json, thought: Seq<char>)
    requires
        reasons(brought(chunk), thought),
    ensures
        ({
            let d = collected(c, chunk);
            let choice = match part_of(chunk, "choices"@) {
                Json::Arr(choices) => head_of(Json::Arr(choices)),
                choices => part_of(choices, "0"@),
            };
            let finish = said(part_of(choice, "finish_reason"@));
            &&& d.text == c.text + said(part_of(brought(chunk), "content"@))
            &&& d.reasoning == c.reasoning + thought
            &&& part_of(brought(chunk), "tool_calls"@) is Arr ==> d.tools == with_pieces(
                c.tools,
                part_of(brought(chunk), "tool_calls"@)->Arr_0,
            )
            &&& !(part_of(brought(chunk), "tool_calls"@) is Arr) ==> d.tools == c.tools
            &&& c.id.len() > 0 ==> d.id == c.id
            &&& c.id.len() == 0 ==> d.id == said(part_of(chunk, "id"@))
            &&& part_of(chunk, "usage"@) is Obj ==> d.usage == Some(part_of(chunk, "usage"@))
            &&& !(part_of(chunk, "usage"@) is Obj) ==> d.usage == c.usage
            &&& finish.len() > 0 ==> d.finish_reason == Some(finish)
            &&& finish.len() == 0 ==> d.finish_reason == c.finish_reason
            &&& forall|k: i64|
                part_of(chunk, "created"@) == #[trigger] json_int(k as int) ==> d.created == k
            &&& part_of(chunk, "created"@) is Null ==> d.created == c.created
        }),
{
    lemma_reasons(brought(chunk), thought);
    assert(c.text + Seq::<char>::empty() =~= c.text);
    assert(c.reasoning + Seq::<char>::empty() =~= c.reasoning);
}

/// The text of all chunks is collected, joined in order, and nothing else.
pub proof fn whole_text_is_collected(c: CollectorView, payloads: Seq<Option<Seq<char>>>)
    ensures
        payloads_collected(c, payloads).text == c.text + text_brought(payloads),
    decreases payloads.len(),
{
    if payloads.len() > 0 {
        whole_text_is_collected(c, payloads.drop_last());
        let before = payloads_collected(c, payloads.drop_last());
        match payloads.last() {
            Some(text) => match crate::json::json_of_text(text) {
                Ok(chunk) => {
                    let piece = said(part_of(brought(chunk), "content"@));
                    assert(before.text + Seq::<char>::empty() =~= before.text);
                    assert(collected(before, chunk).text == before.text + piece);
                    assert(c.text + text_brought(payloads.drop_last()) + piece =~= c.text + (
                    text_brought(payloads.drop_last()) + piece));
                },
                Err(_) => {},
            },
            None => {},
        }
    } else {
        assert(c.text + Seq::<char>::empty() =~= c.text);
    }
}

// ─── Calls ───────────────────────────────────────────────────

/// The call after a piece: the arguments of the piece behind those that were there, the name and
/// the id of the piece where it has them.
pub open spec fn call_extended(before: CallView, call: Json, after: CallView) -> bool {
    let function = part_of(call, "function"@);
    &&& after.key == before.key
    &&& after.arguments == before.arguments + said(part_of(function, "arguments"@))
    &&& after.name == newer(before.name, part_of(function, "name"@))
    &&& after.call_id == newer(before.call_id, part_of(call, "id"@))
}

/// A call that was not there yet.
pub open spec fn blank_call(key: i64) -> CallView {
    CallView { key, call_id: Seq::empty(), name: Seq::empty(), arguments: Seq::empty() }
}

/// A piece extends the call with its key, which it begins where it was not there, and leaves the
/// other calls as they are.
pub proof fn piece_extends_its_call(calls: Seq<CallView>, call: Json, key: i64)
    requires
        ascending(calls),
        piece_of(call, key),
    ensures
        ({
            let after = with_piece(calls, call);
            let known = exists|k: int| 0 <= k < calls.len() && (#[trigger] calls[k]).key == key;
            &&& known ==> after.len() == calls.len() && forall|k: int|
                0 <= k < calls.len() && calls[k].key == key ==> call_extended(
                    calls[k],
                    call,
                    #[trigger] after[k],
                )
            &&& known ==> forall|k: int|
                0 <= k < calls.len() && calls[k].key != key ==> #[trigger] after[k] == calls[k]
            &&& !known ==> after.len() == calls.len() + 1 && exists|at: int|
                0 <= at < after.len() && call_extended(blank_call(key), call, #[trigger] after[at])
                    && after.remove(at) == calls
        }),
    decreases calls.len(),
{
    let after = with_piece(calls, call);
    assert(tool_key(call) == key);
    let fresh = extended(begun(key), call);
    assert(call_extended(blank_call(key), call, fresh));
    if calls.len() == 0 || calls.last().key < key {
        assert forall|k: int| 0 <= k < calls.len() implies (#[trigger] calls[k]).key != key by {
            if k < calls.len() - 1 {
                assert(calls[k].key < calls[calls.len() - 1].key);
            }
        }
        let n = calls.len() as int;
        assert(after[n] == fresh);
        assert(after.remove(n) =~= calls);
    } else if calls.last().key == key {
        assert(calls[calls.len() - 1].key == key);
        assert forall|k: int| 0 <= k < calls.len() - 1 implies (#[trigger] calls[k]).key != key by {
            assert(calls[k].key < calls[calls.len() - 1].key);
        }
    } else {
        let short = calls.drop_last();
        assert(ascending(short)) by {
            assert forall|i: int, j: int| 0 <= i < j < short.len() implies (#[trigger] short[i]).key
                < (#[trigger] short[j]).key by {
                assert(calls[i].key < calls[j].key);
            }
        }
        piece_extends_its_call(short, call, key);
        let inner = with_piece(short, call);
        assert(after == inner.push(calls.last()));
        let known = exists|k: int| 0 <= k < calls.len() && (#[trigger] calls[k]).key == key;
        if known {
            let k = choose|k: int| 0 <= k < calls.len() && (#[trigger] calls[k]).key == key;
            assert(short[k].key == key);
            assert forall|k: int| 0 <= k < calls.len() && calls[k].key == key implies call_extended(
                calls[k],
                call,
                #[trigger] after[k],
            ) by {
                assert(short[k] == calls[k]);
                assert(after[k] == inner[k]);
            }
            assert forall|k: int| 0 <= k < calls.len() && calls[k].key != key implies #[trigger] after[k]
                == calls[k] by {
                if k < short.len() {
                    assert(short[k] == calls[k]);
                    assert(after[k] == inner[k]);
                }
            }
        } else {
            assert forall|k: int| 0 <= k < short.len() implies (#[trigger] short[k]).key != key by {
                assert(short[k] == calls[k]);
            }
            let at = choose|at: int|
                0 <= at < inner.len() && call_extended(blank_call(key), call, #[trigger] inner[at])
                    && inner.remove(at) == short;
            assert(after[at] == inner[at]);
            assert(after.remove(at) =~= inner.remove(at).push(calls.last()));
            assert(after.remove(at) =~= calls);
        }
    }
}

// ─── The answer ──────────────────────────────────────────────

/// The item is the collected call: with its name and all its arguments, under its id.
pub open spec fn collected_call(item: Json, c: CallView) -> bool {
    &&& part_of(item, "type"@) == Json::Str("function_call"@)
    &&& part_of(item, "status"@) == Json::Str("completed"@)
    &&& c.call_id.len() > 0 ==> part_of(item, "call_id"@) == Json::Str(c.call_id)
    &&& c.name.len() > 0 ==> part_of(item, "name"@) == Json::Str(c.name)
    &&& c.name.len() == 0 ==> part_of(item, "name"@) == Json::Str("unknown"@)
    &&& part_of(item, "arguments"@) == whole_arguments(c.arguments)
}

proof fn lemma_collected_call(a: Answer, c: CallView)
    ensures
        with_collected(a, c).output.drop_last() == a.output,
        with_collected(a, c).output.len() == a.output.len() + 1,
        collected_call(with_collected(a, c).output.last(), c),
{
    let item = with_collected(a, c).output.last();
    let o = item->Obj_0;
    lemma_call_item(said(o[1].1), said(o[2].1), said(o[3].1), said(o[4].1), said(o[5].1));
    assert(item == call_item(said(o[1].1), said(o[2].1), said(o[3].1), said(o[4].1), said(o[5].1)));
    assert(with_collected(a, c).output.drop_last() =~= a.output);
}

proof fn lemma_collected_calls(a: Answer, calls: Seq<CallView>)
    ensures
        ({
            let b = with_all_collected(a, calls);
            &&& b.output.len() == a.output.len() + calls.len()
            &&& b.output.take(a.output.len() as int) == a.output
            &&& forall|i: int|
                0 <= i < calls.len() ==> collected_call(
                    b.output[a.output.len() + i],
                    #[trigger] calls[i],
                )
        }),
    decreases calls.len(),
{
    let b = with_all_collected(a, calls);
    if calls.len() > 0 {
        let short = calls.drop_last();
        lemma_collected_calls(a, short);
        let q = with_all_collected(a, short);
        lemma_collected_call(q, calls.last());
        assert(b.output.take(a.output.len() as int) =~= q.output.take(a.output.len() as int));
        assert forall|i: int| 0 <= i < calls.len() implies collected_call(
            b.output[a.output.len() + i],
            #[trigger] calls[i],
        ) by {
            if i < short.len() {
                assert(short[i] == calls[i]);
                assert(b.output.drop_last()[a.output.len() + i] == q.output[a.output.len() + i]);
            }
        }
    } else {
        assert(b.output.take(a.output.len() as int) =~= a.output);
    }
}

/// The collected answer holds what was collected: the reasoning, the text and every call, each
/// whole and in this order, and says its id, its time, its usage and how it ended.
pub proof fn collected_answer_holds_all(
    c: CollectorView,
    model: Seq<char>,
    request: Json,
    pool: IdPoolView,
    now: i64,
)
    ensures
        ({
            let o = collected_response(c, model, request, pool, now);
            let r = Json::Obj(o);
            let output = part_of(r, "output"@)->Arr_0;
            let thoughts: int = if c.reasoning.len() > 0 {
                1
            } else {
                0
            };
            let texts: int = if c.text.len() > 0 || c.tools.len() == 0 {
                1
            } else {
                0
            };
            &&& c.id.len() > 0 ==> part_of(r, "id"@) == Json::Str(c.id)
            &&& enveloped(
                o,
                said(part_of(r, "id"@)),
                model,
                said(part_of(r, "status"@)),
                output,
                responses_usage(c.usage),
                request,
                c.created,
            )
            &&& c.finish_reason is Some ==> ends_as(o, c.finish_reason->0)
            &&& c.finish_reason is None ==> ends_as(o, Seq::empty())
            &&& part_of(r, "output_text"@) == Json::Str(c.text)
            &&& output.len() == thoughts + texts + c.tools.len()
            &&& c.reasoning.len() > 0 ==> {
                &&& part_of(output[0], "type"@) == Json::Str("reasoning"@)
                &&& part_of(head_of(part_of(output[0], "summary"@)), "text"@) == Json::Str(
                    c.reasoning,
                )
            }
            &&& texts == 1 ==> {
                &&& part_of(output[thoughts], "type"@) == Json::Str("message"@)
                &&& part_of(output[thoughts], "role"@) == Json::Str("assistant"@)
                &&& part_of(head_of(part_of(output[thoughts], "content"@)), "text"@) == Json::Str(
                    c.text,
                )
            }
            &&& forall|i: int|
                0 <= i < c.tools.len() ==> collected_call(
                    output[thoughts + texts + i],
                    #[trigger] c.tools[i],
                )
        }),
{
    let a = collected_items(c, pool);
    let o = collected_response(c, model, request, pool, now);
    let finish = match c.finish_reason {
        Some(f) => f,
        None => Seq::empty(),
    };
    reveal_strlit("length");
    reveal_strlit("content_filter");
    reveal_strlit("output_text");
    assert("length"@.len() == 6 && "content_filter"@.len() == 14);
    let reason = incomplete_reason(finish);
    let id = if c.id.len() > 0 {
        c.id
    } else {
        fresh_id(a.pool, "resp"@)
    };
    lemma_enveloped(
        o,
        id,
        model,
        status_for(reason),
        a.output,
        responses_usage(c.usage),
        request,
        c.created,
        reason,
        now,
    );
    lemma_find_at(o, "output_text"@, o.len() - 1);
    let start = Answer { output: Seq::empty(), pool };
    let first = with_reasoning(start, c.reasoning);
    lemma_reasoning_item(fresh_id(start.pool, "rs"@), c.reasoning);
    let second = if c.text.len() > 0 || c.tools.len() == 0 {
        with_message(first, c.text)
    } else {
        first
    };
    lemma_message_item(fresh_id(first.pool, "msg"@), c.text);
    lemma_collected_calls(second, c.tools);
    assert(a == with_all_collected(second, c.tools));
    let n = second.output.len() as int;
    if c.reasoning.len() > 0 {
        assert(a.output.take(n)[0] == second.output[0]);
        assert(second.output[0] == first.output[0]);
    }
    if c.text.len() > 0 || c.tools.len() == 0 {
        assert(a.output.take(n)[n - 1] == second.output[n - 1]);
    }
}

} // verus!
