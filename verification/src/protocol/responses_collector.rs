//! A whole Chat stream collected into one Responses answer.
use vstd::prelude::*;
use crate::json::{
    field, json_of_text, list_view, parse_json, push_value, seen, text_view, Fields, Json,
    JsonValue,
};
use crate::number::number_as_i64;
use crate::protocol::responses::{
    answer, call_item, call_item_value, carried_reasoning, envelope, incomplete_reason, owned,
    push_message, push_reasoning, reason_for, reasoning_in, response_envelope, responses_usage,
    status_for, usage_to_responses, with_message, with_reasoning, Answer,
};
use crate::protocol::responses_stream::{latest, payloads_view, piece, tool_key};
use crate::protocol::{
    first_item, first_of, fresh_id, id_taken, inner, inner_field, IdPool, IdPoolView,
};

verus! {

/// A call as far as it has come in.
pub struct CollectedCall {
    pub key: i64,
    pub call_id: String,
    pub name: String,
    pub arguments: String,
}

/// The plain value of a [`CollectedCall`].
pub struct CallView {
    pub key: i64,
    pub call_id: Seq<char>,
    pub name: Seq<char>,
    pub arguments: Seq<char>,
}

impl View for CollectedCall {
    type V = CallView;

    open spec fn view(&self) -> CallView {
        CallView {
            key: self.key,
            call_id: self.call_id@,
            name: self.name@,
            arguments: self.arguments@,
        }
    }
}

pub open spec fn calls_view(calls: Seq<CollectedCall>) -> Seq<CallView> {
    calls.map_values(|c: CollectedCall| c@)
}

/// What has come in so far. The calls stand in the order of their keys, each key once.
pub struct ResponsesCollector {
    pub text: String,
    pub reasoning: String,
    pub tools: Vec<CollectedCall>,
    pub usage: Option<JsonValue>,
    pub finish_reason: Option<String>,
    pub id: String,
    pub created: i64,
}

/// The plain value of a [`ResponsesCollector`].
pub struct CollectorView {
    pub text: Seq<char>,
    pub reasoning: Seq<char>,
    pub tools: Seq<CallView>,
    pub usage: Option<Json>,
    pub finish_reason: Option<Seq<char>>,
    pub id: Seq<char>,
    pub created: i64,
}

impl View for ResponsesCollector {
    type V = CollectorView;

    open spec fn view(&self) -> CollectorView {
        CollectorView {
            text: self.text@,
            reasoning: self.reasoning@,
            tools: calls_view(self.tools@),
            usage: owned(self.usage),
            finish_reason: text_view(self.finish_reason),
            id: self.id@,
            created: self.created,
        }
    }
}

/// Keys in order, each once.
pub open spec fn ascending(calls: Seq<CallView>) -> bool {
    forall|i: int, j: int| 0 <= i < j < calls.len() ==> (#[trigger] calls[i]).key < (#[trigger] calls[j]).key
}

/// A call with what a piece of it brings.
pub open spec fn extended(c: CallView, call: Json) -> CallView {
    CallView {
        call_id: latest(c.call_id, piece(field(call, "id"@))),
        name: latest(c.name, piece(inner_field(call, "function"@, "name"@))),
        arguments: c.arguments + piece(inner_field(call, "function"@, "arguments"@)),
        ..c
    }
}

pub open spec fn begun(key: i64) -> CallView {
    CallView { key, call_id: Seq::empty(), name: Seq::empty(), arguments: Seq::empty() }
}

/// The calls with a piece of the one that has its key. A new key takes its place in the order.
pub open spec fn with_piece(calls: Seq<CallView>, call: Json) -> Seq<CallView>
    decreases calls.len(),
{
    let key = tool_key(call);
    if calls.len() == 0 || calls.last().key < key {
        calls.push(extended(begun(key), call))
    } else if calls.last().key == key {
        calls.drop_last().push(extended(calls.last(), call))
    } else {
        with_piece(calls.drop_last(), call).push(calls.last())
    }
}

pub open spec fn with_pieces(calls: Seq<CallView>, pieces: Seq<Json>) -> Seq<CallView>
    decreases pieces.len(),
{
    if pieces.len() == 0 {
        calls
    } else {
        with_piece(with_pieces(calls, pieces.drop_last()), pieces.last())
    }
}

/// The calls stay in the order of their keys, each key once.
pub proof fn pieces_keep_order(calls: Seq<CallView>, pieces: Seq<Json>)
    requires
        ascending(calls),
    ensures
        ascending(with_pieces(calls, pieces)),
    decreases pieces.len(),
{
    if pieces.len() > 0 {
        pieces_keep_order(calls, pieces.drop_last());
        lemma_piece_keeps_order(with_pieces(calls, pieces.drop_last()), pieces.last());
    }
}

proof fn lemma_piece_keeps_order(calls: Seq<CallView>, call: Json)
    requires
        ascending(calls),
    ensures
        ascending(with_piece(calls, call)),
        forall|i: int|
            0 <= i < with_piece(calls, call).len() ==> (#[trigger] with_piece(calls, call)[i]).key
                == tool_key(call) || (calls.len() > 0 && with_piece(calls, call)[i].key
                <= calls.last().key),
    decreases calls.len(),
{
    let key = tool_key(call);
    if calls.len() > 0 && calls.last().key > key {
        let short = calls.drop_last();
        assert(ascending(short)) by {
            assert forall|i: int, j: int| 0 <= i < j < short.len() implies (#[trigger] short[i]).key
                < (#[trigger] short[j]).key by {
                assert(calls[i].key < calls[j].key);
            }
        }
        lemma_piece_keeps_order(short, call);
        let r = with_piece(calls, call);
        let inner_calls = with_piece(short, call);
        if short.len() > 0 {
            assert(calls[short.len() - 1].key < calls[short.len() as int].key);
        }
        assert forall|i: int, j: int| 0 <= i < j < r.len() implies (#[trigger] r[i]).key < (
        #[trigger] r[j]).key by {
            assert(r[i] == inner_calls[i]);
            if j < inner_calls.len() {
                assert(r[j] == inner_calls[j]);
            }
        }
        assert forall|i: int| 0 <= i < r.len() implies (#[trigger] r[i]).key == key || r[i].key
            <= calls.last().key by {
            if i < inner_calls.len() {
                assert(r[i] == inner_calls[i]);
            }
        }
    } else if calls.len() > 0 {
        assert forall|i: int| 0 <= i < calls.len() implies (#[trigger] calls[i]).key
            <= calls.last().key by {
            if i < calls.len() - 1 {
                assert(calls[i].key < calls[calls.len() - 1].key);
            }
        }
    }
}

/// One chunk of the Chat stream. Of several ids the first counts, of all else the last.
pub open spec fn collected(c: CollectorView, chunk: Json) -> CollectorView {
    let id = piece(field(chunk, "id"@));
    let choice = first_of(chunk, "choices"@);
    let finish = match choice {
        Some(x) => piece(field(x, "finish_reason"@)),
        None => Seq::empty(),
    };
    let delta = match choice {
        Some(x) => field(x, "delta"@),
        None => None,
    };
    let c = CollectorView {
        id: if c.id.len() == 0 {
            id
        } else {
            c.id
        },
        created: match field(chunk, "created"@) {
            Some(Json::Num(n)) => match number_as_i64(n) {
                Some(k) => k,
                None => c.created,
            },
            _ => c.created,
        },
        usage: match field(chunk, "usage"@) {
            Some(Json::Obj(o)) => Some(Json::Obj(o)),
            _ => c.usage,
        },
        finish_reason: if finish.len() > 0 {
            Some(finish)
        } else {
            c.finish_reason
        },
        ..c
    };
    match delta {
        Some(d) => CollectorView {
            reasoning: c.reasoning + carried_reasoning(d),
            text: c.text + piece(field(d, "content"@)),
            tools: match field(d, "tool_calls"@) {
                Some(Json::Arr(pieces)) => with_pieces(c.tools, pieces),
                _ => c.tools,
            },
            ..c
        },
        None => c,
    }
}

/// Payloads of the Chat stream. The mark of the end and text that is no JSON are passed over.
pub open spec fn payloads_collected(c: CollectorView, payloads: Seq<Option<Seq<char>>>) -> CollectorView
    decreases payloads.len(),
{
    if payloads.len() == 0 {
        c
    } else {
        let before = payloads_collected(c, payloads.drop_last());
        match payloads.last() {
            Some(text) => match json_of_text(text) {
                Ok(chunk) => collected(before, chunk),
                Err(_) => before,
            },
            None => before,
        }
    }
}

/// However the payloads are cut into portions, the same is collected.
pub proof fn portions_do_not_matter(
    c: CollectorView,
    first: Seq<Option<Seq<char>>>,
    second: Seq<Option<Seq<char>>>,
)
    ensures
        payloads_collected(payloads_collected(c, first), second) == payloads_collected(
            c,
            first + second,
        ),
    decreases second.len(),
{
    if second.len() == 0 {
        assert(first + second =~= first);
    } else {
        portions_do_not_matter(c, first, second.drop_last());
        assert((first + second).drop_last() =~= first + second.drop_last());
    }
}

/// A call of the collected answer, with an id, a name and arguments in any case.
pub open spec fn with_collected(a: Answer, c: CallView) -> Answer {
    let pool = id_taken(a.pool);
    Answer {
        output: a.output.push(
            call_item(
                fresh_id(a.pool, "fc"@),
                "completed"@,
                if c.call_id.len() > 0 {
                    c.call_id
                } else {
                    fresh_id(pool, "call"@)
                },
                if c.name.len() > 0 {
                    c.name
                } else {
                    "unknown"@
                },
                if c.arguments.len() > 0 {
                    c.arguments
                } else {
                    "{}"@
                },
            ),
        ),
        pool: if c.call_id.len() > 0 {
            pool
        } else {
            id_taken(pool)
        },
    }
}

pub open spec fn with_all_collected(a: Answer, calls: Seq<CallView>) -> Answer
    decreases calls.len(),
{
    if calls.len() == 0 {
        a
    } else {
        with_collected(with_all_collected(a, calls.drop_last()), calls.last())
    }
}

/// The items of the collected answer: reasoning, text and calls. Where nothing is called there is
/// a text, be it empty.
pub open spec fn collected_items(c: CollectorView, pool: IdPoolView) -> Answer {
    let a = with_reasoning(Answer { output: Seq::empty(), pool }, c.reasoning);
    let a = if c.text.len() > 0 || c.tools.len() == 0 {
        with_message(a, c.text)
    } else {
        a
    };
    with_all_collected(a, c.tools)
}

/// The collected answer. `now` is the time in seconds.
pub open spec fn collected_response(
    c: CollectorView,
    model: Seq<char>,
    request: Json,
    pool: IdPoolView,
    now: i64,
) -> Fields {
    let a = collected_items(c, pool);
    let reason = match c.finish_reason {
        Some(f) => incomplete_reason(f),
        None => None,
    };
    envelope(
        if c.id.len() > 0 {
            c.id
        } else {
            fresh_id(a.pool, "resp"@)
        },
        model,
        status_for(reason),
        a.output,
        responses_usage(c.usage),
        request,
        c.created,
        reason,
        now,
    ).push(("output_text"@, Json::Str(c.text)))
}

fn text_piece(v: Option<&JsonValue>) -> (out: String)
    ensures
        out@ == piece(seen(v)),
{
    crate::json::text_in(v)
}

fn extend_call(c: &mut CollectedCall, call: &JsonValue)
    ensures
        final(c)@ == extended(old(c)@, call@),
{
    let id = text_piece(call.get("id"));
    if !id.as_str().is_empty() {
        c.call_id = id;
    }
    let name = text_piece(inner(call, "function", "name"));
    if !name.as_str().is_empty() {
        c.name = name;
    }
    let arguments = text_piece(inner(call, "function", "arguments"));
    c.arguments.append(arguments.as_str());
}

fn add_piece(calls: &mut Vec<CollectedCall>, call: &JsonValue)
    ensures
        calls_view(final(calls)@) == with_piece(calls_view(old(calls)@), call@),
{
    let ghost all = calls_view(calls@);
    let ghost before = calls@;
    let key: i64 = match call.get("index") {
        Some(v) => match v.as_i64() {
            Some(k) => k,
            None => 0,
        },
        None => 0,
    };
    assert(key == tool_key(call@));
    let mut at: usize = calls.len();
    assert(all.take(at as int) =~= all);
    assert(all.skip(at as int) =~= Seq::empty());
    assert(with_piece(all, call@) =~= with_piece(all.take(at as int), call@) + all.skip(at as int));
    while at > 0 && calls[at - 1].key > key
        invariant
            at <= calls@.len(),
            calls@ == before,
            all == calls_view(calls@),
            key == tool_key(call@),
            with_piece(all, call@) == with_piece(all.take(at as int), call@) + all.skip(at as int),
        decreases at,
    {
        proof {
            let head = all.take(at as int);
            assert(head.last() == all[at - 1]);
            assert(head.drop_last() =~= all.take(at - 1));
            assert(all.skip(at - 1) =~= seq![head.last()] + all.skip(at as int));
            assert(with_piece(all.take(at - 1), call@).push(head.last()) + all.skip(at as int)
                =~= with_piece(all.take(at - 1), call@) + all.skip(at - 1));
        }
        at = at - 1;
    }
    if at > 0 && calls[at - 1].key == key {
        let mut c = CollectedCall {
            key,
            call_id: calls[at - 1].call_id.clone(),
            name: calls[at - 1].name.clone(),
            arguments: calls[at - 1].arguments.clone(),
        };
        extend_call(&mut c, call);
        let ghost next = c@;
        proof {
            let head = all.take(at as int);
            assert(head.last() == all[at - 1]);
            assert(next == extended(head.last(), call@));
        }
        calls.set(at - 1, c);
        assert(calls_view(calls@) =~= with_piece(all.take(at as int), call@) + all.skip(at as int));
    } else {
        let mut c = CollectedCall {
            key,
            call_id: String::new(),
            name: String::new(),
            arguments: String::new(),
        };
        assert(c.call_id@ =~= Seq::<char>::empty());
        assert(c.name@ =~= Seq::<char>::empty());
        assert(c.arguments@ =~= Seq::<char>::empty());
        extend_call(&mut c, call);
        let ghost next = c@;
        proof {
            let head = all.take(at as int);
            if at > 0 {
                assert(head.last() == all[at - 1]);
            }
            assert(with_piece(head, call@) == head.push(next));
        }
        calls.insert(at, c);
        assert(calls_view(calls@) =~= with_piece(all.take(at as int), call@) + all.skip(at as int));
    }
}

impl ResponsesCollector {
    /// Nothing has come in yet. `now` is the time in seconds.
    pub fn new(now: i64) -> (out: ResponsesCollector)
        ensures
            out@ == (CollectorView {
                text: Seq::empty(),
                reasoning: Seq::empty(),
                tools: Seq::empty(),
                usage: None,
                finish_reason: None,
                id: Seq::empty(),
                created: now,
            }),
    {
        let tools: Vec<CollectedCall> = Vec::new();
        assert(calls_view(tools@) =~= Seq::empty());
        ResponsesCollector {
            text: String::new(),
            reasoning: String::new(),
            tools,
            usage: None,
            finish_reason: None,
            id: String::new(),
            created: now,
        }
    }

    /// [`collected`].
    pub fn consume(&mut self, chunk: &JsonValue)
        ensures
            final(self)@ == collected(old(self)@, chunk@),
    {
        if self.id.as_str().is_empty() {
            self.id = text_piece(chunk.get("id"));
        }
        if let Some(v) = chunk.get("created") {
            if let Some(k) = v.as_i64() {
                self.created = k;
            }
        }
        if let Some(usage) = chunk.get("usage") {
            if let JsonValue::Obj(_) = usage {
                self.usage = Some(usage.dup());
            }
        }
        let choice = first_item(chunk, "choices");
        if let Some(choice) = choice {
            let finish = text_piece(choice.get("finish_reason"));
            if !finish.as_str().is_empty() {
                self.finish_reason = Some(finish);
            }
            if let Some(delta) = choice.get("delta") {
                self.reasoning.append(reasoning_in(delta).as_str());
                self.text.append(text_piece(delta.get("content")).as_str());
                if let Some(JsonValue::Arr(pieces)) = delta.get("tool_calls") {
                    self.add_pieces(pieces);
                }
            }
        }
    }

    fn add_pieces(&mut self, pieces: &Vec<JsonValue>)
        ensures
            final(self)@ == (CollectorView {
                tools: with_pieces(old(self)@.tools, list_view(*pieces)),
                ..old(self)@
            }),
    {
        let ghost start = self@;
        let ghost all = list_view(*pieces);
        assert(all.take(0) =~= Seq::empty());
        for i in 0..pieces.len()
            invariant
                all == list_view(*pieces),
                self@ == (CollectorView {
                    tools: with_pieces(start.tools, all.take(i as int)),
                    ..start
                }),
        {
            assert(all.take(i + 1).drop_last() =~= all.take(i as int));
            assert(all.take(i + 1).last() == pieces@[i as int]@);
            add_piece(&mut self.tools, &pieces[i]);
        }
        assert(all.take(all.len() as int) =~= all);
    }

    /// Payloads of the Chat stream as they come in.
    pub fn push(&mut self, payloads: &Vec<Option<String>>)
        ensures
            final(self)@ == payloads_collected(old(self)@, payloads_view(payloads@)),
    {
        let ghost start = self@;
        let ghost all = payloads_view(payloads@);
        assert(all.take(0) =~= Seq::empty());
        for i in 0..payloads.len()
            invariant
                all == payloads_view(payloads@),
                self@ == payloads_collected(start, all.take(i as int)),
        {
            assert(all.take(i + 1).drop_last() =~= all.take(i as int));
            assert(all.take(i + 1).last() == text_view(payloads@[i as int]));
            if let Some(text) = &payloads[i] {
                if let Ok(chunk) = parse_json(text.as_str()) {
                    self.consume(&chunk);
                }
            }
        }
        assert(all.take(all.len() as int) =~= all);
    }

    /// What was left in the reader when the Chat stream ended.
    pub fn finish(&mut self, rest: &Vec<Option<String>>)
        ensures
            final(self)@ == payloads_collected(old(self)@, payloads_view(rest@)),
    {
        self.push(rest);
    }

    /// [`collected_response`].
    pub fn into_response(self, model: &str, request: &JsonValue, ids: &mut IdPool, now: i64) -> (out:
        JsonValue)
        ensures
            out@ == Json::Obj(collected_response(self@, model@, request@, old(ids)@, now)),
    {
        let ghost c = self@;
        let ghost pool = ids@;
        let mut output: Vec<JsonValue> = Vec::new();
        assert(list_view(output) =~= Seq::empty());
        push_reasoning(&mut output, self.reasoning.as_str(), ids);
        assert(c.tools.len() == self.tools@.len());
        if !self.text.as_str().is_empty() || self.tools.len() == 0 {
            push_message(&mut output, self.text.as_str(), ids);
        }
        let ghost start = answer(output, ids@);
        let ghost all = c.tools;
        assert(all.take(0) =~= Seq::empty());
        for i in 0..self.tools.len()
            invariant
                all == calls_view(self.tools@),
                answer(output, ids@) == with_all_collected(start, all.take(i as int)),
        {
            assert(all.take(i + 1).drop_last() =~= all.take(i as int));
            assert(all.take(i + 1).last() == self.tools@[i as int]@);
            let tool = &self.tools[i];
            let item_id = ids.fresh("fc");
            let call_id = if tool.call_id.as_str().is_empty() {
                ids.fresh("call")
            } else {
                tool.call_id.clone()
            };
            let name = if tool.name.as_str().is_empty() {
                "unknown".to_owned()
            } else {
                tool.name.clone()
            };
            let arguments = if tool.arguments.as_str().is_empty() {
                "{}".to_owned()
            } else {
                tool.arguments.clone()
            };
            push_value(
                &mut output,
                call_item_value(
                    item_id.as_str(),
                    "completed",
                    call_id.as_str(),
                    name.as_str(),
                    arguments.as_str(),
                ),
            );
        }
        assert(all.take(all.len() as int) =~= all);
        assert(answer(output, ids@) == collected_items(c, pool));
        let reason = match &self.finish_reason {
            Some(finish) => reason_for(finish.as_str()),
            None => None,
        };
        let status = if reason.is_some() { "incomplete" } else { "completed" };
        let id = if self.id.as_str().is_empty() {
            ids.fresh("resp")
        } else {
            self.id.clone()
        };
        let mut o = response_envelope(
            id.as_str(),
            model,
            status,
            output,
            usage_to_responses(self.usage.as_ref()),
            request,
            self.created,
            reason,
            now,
        );
        o.push("output_text", JsonValue::text(self.text.as_str()));
        JsonValue::Obj(o)
    }
}

} // verus!
