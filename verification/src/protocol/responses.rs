//! Between the Responses API and Chat Completions.
//!
//! Requests come in as Responses and go out as Chat; answers come back as Chat and go out as
//! Responses. The gateway keeps no state between requests, so a request that relies on stored
//! state is refused rather than answered as if the state were there.
use vstd::prelude::*;
use crate::json::{
    dup_list, dup_or_null, field, json_int, list_view, or_null, push_value, seen, text_seen,
    Fields, Json, JsonValue, Object,
};
use crate::number::number_as_i64;
use crate::protocol::{
    content_parts, content_text, first_item, first_of, fresh_id, id_taken, if_truthy, inner,
    inner_field, json_text, part_text, parts_of, raw_text, scalar_text, string_field, string_value,
    text_field, text_of_content, truthy_only, IdPool, IdPoolView,
};
use crate::text::{concat3, lowered, same, to_lower, trim, trimmed};

verus! {

// ─── Building objects ────────────────────────────────────────

/// An entry for what is there.
pub open spec fn opt_entry(key: Seq<char>, v: Option<Json>) -> Fields {
    match v {
        Some(x) => seq![(key, x)],
        None => Seq::empty(),
    }
}

/// The plain value of an optional value.
pub open spec fn owned(v: Option<JsonValue>) -> Option<Json> {
    match v {
        Some(x) => Some(x@),
        None => None,
    }
}

/// Adds an entry for what is there.
pub fn push_some(o: &mut Object, key: &str, v: Option<&JsonValue>)
    ensures
        final(o)@ == old(o)@ + opt_entry(key@, seen(v)),
{
    let ghost before = o@;
    if let Some(x) = v {
        o.push(key, x.dup());
    }
    assert(o@ =~= before + opt_entry(key@, seen(v)));
}

/// A message of a role with a text.
pub open spec fn plain_message(role: Seq<char>, text: Seq<char>) -> Json {
    Json::Obj(seq![("role"@, Json::Str(role)), ("content"@, Json::Str(text))])
}

fn message_value(role: &str, text: &str) -> (out: JsonValue)
    ensures
        out@ == plain_message(role@, text@),
{
    let mut o = Object::new();
    o.push("role", JsonValue::text(role));
    o.push("content", JsonValue::text(text));
    assert(o@ =~= plain_message(role@, text@)->Obj_0);
    JsonValue::Obj(o)
}

// ─── Content ─────────────────────────────────────────────────

/// The kinds of part that hold plain text.
pub open spec fn text_kind(kind: Seq<char>) -> bool {
    kind == "text"@ || kind == "input_text"@ || kind == "output_text"@
}

/// The address of an image part: a text, or the `url` of an object.
pub open spec fn image_address(part: Json) -> Seq<char> {
    match field(part, "image_url"@) {
        Some(Json::Str(s)) => s,
        Some(v) => text_field(v, "url"@),
        None => match part {
            Json::Str(s) => s,
            _ => text_field(part, "url"@),
        },
    }
}

pub open spec fn text_part(text: Seq<char>) -> Json {
    Json::Obj(seq![("type"@, Json::Str("text"@)), ("text"@, Json::Str(text))])
}

pub open spec fn image_part(url: Seq<char>) -> Json {
    Json::Obj(
        seq![
            ("type"@, Json::Str("image_url"@)),
            ("image_url"@, Json::Obj(seq![("url"@, Json::Str(url))])),
        ],
    )
}

/// A part of a content as Chat has it. What is neither text nor image stays as it is.
pub open spec fn chat_part(part: Json) -> Json {
    let kind = lowered(text_field(part, "type"@));
    match part {
        Json::Str(s) => text_part(s),
        _ => if text_kind(kind) {
            text_part(text_field(part, "text"@))
        } else if kind == "input_image"@ || kind == "image_url"@ {
            image_part(image_address(part))
        } else {
            part
        },
    }
}

/// The part becomes a text part.
pub open spec fn becomes_text(part: Json) -> bool {
    part is Str || text_kind(lowered(text_field(part, "type"@)))
}

/// A content as Chat has it. A single text part becomes a plain text.
pub open spec fn chat_content(content: Json) -> Json {
    let parts = parts_of(content);
    match content {
        Json::Str(s) => Json::Str(s),
        _ => if parts.len() == 0 {
            Json::Str(Seq::empty())
        } else if parts.len() == 1 && becomes_text(parts[0]) {
            Json::Str(part_text(parts[0]))
        } else {
            Json::Arr(parts.map_values(|p: Json| chat_part(p)))
        },
    }
}

/// Some part of the content is no text.
pub open spec fn has_other_part(content: Json) -> bool {
    exists|i: int|
        0 <= i < parts_of(content).len() && other_part(#[trigger] parts_of(content)[i])
}

pub open spec fn other_part(part: Json) -> bool {
    let kind = lowered(text_field(part, "type"@));
    kind.len() > 0 && !text_kind(kind)
}

fn is_text_kind(kind: &str) -> (r: bool)
    ensures
        r == text_kind(kind@),
{
    same(kind, "text") || same(kind, "input_text") || same(kind, "output_text")
}

fn image_url_of(part: &JsonValue) -> (out: String)
    ensures
        out@ == image_address(part@),
{
    match part.get("image_url") {
        Some(JsonValue::Str(s)) => s.clone(),
        Some(v) => string_field(v, "url"),
        None => match part {
            JsonValue::Str(s) => s.clone(),
            _ => string_field(part, "url"),
        },
    }
}

fn text_part_value(text: &str) -> (out: JsonValue)
    ensures
        out@ == text_part(text@),
{
    let mut o = Object::new();
    o.push("type", JsonValue::text("text"));
    o.push("text", JsonValue::text(text));
    assert(o@ =~= text_part(text@)->Obj_0);
    JsonValue::Obj(o)
}

fn part_to_chat(part: &JsonValue) -> (out: JsonValue)
    ensures
        out@ == chat_part(part@),
{
    match part {
        JsonValue::Str(s) => text_part_value(s.as_str()),
        _ => {
            let kind = to_lower(string_field(part, "type").as_str());
            if is_text_kind(kind.as_str()) {
                text_part_value(string_field(part, "text").as_str())
            } else if same(kind.as_str(), "input_image") || same(kind.as_str(), "image_url") {
                let mut address = Object::new();
                address.push("url", JsonValue::Str(image_url_of(part)));
                let mut o = Object::new();
                o.push("type", JsonValue::text("image_url"));
                assert(address@ =~= seq![("url"@, Json::Str(image_address(part@)))]);
                o.push("image_url", JsonValue::Obj(address));
                assert(o@ =~= image_part(image_address(part@))->Obj_0);
                JsonValue::Obj(o)
            } else {
                part.dup()
            }
        },
    }
}

/// [`chat_content`].
pub fn content_to_chat(content: &JsonValue) -> (out: JsonValue)
    ensures
        out@ == chat_content(content@),
{
    if let JsonValue::Str(s) = content {
        return JsonValue::Str(s.clone());
    }
    let parts = content_parts(content);
    let ghost all = parts_of(content@);
    if parts.len() == 0 {
        let out = JsonValue::text("");
        proof {
            reveal_strlit("");
            assert(""@ =~= Seq::<char>::empty());
        }
        return out;
    }
    if parts.len() == 1 {
        assert(parts@[0]@ == all[0]);
        match parts[0] {
            JsonValue::Str(s) => {
                return JsonValue::Str(s.clone());
            },
            other => {
                let kind = to_lower(string_field(other, "type").as_str());
                if is_text_kind(kind.as_str()) {
                    return JsonValue::Str(string_field(other, "text"));
                }
            },
        }
    }
    let ghost made = all.map_values(|p: Json| chat_part(p));
    let mut out: Vec<JsonValue> = Vec::new();
    assert(list_view(out) =~= made.take(0));
    for i in 0..parts.len()
        invariant
            parts@.len() == all.len(),
            forall|k: int| 0 <= k < parts@.len() ==> (#[trigger] parts@[k])@ == all[k],
            made == all.map_values(|p: Json| chat_part(p)),
            list_view(out) == made.take(i as int),
    {
        assert(parts@[i as int]@ == all[i as int]);
        push_value(&mut out, part_to_chat(parts[i]));
        assert(list_view(out) =~= made.take(i + 1));
    }
    assert(made.take(made.len() as int) =~= made);
    JsonValue::Arr(out)
}

/// [`has_other_part`].
pub fn content_is_structured(content: &JsonValue) -> (r: bool)
    ensures
        r == has_other_part(content@),
{
    let parts = content_parts(content);
    let ghost all = parts_of(content@);
    for i in 0..parts.len()
        invariant
            all == parts_of(content@),
            parts@.len() == all.len(),
            forall|k: int| 0 <= k < parts@.len() ==> (#[trigger] parts@[k])@ == all[k],
            forall|k: int| 0 <= k < i ==> !other_part(#[trigger] all[k]),
    {
        assert(parts@[i as int]@ == all[i as int]);
        let kind = to_lower(string_field(parts[i], "type").as_str());
        if !kind.as_str().is_empty() && !is_text_kind(kind.as_str()) {
            assert(other_part(all[i as int]));
            return true;
        }
    }
    false
}

// ─── Input items ─────────────────────────────────────────────

/// Filled texts joined by line breaks.
pub open spec fn lines_of(parts: Seq<Json>) -> Seq<char>
    decreases parts.len(),
{
    if parts.len() == 0 {
        Seq::empty()
    } else {
        let before = lines_of(parts.drop_last());
        let text = text_field(parts.last(), "text"@);
        if text.len() == 0 {
            before
        } else if before.len() == 0 {
            text
        } else {
            before + "\n"@ + text
        }
    }
}

/// The list of an item that its reasoning stands in: the summary, else the content.
pub open spec fn reasoning_parts(item: Json) -> Option<Seq<Json>> {
    match field(item, "summary"@) {
        Some(Json::Arr(parts)) => Some(parts),
        _ => match field(item, "content"@) {
            Some(Json::Arr(parts)) => Some(parts),
            _ => None,
        },
    }
}

/// The reasoning of an item, if it has some.
pub open spec fn reasoning_of(item: Json) -> Option<Seq<char>> {
    match reasoning_parts(item) {
        Some(parts) => if lines_of(parts).len() > 0 {
            Some(lines_of(parts))
        } else {
            None
        },
        None => None,
    }
}

pub open spec fn or_marked_empty(text: Seq<char>) -> Seq<char> {
    if text.len() > 0 {
        text
    } else {
        "(empty)"@
    }
}

/// The output of a tool as text.
pub open spec fn output_text(output: Option<Json>) -> Seq<char> {
    match output {
        Some(v) => or_marked_empty(raw_text(v)),
        None => "(empty)"@,
    }
}

/// The id of a call: its own, else the item's; where it has neither, a fresh one is due.
pub open spec fn named_call_id(item: Json) -> Option<Seq<char>> {
    if text_field(item, "call_id"@).len() > 0 {
        Some(text_field(item, "call_id"@))
    } else if text_field(item, "id"@).len() > 0 {
        Some(text_field(item, "id"@))
    } else {
        None
    }
}

pub open spec fn call_id(item: Json, pool: IdPoolView) -> Seq<char> {
    match named_call_id(item) {
        Some(s) => s,
        None => fresh_id(pool, "call"@),
    }
}

pub open spec fn pool_after_call(item: Json, pool: IdPoolView) -> IdPoolView {
    match named_call_id(item) {
        Some(_) => pool,
        None => id_taken(pool),
    }
}

/// The arguments of a call as text, an empty object where there are none.
pub open spec fn arguments_text(v: Json) -> Seq<char> {
    if raw_text(v).len() > 0 {
        raw_text(v)
    } else {
        "{}"@
    }
}

pub open spec fn call_message(id: Seq<char>, name: Seq<char>, arguments: Seq<char>) -> Json {
    Json::Obj(
        seq![
            ("role"@, Json::Str("assistant"@)),
            ("content"@, Json::Null),
            (
                "tool_calls"@,
                Json::Arr(
                    seq![
                        Json::Obj(
                            seq![
                                ("id"@, Json::Str(id)),
                                ("type"@, Json::Str("function"@)),
                                (
                                    "function"@,
                                    Json::Obj(
                                        seq![
                                            ("name"@, Json::Str(name)),
                                            ("arguments"@, Json::Str(arguments)),
                                        ],
                                    ),
                                ),
                            ],
                        ),
                    ],
                ),
            ),
        ],
    )
}

pub open spec fn output_message(id: Seq<char>, text: Seq<char>) -> Json {
    Json::Obj(
        seq![
            ("role"@, Json::Str("tool"@)),
            ("tool_call_id"@, Json::Str(id)),
            ("content"@, Json::Str(text)),
        ],
    )
}

/// The role of a message item: a developer speaks as the system, nobody in particular as the user.
pub open spec fn role_of(item: Json) -> Seq<char> {
    let raw = lowered(text_field(item, "role"@));
    if raw == "developer"@ {
        "system"@
    } else if raw.len() == 0 {
        "user"@
    } else {
        raw
    }
}

/// The message of a message item. An assistant that says nothing is left out.
pub open spec fn item_message(item: Json) -> Option<Json> {
    let role = role_of(item);
    match crate::js::either(field(item, "content"@), field(item, "text"@)) {
        None => None,
        Some(given) => {
            let content = chat_content(given);
            if role == "assistant"@ && text_of_content(content).len() == 0 && !has_other_part(
                content,
            ) {
                None
            } else {
                Some(
                    Json::Obj(
                        seq![("role"@, Json::Str(role)), ("content"@, content)] + opt_entry(
                            "reasoning_content"@,
                            if role == "assistant"@ {
                                json_text_of(reasoning_of(item))
                            } else {
                                None
                            },
                        ),
                    ),
                )
            }
        },
    }
}

/// A text as a JSON value.
pub open spec fn json_text_of(v: Option<Seq<char>>) -> Option<Json> {
    match v {
        Some(s) => Some(Json::Str(s)),
        None => None,
    }
}

/// The message that an input item becomes, if any.
pub open spec fn message_of_item(item: Json, pool: IdPoolView) -> Option<Json> {
    let kind = lowered(text_field(item, "type"@));
    if kind == "function_call"@ {
        Some(
            call_message(
                call_id(item, pool),
                text_field(item, "name"@),
                arguments_text(or_null(field(item, "arguments"@))),
            ),
        )
    } else if kind == "function_call_output"@ {
        Some(output_message(call_id(item, pool), output_text(field(item, "output"@))))
    } else if kind == "reasoning"@ {
        None
    } else if kind == "input_text"@ || kind == "text"@ {
        Some(plain_message("user"@, text_field(item, "text"@)))
    } else if kind == "input_image"@ || kind == "input_file"@ || kind == "image_url"@ {
        Some(
            Json::Obj(
                seq![("role"@, Json::Str("user"@)), ("content"@, Json::Arr(seq![item]))],
            ),
        )
    } else {
        item_message(item)
    }
}

/// The pool after an input item.
pub open spec fn pool_after_item(item: Json, pool: IdPoolView) -> IdPoolView {
    let kind = lowered(text_field(item, "type"@));
    if kind == "function_call"@ || kind == "function_call_output"@ {
        pool_after_call(item, pool)
    } else {
        pool
    }
}

/// Messages so far, and the ids that are left.
pub struct Conversation {
    pub messages: Seq<Json>,
    pub pool: IdPoolView,
}

pub open spec fn with_item(c: Conversation, item: Json) -> Conversation {
    Conversation {
        messages: match message_of_item(item, c.pool) {
            Some(m) => c.messages.push(m),
            None => c.messages,
        },
        pool: pool_after_item(item, c.pool),
    }
}

/// The first `n` items of an input list. A bare text is said by the user.
pub open spec fn with_items(c: Conversation, items: Seq<Json>, n: nat) -> Conversation
    decreases n,
{
    if n == 0 {
        c
    } else {
        let before = with_items(c, items, (n - 1) as nat);
        match items[n - 1] {
            Json::Str(s) => Conversation {
                messages: before.messages.push(plain_message("user"@, s)),
                ..before
            },
            item => with_item(before, item),
        }
    }
}

/// What the instructions say, as messages.
pub open spec fn instruction_messages(instructions: Option<Json>) -> Seq<Json> {
    match instructions {
        Some(Json::Str(s)) => if trimmed(s).len() > 0 {
            seq![plain_message("system"@, s)]
        } else {
            Seq::empty()
        },
        _ => Seq::empty(),
    }
}

/// Instructions and input as messages. The input is a text, a list of items, or one item.
pub open spec fn input_messages(
    instructions: Option<Json>,
    input: Option<Json>,
    pool: IdPoolView,
) -> Conversation {
    let c = Conversation { messages: instruction_messages(instructions), pool };
    match input {
        Some(Json::Str(s)) => Conversation {
            messages: c.messages.push(plain_message("user"@, s)),
            ..c
        },
        Some(Json::Arr(items)) => with_items(c, items, items.len()),
        Some(Json::Obj(o)) => with_item(c, Json::Obj(o)),
        _ => c,
    }
}

fn reasoning_text_of(item: &JsonValue) -> (r: Option<String>)
    ensures
        crate::json::text_view(r) == reasoning_of(item@),
{
    let parts = match item.get("summary") {
        Some(JsonValue::Arr(parts)) => parts,
        _ => match item.get("content") {
            Some(JsonValue::Arr(parts)) => parts,
            _ => {
                return None;
            },
        },
    };
    let ghost all = list_view(*parts);
    let mut out = String::new();
    assert(all.take(0) =~= Seq::empty());
    assert(out@ =~= Seq::empty());
    for i in 0..parts.len()
        invariant
            all == list_view(*parts),
            out@ == lines_of(all.take(i as int)),
    {
        assert(all.take(i + 1).drop_last() =~= all.take(i as int));
        assert(all.take(i + 1).last() == parts@[i as int]@);
        let text = string_field(&parts[i], "text");
        if !text.as_str().is_empty() {
            if out.as_str().is_empty() {
                out = text;
            } else {
                out.append("\n");
                out.append(text.as_str());
            }
        }
    }
    assert(all.take(all.len() as int) =~= all);
    if out.as_str().is_empty() {
        None
    } else {
        Some(out)
    }
}

fn tool_output_text(output: Option<&JsonValue>) -> (out: String)
    ensures
        out@ == output_text(seen(output)),
{
    match output {
        Some(v) => {
            let text = json_text(v);
            if text.as_str().is_empty() {
                "(empty)".to_owned()
            } else {
                text
            }
        },
        None => "(empty)".to_owned(),
    }
}

fn call_id_of(item: &JsonValue, ids: &mut IdPool) -> (out: String)
    ensures
        out@ == call_id(item@, old(ids)@),
        final(ids)@ == pool_after_call(item@, old(ids)@),
{
    let own = string_field(item, "call_id");
    if !own.as_str().is_empty() {
        return own;
    }
    let id = string_field(item, "id");
    if !id.as_str().is_empty() {
        return id;
    }
    ids.fresh("call")
}

fn arguments_of(v: &JsonValue) -> (out: String)
    ensures
        out@ == arguments_text(v@),
{
    let raw = json_text(v);
    if raw.as_str().is_empty() {
        "{}".to_owned()
    } else {
        raw
    }
}

fn call_value(id: String, name: String, arguments: String) -> (out: JsonValue)
    ensures
        out@ == call_message(id@, name@, arguments@),
{
    let ghost message = call_message(id@, name@, arguments@);
    let mut function = Object::new();
    function.push("name", JsonValue::Str(name));
    function.push("arguments", JsonValue::Str(arguments));
    let mut call = Object::new();
    call.push("id", JsonValue::Str(id));
    call.push("type", JsonValue::text("function"));
    call.push("function", JsonValue::Obj(function));
    let mut calls: Vec<JsonValue> = Vec::new();
    push_value(&mut calls, JsonValue::Obj(call));
    let mut o = Object::new();
    o.push("role", JsonValue::text("assistant"));
    o.push("content", JsonValue::Null);
    o.push("tool_calls", JsonValue::Arr(calls));
    proof {
        let spec_calls = message->Obj_0[2].1->Arr_0;
        let spec_call = spec_calls[0]->Obj_0;
        assert(function@ =~= spec_call[2].1->Obj_0);
        assert(call@ =~= spec_call);
        assert(list_view(calls) =~= spec_calls);
        assert(o@ =~= message->Obj_0);
    }
    JsonValue::Obj(o)
}

fn push_message_item(messages: &mut Vec<JsonValue>, item: &JsonValue)
    ensures
        list_view(*final(messages)) == match item_message(item@) {
            Some(m) => list_view(*old(messages)).push(m),
            None => list_view(*old(messages)),
        },
{
    let raw = to_lower(string_field(item, "role").as_str());
    let role = if same(raw.as_str(), "developer") {
        "system".to_owned()
    } else if raw.as_str().is_empty() {
        "user".to_owned()
    } else {
        raw
    };
    let given = match item.get("content") {
        Some(v) => Some(v),
        None => item.get("text"),
    };
    if let Some(given) = given {
        let content = content_to_chat(given);
        let assistant = same(role.as_str(), "assistant");
        if assistant && content_text(&content).as_str().is_empty() && !content_is_structured(
            &content,
        ) {
            return ;
        }
        let mut o = Object::new();
        o.push("role", JsonValue::text(role.as_str()));
        o.push("content", content);
        if assistant {
            if let Some(reasoning) = reasoning_text_of(item) {
                o.push("reasoning_content", JsonValue::Str(reasoning));
            }
        }
        assert(o@ =~= item_message(item@)->0->Obj_0);
        push_value(messages, JsonValue::Obj(o));
    }
}

/// The plain value of a conversation under construction.
pub open spec fn conversation(messages: Vec<JsonValue>, pool: IdPoolView) -> Conversation {
    Conversation { messages: list_view(messages), pool }
}

fn push_input_item(messages: &mut Vec<JsonValue>, item: &JsonValue, ids: &mut IdPool)
    ensures
        conversation(*final(messages), final(ids)@) == with_item(
            conversation(*old(messages), old(ids)@),
            item@,
        ),
{
    let kind = to_lower(string_field(item, "type").as_str());
    let kind = kind.as_str();
    if same(kind, "function_call") {
        let id = call_id_of(item, ids);
        let arguments = match item.get("arguments") {
            Some(v) => arguments_of(v),
            None => arguments_of(&JsonValue::Null),
        };
        push_value(messages, call_value(id, string_field(item, "name"), arguments));
    } else if same(kind, "function_call_output") {
        let id = call_id_of(item, ids);
        let text = tool_output_text(item.get("output"));
        let ghost made = output_message(id@, text@);
        let mut o = Object::new();
        o.push("role", JsonValue::text("tool"));
        o.push("tool_call_id", JsonValue::Str(id));
        o.push("content", JsonValue::Str(text));
        assert(o@ =~= made->Obj_0);
        push_value(messages, JsonValue::Obj(o));
    } else if same(kind, "reasoning") {
    } else if same(kind, "input_text") || same(kind, "text") {
        push_value(messages, message_value("user", string_field(item, "text").as_str()));
    } else if same(kind, "input_image") || same(kind, "input_file") || same(kind, "image_url") {
        let mut parts: Vec<JsonValue> = Vec::new();
        push_value(&mut parts, item.dup());
        assert(list_view(parts) =~= seq![item@]);
        let mut o = Object::new();
        o.push("role", JsonValue::text("user"));
        o.push("content", JsonValue::Arr(parts));
        assert(o@ =~= seq![("role"@, Json::Str("user"@)), ("content"@, Json::Arr(seq![item@]))]);
        push_value(messages, JsonValue::Obj(o));
    } else {
        push_message_item(messages, item);
    }
}

fn messages_from_input(
    instructions: Option<&JsonValue>,
    input: Option<&JsonValue>,
    ids: &mut IdPool,
) -> (messages: Vec<JsonValue>)
    ensures
        conversation(messages, final(ids)@) == input_messages(
            seen(instructions),
            seen(input),
            old(ids)@,
        ),
{
    let mut messages: Vec<JsonValue> = Vec::new();
    assert(list_view(messages) =~= Seq::empty());
    if let Some(JsonValue::Str(s)) = instructions {
        if !trim(s.as_str()).as_str().is_empty() {
            push_value(&mut messages, message_value("system", s.as_str()));
        }
    }
    assert(list_view(messages) =~= instruction_messages(seen(instructions)));
    let ghost start = conversation(messages, ids@);
    match input {
        Some(JsonValue::Str(s)) => {
            push_value(&mut messages, message_value("user", s.as_str()));
        },
        Some(JsonValue::Arr(items)) => {
            let ghost all = list_view(*items);
            for n in 0..items.len()
                invariant
                    all == list_view(*items),
                    conversation(messages, ids@) == with_items(start, all, n as nat),
            {
                assert(all[n as int] == items@[n as int]@);
                match &items[n] {
                    JsonValue::Str(s) => {
                        push_value(&mut messages, message_value("user", s.as_str()));
                    },
                    item => {
                        push_input_item(&mut messages, item, ids);
                    },
                }
            }
        },
        Some(item) => {
            if let JsonValue::Obj(_) = item {
                push_input_item(&mut messages, item, ids);
            }
        },
        None => {},
    }
    messages
}

// ─── Tools and formats ───────────────────────────────────────

/// The parameters of a tool that gives none.
pub open spec fn no_parameters() -> Json {
    Json::Obj(seq![("type"@, Json::Str("object"@)), ("properties"@, Json::Obj(Seq::empty()))])
}

/// A tool as Chat has it: a function one level down. What is no function is left out.
pub open spec fn chat_tool(tool: Json) -> Option<Json> {
    let kind = lowered(text_field(tool, "type"@));
    let name = text_field(tool, "name"@);
    if tool is Str {
        None
    } else if kind == "function"@ && field(tool, "function"@) is Some {
        Some(tool)
    } else if (kind != "function"@ && kind.len() > 0) || name.len() == 0 {
        None
    } else {
        Some(
            Json::Obj(
                seq![
                    ("type"@, Json::Str("function"@)),
                    (
                        "function"@,
                        Json::Obj(
                            seq![("name"@, Json::Str(name))] + opt_entry(
                                "description"@,
                                if_truthy(field(tool, "description"@)),
                            ) + seq![
                                (
                                    "parameters"@,
                                    match if_truthy(field(tool, "parameters"@)) {
                                        Some(p) => p,
                                        None => no_parameters(),
                                    },
                                ),
                            ] + opt_entry("strict"@, field(tool, "strict"@)),
                        ),
                    ),
                ],
            ),
        )
    }
}

/// The tools that Chat knows.
pub open spec fn chat_tools(tools: Seq<Json>) -> Seq<Json>
    decreases tools.len(),
{
    if tools.len() == 0 {
        Seq::empty()
    } else {
        let before = chat_tools(tools.drop_last());
        match chat_tool(tools.last()) {
            Some(t) => before.push(t),
            None => before,
        }
    }
}

pub open spec fn chosen_name(choice: Json) -> Seq<char> {
    if text_field(choice, "name"@).len() > 0 {
        text_field(choice, "name"@)
    } else if text_field(choice, "function.name"@).len() > 0 {
        text_field(choice, "function.name"@)
    } else {
        match inner_field(choice, "function"@, "name"@) {
            Some(v) => scalar_text(v),
            None => Seq::empty(),
        }
    }
}

/// The choice of a tool as Chat has it.
pub open spec fn chat_choice(choice: Json) -> Json {
    if choice is Str || chosen_name(choice).len() == 0 {
        choice
    } else {
        Json::Obj(
            seq![
                ("type"@, Json::Str("function"@)),
                (
                    "function"@,
                    Json::Obj(seq![("name"@, Json::Str(chosen_name(choice)))]),
                ),
            ],
        )
    }
}

/// The format of an answer as Chat has it: the schema one level down.
pub open spec fn chat_format(format: Json) -> Json {
    if text_field(format, "type"@) == "json_schema"@ {
        Json::Obj(
            seq![
                ("type"@, Json::Str("json_schema"@)),
                (
                    "json_schema"@,
                    Json::Obj(
                        opt_entry("name"@, if_truthy(field(format, "name"@))) + opt_entry(
                            "description"@,
                            if_truthy(field(format, "description"@)),
                        ) + opt_entry("schema"@, if_truthy(field(format, "schema"@))) + opt_entry(
                            "strict"@,
                            if_truthy(field(format, "strict"@)),
                        ),
                    ),
                ),
            ],
        )
    } else {
        format
    }
}

/// [`chat_tool`].
pub fn tool_to_chat(tool: &JsonValue) -> (r: Option<JsonValue>)
    ensures
        owned(r) == chat_tool(tool@),
{
    if let JsonValue::Str(_) = tool {
        return None;
    }
    let kind = to_lower(string_field(tool, "type").as_str());
    let is_function = same(kind.as_str(), "function");
    if is_function && tool.get("function").is_some() {
        return Some(tool.dup());
    }
    if !is_function && !kind.as_str().is_empty() {
        return None;
    }
    let name = string_field(tool, "name");
    if name.as_str().is_empty() {
        return None;
    }
    let parameters = match truthy_only(tool.get("parameters")) {
        Some(p) => p.dup(),
        None => {
            let mut o = Object::new();
            o.push("type", JsonValue::text("object"));
            o.push("properties", JsonValue::Obj(Object::new()));
            assert(o@ =~= no_parameters()->Obj_0);
            JsonValue::Obj(o)
        },
    };
    let mut function = Object::new();
    function.push("name", JsonValue::Str(name));
    push_some(&mut function, "description", truthy_only(tool.get("description")));
    function.push("parameters", parameters);
    push_some(&mut function, "strict", tool.get("strict"));
    let mut o = Object::new();
    o.push("type", JsonValue::text("function"));
    assert(function@ =~= chat_tool(tool@)->0->Obj_0[1].1->Obj_0);
    o.push("function", JsonValue::Obj(function));
    assert(o@ =~= chat_tool(tool@)->0->Obj_0);
    Some(JsonValue::Obj(o))
}

fn tools_to_chat(tools: &Vec<JsonValue>) -> (out: Vec<JsonValue>)
    ensures
        list_view(out) == chat_tools(list_view(*tools)),
{
    let ghost all = list_view(*tools);
    let mut out: Vec<JsonValue> = Vec::new();
    assert(list_view(out) =~= chat_tools(all.take(0)));
    for i in 0..tools.len()
        invariant
            all == list_view(*tools),
            list_view(out) == chat_tools(all.take(i as int)),
    {
        assert(all.take(i + 1).drop_last() =~= all.take(i as int));
        assert(all.take(i + 1).last() == tools@[i as int]@);
        if let Some(tool) = tool_to_chat(&tools[i]) {
            push_value(&mut out, tool);
        }
    }
    assert(all.take(all.len() as int) =~= all);
    out
}

/// [`chat_choice`].
pub fn tool_choice_to_chat(choice: &JsonValue) -> (out: JsonValue)
    ensures
        out@ == chat_choice(choice@),
{
    if let JsonValue::Str(_) = choice {
        return choice.dup();
    }
    let mut name = string_field(choice, "name");
    if name.as_str().is_empty() {
        name = string_field(choice, "function.name");
    }
    if name.as_str().is_empty() {
        name = match inner(choice, "function", "name") {
            Some(v) => string_value(v),
            None => {
                let none = String::new();
                assert(none@ =~= Seq::empty());
                none
            },
        };
    }
    assert(name@ =~= chosen_name(choice@));
    if name.as_str().is_empty() {
        return choice.dup();
    }
    let mut function = Object::new();
    function.push("name", JsonValue::Str(name));
    assert(function@ =~= seq![("name"@, Json::Str(chosen_name(choice@)))]);
    let mut o = Object::new();
    o.push("type", JsonValue::text("function"));
    o.push("function", JsonValue::Obj(function));
    assert(o@ =~= chat_choice(choice@)->Obj_0);
    JsonValue::Obj(o)
}

/// [`chat_format`].
pub fn format_to_chat(format: &JsonValue) -> (out: JsonValue)
    ensures
        out@ == chat_format(format@),
{
    if !same(string_field(format, "type").as_str(), "json_schema") {
        return format.dup();
    }
    let mut schema = Object::new();
    push_some(&mut schema, "name", truthy_only(format.get("name")));
    push_some(&mut schema, "description", truthy_only(format.get("description")));
    push_some(&mut schema, "schema", truthy_only(format.get("schema")));
    push_some(&mut schema, "strict", truthy_only(format.get("strict")));
    assert(schema@ =~= chat_format(format@)->Obj_0[1].1->Obj_0);
    let mut o = Object::new();
    o.push("type", JsonValue::text("json_schema"));
    o.push("json_schema", JsonValue::Obj(schema));
    assert(o@ =~= chat_format(format@)->Obj_0);
    JsonValue::Obj(o)
}

// ─── The request ─────────────────────────────────────────────

pub open spec fn refused_message(name: Seq<char>) -> Seq<char> {
    "字段 "@ + name + " 需要服务端保存对话状态，本网关是无状态转发，无法支持"@
}

/// The body relies on state under a key.
pub open spec fn relies_on(body: Json, key: Seq<char>) -> bool {
    if_truthy(field(body, key)) is Some
}

/// The first field that relies on stored state, if any.
pub open spec fn stateful_field(body: Json) -> Option<Seq<char>> {
    if relies_on(body, "previous_response_id"@) {
        Some("previous_response_id"@)
    } else if relies_on(body, "conversation"@) {
        Some("conversation"@)
    } else if relies_on(body, "prompt"@) {
        Some("prompt"@)
    } else if relies_on(body, "background"@) {
        Some("background"@)
    } else {
        None
    }
}

/// What is there and not null.
pub open spec fn if_set(v: Option<Json>) -> Option<Json> {
    match v {
        Some(Json::Null) => None,
        _ => v,
    }
}

pub open spec fn wants_stream(body: Json) -> bool {
    field(body, "stream"@) == Some(Json::Bool(true))
}

/// The tools of the body, where any is left.
pub open spec fn body_tools(body: Json) -> Option<Json> {
    match field(body, "tools"@) {
        Some(Json::Arr(tools)) => if chat_tools(tools).len() > 0 {
            Some(Json::Arr(chat_tools(tools)))
        } else {
            None
        },
        _ => None,
    }
}

pub open spec fn body_choice(body: Json) -> Option<Json> {
    match if_truthy(field(body, "tool_choice"@)) {
        Some(c) => Some(chat_choice(c)),
        None => None,
    }
}

pub open spec fn body_format(body: Json) -> Option<Json> {
    match if_truthy(inner_field(body, "text"@, "format"@)) {
        Some(f) => Some(chat_format(f)),
        None => None,
    }
}

pub open spec fn body_effort(body: Json) -> Option<Json> {
    match inner_field(body, "reasoning"@, "effort"@) {
        Some(v) => if trimmed(scalar_text(v)).len() > 0 {
            Some(v)
        } else {
            None
        },
        None => None,
    }
}

/// The Chat request of a Responses request with these messages.
pub open spec fn chat_request(body: Json, messages: Seq<Json>) -> Fields {
    seq![
        ("model"@, or_null(field(body, "model"@))),
        ("messages"@, Json::Arr(messages)),
        ("stream"@, Json::Bool(wants_stream(body))),
    ] + opt_entry("max_completion_tokens"@, if_truthy(field(body, "max_output_tokens"@)))
        + opt_entry("temperature"@, if_set(field(body, "temperature"@))) + opt_entry(
        "top_p"@,
        if_set(field(body, "top_p"@)),
    ) + opt_entry("service_tier"@, if_set(field(body, "service_tier"@))) + opt_entry(
        "parallel_tool_calls"@,
        if_set(field(body, "parallel_tool_calls"@)),
    ) + opt_entry("user"@, if_set(field(body, "user"@))) + opt_entry(
        "metadata"@,
        if_set(field(body, "metadata"@)),
    ) + opt_entry("tools"@, body_tools(body)) + opt_entry("tool_choice"@, body_choice(body))
        + opt_entry("response_format"@, body_format(body)) + opt_entry(
        "reasoning_effort"@,
        body_effort(body),
    )
}

fn set_only(v: Option<&JsonValue>) -> (r: Option<&JsonValue>)
    ensures
        seen(r) == if_set(seen(v)),
{
    match v {
        Some(x) => if x.is_null() {
            None
        } else {
            Some(x)
        },
        None => None,
    }
}

fn refused(name: &str) -> (out: String)
    ensures
        out@ == refused_message(name@),
{
    concat3("字段 ", name, " 需要服务端保存对话状态，本网关是无状态转发，无法支持")
}

fn stateful_error(body: &JsonValue) -> (r: Option<String>)
    ensures
        match stateful_field(body@) {
            Some(name) => r is Some && r->0@ == refused_message(name),
            None => r is None,
        },
{
    if truthy_only(body.get("previous_response_id")).is_some() {
        Some(refused("previous_response_id"))
    } else if truthy_only(body.get("conversation")).is_some() {
        Some(refused("conversation"))
    } else if truthy_only(body.get("prompt")).is_some() {
        Some(refused("prompt"))
    } else if truthy_only(body.get("background")).is_some() {
        Some(refused("background"))
    } else {
        None
    }
}

fn push_optional(o: &mut Object, key: &str, v: Option<JsonValue>)
    ensures
        final(o)@ == old(o)@ + opt_entry(key@, owned(v)),
{
    let ghost before = o@;
    let ghost given = owned(v);
    if let Some(x) = v {
        o.push(key, x);
    }
    assert(o@ =~= before + opt_entry(key@, given));
}

/// The Chat request of a Responses request.
pub fn chat_from_responses(body: &JsonValue, ids: &mut IdPool) -> (r: Result<JsonValue, String>)
    ensures
        match stateful_field(body@) {
            Some(name) => r is Err && r->Err_0@ == refused_message(name) && final(ids)@ == old(ids)@,
            None => {
                let c = input_messages(
                    field(body@, "instructions"@),
                    field(body@, "input"@),
                    old(ids)@,
                );
                &&& r is Ok
                &&& r->Ok_0@ == Json::Obj(chat_request(body@, c.messages))
                &&& final(ids)@ == c.pool
            },
        },
{
    if let Some(message) = stateful_error(body) {
        return Err(message);
    }
    let messages = messages_from_input(body.get("instructions"), body.get("input"), ids);
    let ghost said = list_view(messages);
    let stream = match body.get("stream") {
        Some(JsonValue::Bool(b)) => *b,
        _ => false,
    };
    let mut o = Object::new();
    o.push("model", dup_or_null(body.get("model")));
    o.push("messages", JsonValue::Arr(messages));
    o.push("stream", JsonValue::Bool(stream));
    assert(o@ =~= seq![
        ("model"@, or_null(field(body@, "model"@))),
        ("messages"@, Json::Arr(said)),
        ("stream"@, Json::Bool(wants_stream(body@))),
    ]);
    push_some(&mut o, "max_completion_tokens", truthy_only(body.get("max_output_tokens")));
    push_some(&mut o, "temperature", set_only(body.get("temperature")));
    push_some(&mut o, "top_p", set_only(body.get("top_p")));
    push_some(&mut o, "service_tier", set_only(body.get("service_tier")));
    push_some(&mut o, "parallel_tool_calls", set_only(body.get("parallel_tool_calls")));
    push_some(&mut o, "user", set_only(body.get("user")));
    push_some(&mut o, "metadata", set_only(body.get("metadata")));
    let tools = match body.get("tools") {
        Some(JsonValue::Arr(tools)) => {
            let converted = tools_to_chat(tools);
            assert(list_view(converted).len() == converted@.len());
            if converted.len() > 0 {
                Some(JsonValue::Arr(converted))
            } else {
                None
            }
        },
        _ => None,
    };
    push_optional(&mut o, "tools", tools);
    let choice = match truthy_only(body.get("tool_choice")) {
        Some(c) => Some(tool_choice_to_chat(c)),
        None => None,
    };
    push_optional(&mut o, "tool_choice", choice);
    let format = match truthy_only(inner(body, "text", "format")) {
        Some(f) => Some(format_to_chat(f)),
        None => None,
    };
    push_optional(&mut o, "response_format", format);
    let effort = match inner(body, "reasoning", "effort") {
        Some(v) => if trim(string_value(v).as_str()).as_str().is_empty() {
            None
        } else {
            Some(v.dup())
        },
        None => None,
    };
    push_optional(&mut o, "reasoning_effort", effort);
    assert(o@ == chat_request(body@, said));
    Ok(JsonValue::Obj(o))
}

// ─── The answer ──────────────────────────────────────────────

/// The number under a key, without its fraction.
pub open spec fn count_under(usage: Json, key: Seq<char>) -> Option<int> {
    match field(usage, key) {
        Some(Json::Num(n)) => Some(crate::number::number_to_i64(n)),
        _ => None,
    }
}

/// The first number under one of two keys, or zero.
pub open spec fn count_of(usage: Json, key: Seq<char>, other: Seq<char>) -> int {
    match count_under(usage, key) {
        Some(n) => n,
        None => match count_under(usage, other) {
            Some(n) => n,
            None => 0,
        },
    }
}

/// The integer under two keys, one inside the other, or zero.
pub open spec fn inner_count(usage: Json, outer: Seq<char>, key: Seq<char>) -> int {
    match inner_field(usage, outer, key) {
        Some(Json::Num(n)) => match number_as_i64(n) {
            Some(k) => k as int,
            None => 0,
        },
        _ => 0,
    }
}

/// How many input tokens came from a cache.
pub open spec fn cached_count(usage: Json) -> int {
    let nested = inner_count(usage, "prompt_tokens_details"@, "cached_tokens"@);
    if nested != 0 {
        nested
    } else {
        match count_under(usage, "prompt_tokens_details.cached_tokens"@) {
            Some(n) => n,
            None => count_of(usage, "prompt_cache_hit_tokens"@, "cache_read_input_tokens"@),
        }
    }
}

/// A detail that is named only where it is not zero.
pub open spec fn detail_entry(outer: Seq<char>, key: Seq<char>, n: int) -> Fields {
    if n == 0 {
        Seq::empty()
    } else {
        seq![(outer, Json::Obj(seq![(key, json_int(n))]))]
    }
}

/// The sum of two 64-bit integers, modulo `2^64`.
pub open spec fn wrapped_sum(a: int, b: int) -> int {
    if a + b > i64::MAX {
        a + b - 0x1_0000_0000_0000_0000
    } else if a + b < i64::MIN {
        a + b + 0x1_0000_0000_0000_0000
    } else {
        a + b
    }
}

/// The usage of tokens as Responses has it. The total is never less than its parts together.
pub open spec fn responses_usage(usage: Option<Json>) -> Json {
    match usage {
        Some(Json::Obj(o)) => {
            let u = Json::Obj(o);
            let input = count_of(u, "prompt_tokens"@, "input_tokens"@);
            let output = count_of(u, "completion_tokens"@, "output_tokens"@);
            let total = count_of(u, "total_tokens"@, "total_tokens"@);
            let sum = wrapped_sum(input, output);
            Json::Obj(
                seq![("input_tokens"@, json_int(input))] + detail_entry(
                    "input_tokens_details"@,
                    "cached_tokens"@,
                    cached_count(u),
                ) + seq![("output_tokens"@, json_int(output))] + detail_entry(
                    "output_tokens_details"@,
                    "reasoning_tokens"@,
                    inner_count(u, "completion_tokens_details"@, "reasoning_tokens"@),
                ) + seq![
                    (
                        "total_tokens"@,
                        json_int(
                            if total > sum {
                                total
                            } else {
                                sum
                            },
                        ),
                    ),
                ],
            )
        },
        _ => Json::Null,
    }
}

fn number_under(usage: &JsonValue, key: &str) -> (r: Option<i64>)
    ensures
        match r {
            Some(n) => count_under(usage@, key@) == Some(n as int),
            None => count_under(usage@, key@) is None,
        },
{
    match usage.get(key) {
        Some(JsonValue::Num(n)) => Some(n.to_i64()),
        _ => None,
    }
}

fn number_under_either(usage: &JsonValue, key: &str, other: &str) -> (r: i64)
    ensures
        r == count_of(usage@, key@, other@),
{
    match number_under(usage, key) {
        Some(n) => n,
        None => match number_under(usage, other) {
            Some(n) => n,
            None => 0,
        },
    }
}

fn inner_number(usage: &JsonValue, outer: &str, key: &str) -> (r: i64)
    ensures
        r == inner_count(usage@, outer@, key@),
{
    match inner(usage, outer, key) {
        Some(v) => match v.as_i64() {
            Some(n) => n,
            None => 0,
        },
        None => 0,
    }
}

fn push_detail(o: &mut Object, outer: &str, key: &str, n: i64)
    ensures
        final(o)@ == old(o)@ + detail_entry(outer@, key@, n as int),
{
    let ghost before = o@;
    if n != 0 {
        let mut detail = Object::new();
        detail.push(key, JsonValue::integer(n));
        assert(detail@ =~= seq![(key@, json_int(n as int))]);
        o.push(outer, JsonValue::Obj(detail));
    }
    assert(o@ =~= before + detail_entry(outer@, key@, n as int));
}

fn wrapping_sum(a: i64, b: i64) -> (r: i64)
    ensures
        r == wrapped_sum(a as int, b as int),
{
    let sum: i128 = a as i128 + b as i128;
    if sum > i64::MAX as i128 {
        (sum - 0x1_0000_0000_0000_0000) as i64
    } else if sum < i64::MIN as i128 {
        (sum + 0x1_0000_0000_0000_0000) as i64
    } else {
        sum as i64
    }
}

/// [`responses_usage`].
pub fn usage_to_responses(usage: Option<&JsonValue>) -> (out: JsonValue)
    ensures
        out@ == responses_usage(seen(usage)),
{
    let u = match usage {
        Some(u) => u,
        None => {
            return JsonValue::Null;
        },
    };
    match u {
        JsonValue::Obj(_) => {},
        _ => {
            return JsonValue::Null;
        },
    }
    let input = number_under_either(u, "prompt_tokens", "input_tokens");
    let output = number_under_either(u, "completion_tokens", "output_tokens");
    let nested = inner_number(u, "prompt_tokens_details", "cached_tokens");
    let cached: i64 = if nested != 0 {
        nested
    } else {
        match number_under(u, "prompt_tokens_details.cached_tokens") {
            Some(n) => n,
            None => number_under_either(u, "prompt_cache_hit_tokens", "cache_read_input_tokens"),
        }
    };
    let reasoning = inner_number(u, "completion_tokens_details", "reasoning_tokens");
    let total = number_under_either(u, "total_tokens", "total_tokens");
    let sum = wrapping_sum(input, output);
    let mut o = Object::new();
    o.push("input_tokens", JsonValue::integer(input));
    push_detail(&mut o, "input_tokens_details", "cached_tokens", cached);
    o.push("output_tokens", JsonValue::integer(output));
    push_detail(&mut o, "output_tokens_details", "reasoning_tokens", reasoning);
    o.push("total_tokens", JsonValue::integer(if total > sum { total } else { sum }));
    assert(o@ =~= responses_usage(seen(usage))->Obj_0);
    JsonValue::Obj(o)
}

/// What the request holds under a key, unless it is null.
pub open spec fn echoed(request: Json, key: Seq<char>, fallback: Json) -> Json {
    match if_set(field(request, key)) {
        Some(v) => v,
        None => fallback,
    }
}

pub open spec fn echoed_reasoning(request: Json) -> Json {
    Json::Obj(
        seq![
            ("effort"@, or_null(inner_field(request, "reasoning"@, "effort"@))),
            ("summary"@, or_null(inner_field(request, "reasoning"@, "summary"@))),
        ],
    )
}

/// The format of an answer where the request names none.
pub open spec fn plain_text_format() -> Json {
    Json::Obj(
        seq![("format"@, Json::Obj(seq![("type"@, Json::Str("text"@))]))],
    )
}

pub open spec fn echoed_tools(request: Json) -> Json {
    match field(request, "tools"@) {
        Some(Json::Arr(tools)) => Json::Arr(tools),
        _ => Json::Arr(Seq::empty()),
    }
}

pub open spec fn incomplete_json(reason: Option<Seq<char>>) -> Json {
    match reason {
        Some(r) => Json::Obj(seq![("reason"@, Json::Str(r))]),
        None => Json::Null,
    }
}

/// A response in whatever state: what was made so far, and the settings of the request. Nothing
/// is stored, and it says so. `now` is the time in seconds.
pub open spec fn envelope(
    id: Seq<char>,
    model: Seq<char>,
    status: Seq<char>,
    output: Seq<Json>,
    usage: Json,
    request: Json,
    created: i64,
    reason: Option<Seq<char>>,
    now: i64,
) -> Fields {
    seq![
        ("id"@, Json::Str(id)),
        ("object"@, Json::Str("response"@)),
        ("created_at"@, json_int(created as int)),
        ("status"@, Json::Str(status)),
        (
            "completed_at"@,
            if status == "completed"@ {
                json_int(now as int)
            } else {
                Json::Null
            },
        ),
        ("background"@, Json::Bool(false)),
        ("error"@, Json::Null),
        ("incomplete_details"@, incomplete_json(reason)),
        ("instructions"@, echoed(request, "instructions"@, Json::Null)),
        ("max_output_tokens"@, echoed(request, "max_output_tokens"@, Json::Null)),
        ("max_tool_calls"@, echoed(request, "max_tool_calls"@, Json::Null)),
        ("model"@, Json::Str(model)),
        ("output"@, Json::Arr(output)),
        ("parallel_tool_calls"@, echoed(request, "parallel_tool_calls"@, Json::Bool(true))),
        ("previous_response_id"@, Json::Null),
        ("reasoning"@, echoed_reasoning(request)),
        ("store"@, Json::Bool(false)),
        ("temperature"@, echoed(request, "temperature"@, json_int(1))),
        ("text"@, echoed(request, "text"@, plain_text_format())),
        ("tool_choice"@, echoed(request, "tool_choice"@, Json::Str("auto"@))),
        ("tools"@, echoed_tools(request)),
        ("top_logprobs"@, echoed(request, "top_logprobs"@, json_int(0))),
        ("top_p"@, echoed(request, "top_p"@, json_int(1))),
        ("truncation"@, echoed(request, "truncation"@, Json::Str("disabled"@))),
        ("usage"@, usage),
        ("user"@, echoed(request, "user"@, Json::Null)),
        ("metadata"@, echoed(request, "metadata"@, Json::Obj(Seq::empty()))),
    ]
}

fn echo(request: &JsonValue, key: &str, fallback: JsonValue) -> (out: JsonValue)
    ensures
        out@ == echoed(request@, key@, fallback@),
{
    match set_only(request.get(key)) {
        Some(v) => v.dup(),
        None => fallback,
    }
}

fn echo_reasoning(request: &JsonValue) -> (out: JsonValue)
    ensures
        out@ == echoed_reasoning(request@),
{
    let mut o = Object::new();
    o.push("effort", dup_or_null(inner(request, "reasoning", "effort")));
    o.push("summary", dup_or_null(inner(request, "reasoning", "summary")));
    assert(o@ =~= echoed_reasoning(request@)->Obj_0);
    JsonValue::Obj(o)
}

fn plain_text_value() -> (out: JsonValue)
    ensures
        out@ == plain_text_format(),
{
    let mut kind = Object::new();
    kind.push("type", JsonValue::text("text"));
    assert(kind@ =~= seq![("type"@, Json::Str("text"@))]);
    let mut o = Object::new();
    o.push("format", JsonValue::Obj(kind));
    assert(o@ =~= plain_text_format()->Obj_0);
    JsonValue::Obj(o)
}

fn echo_tools(request: &JsonValue) -> (out: JsonValue)
    ensures
        out@ == echoed_tools(request@),
{
    match request.get("tools") {
        Some(JsonValue::Arr(tools)) => JsonValue::Arr(dup_list(tools)),
        _ => {
            let none: Vec<JsonValue> = Vec::new();
            assert(list_view(none) =~= Seq::empty());
            JsonValue::Arr(none)
        },
    }
}

fn incomplete_value(reason: Option<&str>) -> (out: JsonValue)
    ensures
        out@ == incomplete_json(text_seen(reason)),
{
    match reason {
        Some(r) => {
            let mut o = Object::new();
            o.push("reason", JsonValue::text(r));
            assert(o@ =~= seq![("reason"@, Json::Str(r@))]);
            JsonValue::Obj(o)
        },
        None => JsonValue::Null,
    }
}

/// [`envelope`].
pub fn response_envelope(
    id: &str,
    model: &str,
    status: &str,
    output: Vec<JsonValue>,
    usage: JsonValue,
    request: &JsonValue,
    created: i64,
    incomplete_reason: Option<&str>,
    now: i64,
) -> (o: Object)
    ensures
        o@ == envelope(
            id@,
            model@,
            status@,
            list_view(output),
            usage@,
            request@,
            created,
            text_seen(incomplete_reason),
            now,
        ),
{
    let ghost made = envelope(
        id@,
        model@,
        status@,
        list_view(output),
        usage@,
        request@,
        created,
        text_seen(incomplete_reason),
        now,
    );
    let completed_at = if same(status, "completed") {
        JsonValue::integer(now)
    } else {
        JsonValue::Null
    };
    let mut o = Object::new();
    o.push("id", JsonValue::text(id));
    o.push("object", JsonValue::text("response"));
    o.push("created_at", JsonValue::integer(created));
    o.push("status", JsonValue::text(status));
    o.push("completed_at", completed_at);
    o.push("background", JsonValue::Bool(false));
    o.push("error", JsonValue::Null);
    o.push("incomplete_details", incomplete_value(incomplete_reason));
    o.push("instructions", echo(request, "instructions", JsonValue::Null));
    o.push("max_output_tokens", echo(request, "max_output_tokens", JsonValue::Null));
    o.push("max_tool_calls", echo(request, "max_tool_calls", JsonValue::Null));
    o.push("model", JsonValue::text(model));
    o.push("output", JsonValue::Arr(output));
    o.push("parallel_tool_calls", echo(request, "parallel_tool_calls", JsonValue::Bool(true)));
    o.push("previous_response_id", JsonValue::Null);
    o.push("reasoning", echo_reasoning(request));
    o.push("store", JsonValue::Bool(false));
    o.push("temperature", echo(request, "temperature", JsonValue::integer(1)));
    o.push("text", echo(request, "text", plain_text_value()));
    o.push("tool_choice", echo(request, "tool_choice", JsonValue::text("auto")));
    o.push("tools", echo_tools(request));
    o.push("top_logprobs", echo(request, "top_logprobs", JsonValue::integer(0)));
    o.push("top_p", echo(request, "top_p", JsonValue::integer(1)));
    o.push("truncation", echo(request, "truncation", JsonValue::text("disabled")));
    o.push("usage", usage);
    o.push("user", echo(request, "user", JsonValue::Null));
    o.push("metadata", echo(request, "metadata", JsonValue::Obj(Object::new())));
    assert(o@ == made);
    o
}

/// Why an answer is incomplete, by the reason that it finished for.
pub open spec fn incomplete_reason(finish: Seq<char>) -> Option<Seq<char>> {
    if finish == "length"@ {
        Some("max_output_tokens"@)
    } else if finish == "content_filter"@ {
        Some("content_filter"@)
    } else {
        None
    }
}

pub open spec fn status_for(reason: Option<Seq<char>>) -> Seq<char> {
    if reason is Some {
        "incomplete"@
    } else {
        "completed"@
    }
}

/// [`incomplete_reason`].
pub fn reason_for(finish: &str) -> (r: Option<&'static str>)
    ensures
        text_seen(r) == incomplete_reason(finish@),
{
    if same(finish, "length") {
        Some("max_output_tokens")
    } else if same(finish, "content_filter") {
        Some("content_filter")
    } else {
        None
    }
}

pub open spec fn reasoning_item(id: Seq<char>, text: Seq<char>) -> Json {
    Json::Obj(
        seq![
            ("type"@, Json::Str("reasoning"@)),
            ("id"@, Json::Str(id)),
            (
                "summary"@,
                Json::Arr(
                    seq![
                        Json::Obj(
                            seq![
                                ("type"@, Json::Str("summary_text"@)),
                                ("text"@, Json::Str(text)),
                            ],
                        ),
                    ],
                ),
            ),
        ],
    )
}

/// The text part of a finished message.
pub open spec fn finished_part(text: Seq<char>) -> Json {
    Json::Obj(
        seq![
            ("type"@, Json::Str("output_text"@)),
            ("text"@, Json::Str(text)),
            ("annotations"@, Json::Arr(Seq::empty())),
            ("logprobs"@, Json::Arr(Seq::empty())),
        ],
    )
}

pub open spec fn message_item(id: Seq<char>, text: Seq<char>) -> Json {
    Json::Obj(
        seq![
            ("type"@, Json::Str("message"@)),
            ("id"@, Json::Str(id)),
            ("status"@, Json::Str("completed"@)),
            ("role"@, Json::Str("assistant"@)),
            ("content"@, Json::Arr(seq![finished_part(text)])),
        ],
    )
}

pub open spec fn call_item(
    id: Seq<char>,
    status: Seq<char>,
    call_id: Seq<char>,
    name: Seq<char>,
    arguments: Seq<char>,
) -> Json {
    Json::Obj(
        seq![
            ("type"@, Json::Str("function_call"@)),
            ("id"@, Json::Str(id)),
            ("status"@, Json::Str(status)),
            ("call_id"@, Json::Str(call_id)),
            ("name"@, Json::Str(name)),
            ("arguments"@, Json::Str(arguments)),
        ],
    )
}

fn reasoning_value(id: &str, text: &str) -> (out: JsonValue)
    ensures
        out@ == reasoning_item(id@, text@),
{
    let ghost made = reasoning_item(id@, text@)->Obj_0;
    let mut part = Object::new();
    part.push("type", JsonValue::text("summary_text"));
    part.push("text", JsonValue::text(text));
    assert(part@ =~= made[2].1->Arr_0[0]->Obj_0);
    let mut summary: Vec<JsonValue> = Vec::new();
    push_value(&mut summary, JsonValue::Obj(part));
    assert(list_view(summary) =~= made[2].1->Arr_0);
    let mut o = Object::new();
    o.push("type", JsonValue::text("reasoning"));
    o.push("id", JsonValue::text(id));
    o.push("summary", JsonValue::Arr(summary));
    assert(o@ =~= made);
    JsonValue::Obj(o)
}

/// A list with nothing in it.
pub fn empty_list() -> (out: JsonValue)
    ensures
        out@ == Json::Arr(Seq::empty()),
{
    let none: Vec<JsonValue> = Vec::new();
    assert(list_view(none) =~= Seq::empty());
    JsonValue::Arr(none)
}

/// [`finished_part`].
pub fn finished_part_value(text: &str) -> (out: JsonValue)
    ensures
        out@ == finished_part(text@),
{
    let mut o = Object::new();
    o.push("type", JsonValue::text("output_text"));
    o.push("text", JsonValue::text(text));
    o.push("annotations", empty_list());
    o.push("logprobs", empty_list());
    assert(o@ =~= finished_part(text@)->Obj_0);
    JsonValue::Obj(o)
}

/// [`message_item`].
pub fn message_item_value(id: &str, text: &str) -> (out: JsonValue)
    ensures
        out@ == message_item(id@, text@),
{
    let ghost made = message_item(id@, text@)->Obj_0;
    let mut content: Vec<JsonValue> = Vec::new();
    push_value(&mut content, finished_part_value(text));
    assert(list_view(content) =~= seq![finished_part(text@)]);
    let mut o = Object::new();
    o.push("type", JsonValue::text("message"));
    o.push("id", JsonValue::text(id));
    o.push("status", JsonValue::text("completed"));
    o.push("role", JsonValue::text("assistant"));
    o.push("content", JsonValue::Arr(content));
    assert(o@ =~= made);
    JsonValue::Obj(o)
}

/// [`call_item`].
pub fn call_item_value(
    id: &str,
    status: &str,
    call_id: &str,
    name: &str,
    arguments: &str,
) -> (out: JsonValue)
    ensures
        out@ == call_item(id@, status@, call_id@, name@, arguments@),
{
    let mut o = Object::new();
    o.push("type", JsonValue::text("function_call"));
    o.push("id", JsonValue::text(id));
    o.push("status", JsonValue::text(status));
    o.push("call_id", JsonValue::text(call_id));
    o.push("name", JsonValue::text(name));
    o.push("arguments", JsonValue::text(arguments));
    assert(o@ =~= call_item(id@, status@, call_id@, name@, arguments@)->Obj_0);
    JsonValue::Obj(o)
}

/// The reasoning that a message or a delta carries, under either of its names.
pub open spec fn carried_reasoning(v: Json) -> Seq<char> {
    if text_field(v, "reasoning_content"@).len() > 0 {
        text_field(v, "reasoning_content"@)
    } else {
        text_field(v, "reasoning"@)
    }
}

/// [`carried_reasoning`].
pub fn reasoning_in(v: &JsonValue) -> (out: String)
    ensures
        out@ == carried_reasoning(v@),
{
    let first = string_field(v, "reasoning_content");
    if first.as_str().is_empty() {
        string_field(v, "reasoning")
    } else {
        first
    }
}

/// Items of an answer so far, and the ids that are left.
pub struct Answer {
    pub output: Seq<Json>,
    pub pool: IdPoolView,
}

pub open spec fn with_reasoning(a: Answer, text: Seq<char>) -> Answer {
    if text.len() > 0 {
        Answer {
            output: a.output.push(reasoning_item(fresh_id(a.pool, "rs"@), text)),
            pool: id_taken(a.pool),
        }
    } else {
        a
    }
}

pub open spec fn with_message(a: Answer, text: Seq<char>) -> Answer {
    Answer {
        output: a.output.push(message_item(fresh_id(a.pool, "msg"@), text)),
        pool: id_taken(a.pool),
    }
}

/// A call of the answer. Without arguments it has those of an empty object.
pub open spec fn with_call(a: Answer, call: Json) -> Answer {
    Answer {
        output: a.output.push(
            call_item(
                fresh_id(a.pool, "fc"@),
                "completed"@,
                text_field(call, "id"@),
                match inner_field(call, "function"@, "name"@) {
                    Some(v) => scalar_text(v),
                    None => Seq::empty(),
                },
                match inner_field(call, "function"@, "arguments"@) {
                    Some(v) => raw_text(v),
                    None => "{}"@,
                },
            ),
        ),
        pool: id_taken(a.pool),
    }
}

pub open spec fn with_calls(a: Answer, calls: Seq<Json>) -> Answer
    decreases calls.len(),
{
    if calls.len() == 0 {
        a
    } else {
        with_call(with_calls(a, calls.drop_last()), calls.last())
    }
}

/// The message of a Chat answer.
pub open spec fn chat_message(chat: Json) -> Json {
    match first_of(chat, "choices"@) {
        Some(c) => or_null(field(c, "message"@)),
        None => Json::Null,
    }
}

pub open spec fn chat_finish(chat: Json) -> Seq<char> {
    match first_of(chat, "choices"@) {
        Some(c) => text_field(c, "finish_reason"@),
        None => Seq::empty(),
    }
}

pub open spec fn chat_text(chat: Json) -> Seq<char> {
    text_of_content(or_null(field(chat_message(chat), "content"@)))
}

/// The items of a Chat answer: its reasoning, its text, its calls. Where nothing is called there
/// is a text, be it empty.
pub open spec fn answer_items(chat: Json, pool: IdPoolView) -> Answer {
    let message = chat_message(chat);
    let a = with_reasoning(
        Answer { output: Seq::empty(), pool },
        carried_reasoning(message),
    );
    match field(message, "tool_calls"@) {
        Some(Json::Arr(calls)) => with_calls(
            if chat_text(chat).len() > 0 {
                with_message(a, chat_text(chat))
            } else {
                a
            },
            calls,
        ),
        _ => with_message(a, chat_text(chat)),
    }
}

/// The id of the response: that of the Chat answer, or a fresh one.
pub open spec fn answer_id(chat: Json, pool: IdPoolView) -> Seq<char> {
    if text_field(chat, "id"@).len() > 0 {
        text_field(chat, "id"@)
    } else {
        fresh_id(pool, "resp"@)
    }
}

pub open spec fn answer_created(chat: Json, now: i64) -> i64 {
    match field(chat, "created"@) {
        Some(Json::Num(n)) => match number_as_i64(n) {
            Some(k) => k,
            None => now,
        },
        _ => now,
    }
}

/// The response to a request whose Chat answer is `chat`. `now` is the time in seconds.
pub open spec fn answer_response(
    chat: Json,
    model: Seq<char>,
    request: Json,
    pool: IdPoolView,
    now: i64,
) -> Fields {
    let a = answer_items(chat, pool);
    let reason = incomplete_reason(chat_finish(chat));
    envelope(
        answer_id(chat, a.pool),
        model,
        status_for(reason),
        a.output,
        responses_usage(field(chat, "usage"@)),
        request,
        answer_created(chat, now),
        reason,
        now,
    ).push(("output_text"@, Json::Str(chat_text(chat))))
}

/// The plain value of an answer under construction.
pub open spec fn answer(output: Vec<JsonValue>, pool: IdPoolView) -> Answer {
    Answer { output: list_view(output), pool }
}

/// Adds the reasoning of an answer.
pub fn push_reasoning(output: &mut Vec<JsonValue>, text: &str, ids: &mut IdPool)
    ensures
        answer(*final(output), final(ids)@) == with_reasoning(answer(*old(output), old(ids)@), text@),
{
    if !text.is_empty() {
        let id = ids.fresh("rs");
        push_value(output, reasoning_value(id.as_str(), text));
    }
}

/// Adds the text of an answer.
pub fn push_message(output: &mut Vec<JsonValue>, text: &str, ids: &mut IdPool)
    ensures
        answer(*final(output), final(ids)@) == with_message(answer(*old(output), old(ids)@), text@),
{
    let id = ids.fresh("msg");
    push_value(output, message_item_value(id.as_str(), text));
}

fn push_call(output: &mut Vec<JsonValue>, call: &JsonValue, ids: &mut IdPool)
    ensures
        answer(*final(output), final(ids)@) == with_call(answer(*old(output), old(ids)@), call@),
{
    let id = ids.fresh("fc");
    let call_id = string_field(call, "id");
    let name = match inner(call, "function", "name") {
        Some(v) => string_value(v),
        None => {
            let none = String::new();
            assert(none@ =~= Seq::empty());
            none
        },
    };
    let arguments = match inner(call, "function", "arguments") {
        Some(v) => json_text(v),
        None => "{}".to_owned(),
    };
    push_value(
        output,
        call_item_value(
            id.as_str(),
            "completed",
            call_id.as_str(),
            name.as_str(),
            arguments.as_str(),
        ),
    );
}

/// The response to a request whose Chat answer is `chat`.
pub fn responses_from_chat(
    chat: &JsonValue,
    model: &str,
    request: &JsonValue,
    ids: &mut IdPool,
    now: i64,
) -> (out: JsonValue)
    ensures
        out@ == Json::Obj(answer_response(chat@, model@, request@, old(ids)@, now)),
{
    let ghost pool = ids@;
    let choice = first_item(chat, "choices");
    let message = match choice {
        Some(c) => dup_or_null(c.get("message")),
        None => JsonValue::Null,
    };
    let finish = match choice {
        Some(c) => string_field(c, "finish_reason"),
        None => {
            let none = String::new();
            assert(none@ =~= Seq::empty());
            none
        },
    };
    let mut output: Vec<JsonValue> = Vec::new();
    assert(list_view(output) =~= Seq::empty());
    push_reasoning(&mut output, reasoning_in(&message).as_str(), ids);
    let text = content_text(&dup_or_null(message.get("content")));
    match message.get("tool_calls") {
        Some(JsonValue::Arr(calls)) => {
            if !text.as_str().is_empty() {
                push_message(&mut output, text.as_str(), ids);
            }
            let ghost start = answer(output, ids@);
            let ghost all = list_view(*calls);
            assert(all.take(0) =~= Seq::empty());
            for i in 0..calls.len()
                invariant
                    all == list_view(*calls),
                    answer(output, ids@) == with_calls(start, all.take(i as int)),
            {
                assert(all.take(i + 1).drop_last() =~= all.take(i as int));
                assert(all.take(i + 1).last() == calls@[i as int]@);
                push_call(&mut output, &calls[i], ids);
            }
            assert(all.take(all.len() as int) =~= all);
        },
        _ => {
            push_message(&mut output, text.as_str(), ids);
        },
    }
    assert(answer(output, ids@) == answer_items(chat@, pool));
    let reason = reason_for(finish.as_str());
    let status = if reason.is_some() { "incomplete" } else { "completed" };
    let created = match chat.get("created") {
        Some(v) => match v.as_i64() {
            Some(k) => k,
            None => now,
        },
        None => now,
    };
    let own = string_field(chat, "id");
    let id = if own.as_str().is_empty() {
        ids.fresh("resp")
    } else {
        own
    };
    let mut o = response_envelope(
        id.as_str(),
        model,
        status,
        output,
        usage_to_responses(chat.get("usage")),
        request,
        created,
        reason,
        now,
    );
    o.push("output_text", JsonValue::Str(text));
    JsonValue::Obj(o)
}

} // verus!
