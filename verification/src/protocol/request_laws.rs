//! What a Chat request keeps of the Responses request that it was made of.
use vstd::prelude::*;
use crate::json::{field, find, lemma_find_at, lemma_find_none, text_of_json, Fields, Json};
use crate::protocol::responses::{
    body_choice, body_effort, body_format, body_tools, call_message, chat_choice, chat_content,
    chat_format, chat_part, chat_request, chat_tool, chat_tools, has_other_part, if_set,
    input_messages, lines_of, message_of_item, opt_entry, output_message, plain_message,
    reasoning_of, reasoning_parts, stateful_field, wants_stream, with_items, Conversation,
};
use crate::protocol::stream_laws::{head_of, part_of, said};
use crate::protocol::{if_truthy, parts_of, text_field};
use crate::protocol::{text_of_content, IdPoolView};
use crate::js::truthy;
use crate::text::{lowered, trimmed};

verus! {

// ─── Words ───────────────────────────────────────────────────

proof fn lemma_kind_words()
    ensures
        "function_call"@.len() == 13,
        "function_call_output"@.len() == 20,
        "reasoning"@.len() == 9,
        "input_text"@.len() == 10,
        "text"@.len() == 4,
        "input_image"@.len() == 11,
        "input_file"@.len() == 10,
        "image_url"@.len() == 9,
        "output_text"@.len() == 11,
        "reasoning"@ != "image_url"@,
        "input_text"@ != "input_file"@,
        "input_image"@ != "output_text"@,
{
    reveal_strlit("function_call");
    reveal_strlit("function_call_output");
    reveal_strlit("reasoning");
    reveal_strlit("input_text");
    reveal_strlit("text");
    reveal_strlit("input_image");
    reveal_strlit("input_file");
    reveal_strlit("image_url");
    reveal_strlit("output_text");
    assert("reasoning"@[0] != "image_url"@[0]);
    assert("input_text"@[6] != "input_file"@[6]);
    assert("input_image"@[0] != "output_text"@[0]);
}
proof fn lemma_message_words()
    ensures
        "role"@.len() == 4,
        "content"@.len() == 7,
        "reasoning_content"@.len() == 17,
        "tool_calls"@.len() == 10,
        "tool_call_id"@.len() == 12,
        "id"@.len() == 2,
        "type"@.len() == 4,
        "function"@.len() == 8,
        "name"@.len() == 4,
        "arguments"@.len() == 9,
        "text"@.len() == 4,
        "image_url"@.len() == 9,
        "url"@.len() == 3,
        "description"@.len() == 11,
        "parameters"@.len() == 10,
        "strict"@.len() == 6,
        "schema"@.len() == 6,
        "role"@ != "type"@,
        "role"@ != "name"@,
        "role"@ != "text"@,
        "tool_calls"@ != "parameters"@,
        "type"@ != "name"@,
        "type"@ != "text"@,
        "name"@ != "text"@,
        "arguments"@ != "image_url"@,
        "strict"@ != "schema"@,
{
    reveal_strlit("role");
    reveal_strlit("content");
    reveal_strlit("reasoning_content");
    reveal_strlit("tool_calls");
    reveal_strlit("tool_call_id");
    reveal_strlit("id");
    reveal_strlit("type");
    reveal_strlit("function");
    reveal_strlit("name");
    reveal_strlit("arguments");
    reveal_strlit("text");
    reveal_strlit("image_url");
    reveal_strlit("url");
    reveal_strlit("description");
    reveal_strlit("parameters");
    reveal_strlit("strict");
    reveal_strlit("schema");
    assert("role"@[0] != "type"@[0]);
    assert("role"@[0] != "name"@[0]);
    assert("role"@[0] != "text"@[0]);
    assert("tool_calls"@[0] != "parameters"@[0]);
    assert("type"@[0] != "name"@[0]);
    assert("type"@[1] != "text"@[1]);
    assert("name"@[0] != "text"@[0]);
    assert("arguments"@[0] != "image_url"@[0]);
    assert("strict"@[1] != "schema"@[1]);
}
proof fn lemma_role_words()
    ensures
        "user"@.len() == 4,
        "assistant"@.len() == 9,
        "system"@.len() == 6,
        "developer"@.len() == 9,
        "tool"@.len() == 4,
        "user"@ != "tool"@,
        "assistant"@ != "developer"@,
{
    reveal_strlit("user");
    reveal_strlit("assistant");
    reveal_strlit("system");
    reveal_strlit("developer");
    reveal_strlit("tool");
    assert("user"@[0] != "tool"@[0]);
    assert("assistant"@[0] != "developer"@[0]);
}
proof fn lemma_request_words()
    ensures
        "model"@.len() == 5,
        "messages"@.len() == 8,
        "stream"@.len() == 6,
        "max_completion_tokens"@.len() == 21,
        "temperature"@.len() == 11,
        "top_p"@.len() == 5,
        "service_tier"@.len() == 12,
        "parallel_tool_calls"@.len() == 19,
        "user"@.len() == 4,
        "metadata"@.len() == 8,
        "tools"@.len() == 5,
        "tool_choice"@.len() == 11,
        "response_format"@.len() == 15,
        "reasoning_effort"@.len() == 16,
        "model"@ != "top_p"@,
        "model"@ != "tools"@,
        "messages"@ != "metadata"@,
        "temperature"@ != "tool_choice"@,
        "top_p"@ != "tools"@,
{
    reveal_strlit("model");
    reveal_strlit("messages");
    reveal_strlit("stream");
    reveal_strlit("max_completion_tokens");
    reveal_strlit("temperature");
    reveal_strlit("top_p");
    reveal_strlit("service_tier");
    reveal_strlit("parallel_tool_calls");
    reveal_strlit("user");
    reveal_strlit("metadata");
    reveal_strlit("tools");
    reveal_strlit("tool_choice");
    reveal_strlit("response_format");
    reveal_strlit("reasoning_effort");
    assert("model"@[0] != "top_p"@[0]);
    assert("model"@[0] != "tools"@[0]);
    assert("messages"@[2] != "metadata"@[2]);
    assert("temperature"@[1] != "tool_choice"@[1]);
    assert("top_p"@[2] != "tools"@[2]);
}

// ─── Messages ────────────────────────────────────────────────

/// The kind of an item, in lower case.
pub open spec fn kind_of(item: Json) -> Seq<char> {
    lowered(text_field(item, "type"@))
}

/// The item is a message: neither a call nor its output, neither reasoning nor a bare part.
pub open spec fn is_message(item: Json) -> bool {
    let kind = kind_of(item);
    !(item is Str) && kind != "function_call"@ && kind != "function_call_output"@ && kind
        != "reasoning"@ && kind != "input_text"@ && kind != "text"@ && kind != "input_image"@ && kind
        != "input_file"@ && kind != "image_url"@
}

/// What a message item says: its content, else its text.
pub open spec fn content_of(item: Json) -> Option<Json> {
    if field(item, "content"@) is Some {
        field(item, "content"@)
    } else {
        field(item, "text"@)
    }
}

/// The part of a Chat content says what a part of the item does.
pub open spec fn same_part(given: Json, made: Json) -> bool {
    let kind = kind_of(given);
    let is_text = kind == "text"@ || kind == "input_text"@ || kind == "output_text"@;
    let is_image = kind == "input_image"@ || kind == "image_url"@;
    &&& given is Str ==> part_of(made, "type"@) == Json::Str("text"@) && part_of(made, "text"@)
        == given
    &&& !(given is Str) && is_text && part_of(given, "text"@) is Str ==> {
        &&& part_of(made, "type"@) == Json::Str("text"@)
        &&& part_of(made, "text"@) == part_of(given, "text"@)
    }
    &&& !(given is Str) && is_image && part_of(given, "image_url"@) is Str ==> {
        &&& part_of(made, "type"@) == Json::Str("image_url"@)
        &&& part_of(part_of(made, "image_url"@), "url"@) == part_of(given, "image_url"@)
    }
    &&& !(given is Str) && is_image && part_of(part_of(given, "image_url"@), "url"@) is Str ==> {
        &&& part_of(made, "type"@) == Json::Str("image_url"@)
        &&& part_of(part_of(made, "image_url"@), "url"@) == part_of(
            part_of(given, "image_url"@),
            "url"@,
        )
    }
    &&& !(given is Str) && !is_text && !is_image ==> made == given
}

/// The Chat content says what was given: a text as it is, a single text part as its text, and
/// several parts one by one.
pub open spec fn same_content(given: Json, made: Json) -> bool {
    let parts = given->Arr_0;
    &&& given is Str ==> made == given
    &&& given is Arr && parts.len() == 0 ==> made == Json::Str(Seq::empty())
    &&& given is Arr && parts.len() == 1 && parts[0] is Str ==> made == parts[0]
    &&& given is Arr && parts.len() == 1 && (kind_of(parts[0]) == "input_text"@ || kind_of(parts[0])
        == "output_text"@ || kind_of(parts[0]) == "text"@) && part_of(parts[0], "text"@) is Str
        ==> made == part_of(parts[0], "text"@)
    &&& given is Arr && parts.len() > 1 ==> {
        &&& made is Arr
        &&& made->Arr_0.len() == parts.len()
        &&& forall|i: int| 0 <= i < parts.len() ==> same_part(#[trigger] parts[i], made->Arr_0[i])
    }
}

/// What an assistant thought goes with what it said: the text of its summary, or nothing where it
/// has none. Nobody else's thoughts are told.
pub open spec fn thinks(item: Json, speaker: Seq<char>, thought: Json) -> bool {
    let summary = part_of(item, "summary"@);
    let told = part_of(head_of(summary), "text"@);
    &&& speaker != "assistant"@ ==> thought == Json::Null
    &&& speaker == "assistant"@ && summary is Arr && summary->Arr_0.len() == 1 && told is Str
        && said(told).len() > 0 ==> thought == told
    &&& speaker == "assistant"@ && summary is Arr && summary->Arr_0.len() == 0 ==> thought
        == Json::Null
    &&& speaker == "assistant"@ && !(summary is Arr) && !(part_of(item, "content"@) is Arr)
        ==> thought == Json::Null
}

/// The Chat message says what the item does, in the same role. A developer speaks as the system
/// and nobody in particular as the user; any other role is kept.
pub open spec fn conveys(item: Json, m: Json) -> bool {
    let kind = kind_of(item);
    let speaker = lowered(text_field(item, "role"@));
    let call = head_of(part_of(m, "tool_calls"@));
    &&& item is Str ==> part_of(m, "role"@) == Json::Str("user"@) && part_of(m, "content"@) == item
    &&& is_message(item) ==> {
        &&& speaker == "developer"@ ==> part_of(m, "role"@) == Json::Str("system"@)
        &&& speaker.len() == 0 ==> part_of(m, "role"@) == Json::Str("user"@)
        &&& speaker != "developer"@ && speaker.len() > 0 ==> part_of(m, "role"@) == Json::Str(
            speaker,
        )
        &&& content_of(item) is Some
        &&& same_content(content_of(item)->0, part_of(m, "content"@))
        &&& thinks(item, speaker, part_of(m, "reasoning_content"@))
    }
    &&& !(item is Str) && kind == "function_call"@ ==> {
        &&& part_of(m, "role"@) == Json::Str("assistant"@)
        &&& part_of(m, "content"@) == Json::Null
        &&& part_of(m, "tool_calls"@) is Arr && part_of(m, "tool_calls"@)->Arr_0.len() == 1
        &&& part_of(call, "type"@) == Json::Str("function"@)
        &&& part_of(item, "call_id"@) is Str && said(part_of(item, "call_id"@)).len() > 0
            ==> part_of(call, "id"@) == part_of(item, "call_id"@)
        &&& said(part_of(item, "call_id"@)).len() == 0 && !(part_of(item, "call_id"@) is Num)
            && !(part_of(item, "call_id"@) is Bool) && part_of(item, "id"@) is Str && said(
            part_of(item, "id"@),
        ).len() > 0 ==> part_of(call, "id"@) == part_of(item, "id"@)
        &&& part_of(item, "name"@) is Str ==> part_of(part_of(call, "function"@), "name"@)
            == part_of(item, "name"@)
        &&& part_of(item, "arguments"@) is Str && said(part_of(item, "arguments"@)).len() > 0
            ==> part_of(part_of(call, "function"@), "arguments"@) == part_of(item, "arguments"@)
        &&& part_of(item, "arguments"@) is Null ==> part_of(
            part_of(call, "function"@),
            "arguments"@,
        ) == Json::Str("{}"@)
    }
    &&& !(item is Str) && kind == "function_call_output"@ ==> {
        &&& part_of(m, "role"@) == Json::Str("tool"@)
        &&& part_of(item, "call_id"@) is Str && said(part_of(item, "call_id"@)).len() > 0
            ==> part_of(m, "tool_call_id"@) == part_of(item, "call_id"@)
        &&& said(part_of(item, "call_id"@)).len() == 0 && !(part_of(item, "call_id"@) is Num)
            && !(part_of(item, "call_id"@) is Bool) && part_of(item, "id"@) is Str && said(
            part_of(item, "id"@),
        ).len() > 0 ==> part_of(m, "tool_call_id"@) == part_of(item, "id"@)
        &&& part_of(item, "output"@) == Json::Null || part_of(item, "output"@) == Json::Str(
            Seq::empty(),
        ) ==> part_of(m, "content"@) == Json::Str("(empty)"@)
        &&& part_of(item, "output"@) is Str && said(part_of(item, "output"@)).len() > 0 ==> part_of(
            m,
            "content"@,
        ) == part_of(item, "output"@)
        &&& part_of(item, "output"@) is Obj || part_of(item, "output"@) is Arr ==> (part_of(
            m,
            "content"@,
        ) == Json::Str(text_of_json(part_of(item, "output"@))) || text_of_json(
            part_of(item, "output"@),
        ).len() == 0)
    }
    &&& !(item is Str) && (kind == "input_text"@ || kind == "text"@) ==> {
        &&& part_of(m, "role"@) == Json::Str("user"@)
        &&& part_of(item, "text"@) is Str ==> part_of(m, "content"@) == part_of(item, "text"@)
    }
    &&& !(item is Str) && (kind == "input_image"@ || kind == "input_file"@ || kind == "image_url"@)
        ==> {
        &&& part_of(m, "role"@) == Json::Str("user"@)
        &&& part_of(m, "content"@) == Json::Arr(seq![item])
    }
}

/// The item gives no message: reasoning, a message without content, or an assistant that says
/// nothing.
pub open spec fn passed_over(item: Json) -> bool {
    !(item is Str) && (kind_of(item) == "reasoning"@ || (is_message(item) && (content_of(item)
        is None || (lowered(text_field(item, "role"@)) == "assistant"@ && unsaid(
        content_of(item)->0,
    )))))
}

/// The content holds no text and no other part. A text holds what it says.
pub open spec fn unsaid(given: Json) -> bool {
    match given {
        Json::Str(s) => s.len() == 0,
        _ => text_of_content(chat_content(given)).len() == 0 && !has_other_part(
            chat_content(given),
        ),
    }
}

/// The messages say what the items do, one after the other, and nothing else.
pub open spec fn conveyed(items: Seq<Json>, messages: Seq<Json>) -> bool
    decreases items.len(),
{
    if items.len() == 0 {
        messages.len() == 0
    } else if passed_over(items.last()) {
        conveyed(items.drop_last(), messages)
    } else {
        messages.len() > 0 && conveys(items.last(), messages.last()) && conveyed(
            items.drop_last(),
            messages.drop_last(),
        )
    }
}

proof fn lemma_same_part(given: Json)
    ensures
        same_part(given, chat_part(given)),
{
    lemma_kind_words();
    lemma_message_words();
    let made = chat_part(given);
    let kind = kind_of(given);
    if given is Str || kind == "text"@ || kind == "input_text"@ || kind == "output_text"@ {
        let o = made->Obj_0;
        lemma_find_at(o, "type"@, 0);
        lemma_find_at(o, "text"@, 1);
    } else if kind == "input_image"@ || kind == "image_url"@ {
        let o = made->Obj_0;
        lemma_find_at(o, "type"@, 0);
        lemma_find_at(o, "image_url"@, 1);
        lemma_find_at(o[1].1->Obj_0, "url"@, 0);
    }
}

proof fn lemma_same_content(given: Json)
    ensures
        same_content(given, chat_content(given)),
{
    if given is Arr {
        let parts = given->Arr_0;
        assert(parts_of(given) == parts);
        if parts.len() > 1 {
            let made = chat_content(given)->Arr_0;
            assert forall|i: int| 0 <= i < parts.len() implies same_part(
                #[trigger] parts[i],
                made[i],
            ) by {
                lemma_same_part(parts[i]);
            }
        }
    }
}

proof fn lemma_plain(role: Seq<char>, text: Seq<char>)
    ensures
        part_of(plain_message(role, text), "role"@) == Json::Str(role),
        part_of(plain_message(role, text), "content"@) == Json::Str(text),
{
    lemma_message_words();
    let o = plain_message(role, text)->Obj_0;
    lemma_find_at(o, "role"@, 0);
    lemma_find_at(o, "content"@, 1);
}

proof fn lemma_call_message(id: Seq<char>, name: Seq<char>, arguments: Seq<char>)
    ensures
        ({
            let m = call_message(id, name, arguments);
            let call = head_of(part_of(m, "tool_calls"@));
            &&& part_of(m, "role"@) == Json::Str("assistant"@)
            &&& part_of(m, "content"@) == Json::Null
            &&& part_of(m, "tool_calls"@) is Arr && part_of(m, "tool_calls"@)->Arr_0.len() == 1
            &&& part_of(call, "type"@) == Json::Str("function"@)
            &&& part_of(call, "id"@) == Json::Str(id)
            &&& part_of(part_of(call, "function"@), "name"@) == Json::Str(name)
            &&& part_of(part_of(call, "function"@), "arguments"@) == Json::Str(arguments)
        }),
{
    lemma_message_words();
    let o = call_message(id, name, arguments)->Obj_0;
    lemma_find_at(o, "role"@, 0);
    lemma_find_at(o, "content"@, 1);
    lemma_find_at(o, "tool_calls"@, 2);
    let call = o[2].1->Arr_0[0]->Obj_0;
    lemma_find_at(call, "id"@, 0);
    lemma_find_at(call, "type"@, 1);
    lemma_find_at(call, "function"@, 2);
    let f = call[2].1->Obj_0;
    lemma_find_at(f, "name"@, 0);
    lemma_find_at(f, "arguments"@, 1);
}

proof fn lemma_output_message(id: Seq<char>, text: Seq<char>)
    ensures
        part_of(output_message(id, text), "role"@) == Json::Str("tool"@),
        part_of(output_message(id, text), "tool_call_id"@) == Json::Str(id),
        part_of(output_message(id, text), "content"@) == Json::Str(text),
{
    lemma_message_words();
    let o = output_message(id, text)->Obj_0;
    lemma_find_at(o, "role"@, 0);
    lemma_find_at(o, "tool_call_id"@, 1);
    lemma_find_at(o, "content"@, 2);
}

proof fn lemma_item_conveyed(item: Json, pool: IdPoolView)
    requires
        !(item is Str),
    ensures
        match message_of_item(item, pool) {
            Some(m) => !passed_over(item) && conveys(item, m),
            None => passed_over(item),
        },
{
    lemma_kind_words();
    lemma_role_words();
    lemma_message_words();
    let kind = kind_of(item);
    if kind == "function_call"@ {
        let m = message_of_item(item, pool)->0;
        let call = m->Obj_0[2].1->Arr_0[0]->Obj_0;
        let f = call[2].1->Obj_0;
        lemma_call_message(said(call[0].1), said(f[0].1), said(f[1].1));
    } else if kind == "function_call_output"@ {
        let m = message_of_item(item, pool)->0;
        lemma_output_message(said(m->Obj_0[1].1), said(m->Obj_0[2].1));
    } else if kind == "reasoning"@ {
    } else if kind == "input_text"@ || kind == "text"@ {
        lemma_plain("user"@, text_field(item, "text"@));
    } else if kind == "input_image"@ || kind == "input_file"@ || kind == "image_url"@ {
        let o = message_of_item(item, pool)->0->Obj_0;
        lemma_find_at(o, "role"@, 0);
        lemma_find_at(o, "content"@, 1);
    } else if let Some(given) = content_of(item) {
        lemma_same_content(given);
        if message_of_item(item, pool) is Some {
            let o = message_of_item(item, pool)->0->Obj_0;
            lemma_find_at(o, "role"@, 0);
            lemma_find_at(o, "content"@, 1);
            reveal_with_fuel(lines_of, 3);
            if o.len() == 3 {
                lemma_find_at(o, "reasoning_content"@, 2);
            } else {
                lemma_find_none(o, "reasoning_content"@);
            }
            lemma_thought(item);
        }
        lemma_unsaid(given);
    }
}

/// The thought of an item with one summary part, or with none.
proof fn lemma_thought(item: Json)
    ensures
        ({
            let summary = part_of(item, "summary"@);
            let told = part_of(head_of(summary), "text"@);
            &&& summary is Arr && summary->Arr_0.len() == 1 && told is Str && said(told).len() > 0
                ==> reasoning_of(item) == Some(said(told))
            &&& summary is Arr && summary->Arr_0.len() == 0 ==> reasoning_of(item) is None
            &&& !(summary is Arr) && !(part_of(item, "content"@) is Arr) ==> reasoning_of(item)
                is None
        }),
{
    let summary = part_of(item, "summary"@);
    if summary is Arr {
        let parts = summary->Arr_0;
        assert(reasoning_parts(item) == Some(parts));
        if parts.len() == 1 {
            assert(lines_of(parts.drop_last()) =~= Seq::empty());
            assert(parts.last() == parts[0]);
        }
    }
}

/// A text is unsaid where it is empty.
proof fn lemma_unsaid(given: Json)
    ensures
        unsaid(given) == (text_of_content(chat_content(given)).len() == 0 && !has_other_part(
            chat_content(given),
        )),
{
    if given is Str {
        assert(parts_of(given).len() == 0 || parts_of(given) =~= seq![given]);
    }
}

proof fn lemma_items_conveyed(c: Conversation, items: Seq<Json>, n: nat)
    requires
        n <= items.len(),
    ensures
        ({
            let messages = with_items(c, items, n).messages;
            &&& messages.len() >= c.messages.len()
            &&& messages.take(c.messages.len() as int) == c.messages
            &&& conveyed(items.take(n as int), messages.skip(c.messages.len() as int))
        }),
    decreases n,
{
    let k = c.messages.len() as int;
    if n == 0 {
        assert(c.messages.take(k) =~= c.messages);
    } else {
        lemma_items_conveyed(c, items, (n - 1) as nat);
        let before = with_items(c, items, (n - 1) as nat);
        let after = with_items(c, items, n);
        let item = items[n - 1];
        assert(items.take(n as int).drop_last() =~= items.take(n - 1));
        assert(items.take(n as int).last() == item);
        match item {
            Json::Str(s) => {
                lemma_plain("user"@, s);
            },
            _ => {
                lemma_item_conveyed(item, before.pool);
            },
        }
        if after.messages.len() > before.messages.len() {
            assert(after.messages.take(k) =~= before.messages.take(k));
            assert(after.messages.skip(k).drop_last() =~= before.messages.skip(k));
            assert(after.messages.skip(k).last() == after.messages.last());
        }
    }
}

/// The messages of a list of items: the instructions first, as the system, and after them what
/// the items say, item by item, each in its own role.
pub proof fn conversation_conveys_every_item(
    instructions: Option<Json>,
    items: Seq<Json>,
    pool: IdPoolView,
)
    ensures
        ({
            let messages = input_messages(instructions, Some(Json::Arr(items)), pool).messages;
            let told = instructions matches Some(Json::Str(s)) && trimmed(s).len() > 0;
            &&& told ==> {
                &&& messages.len() > 0
                &&& part_of(messages[0], "role"@) == Json::Str("system"@)
                &&& part_of(messages[0], "content"@) == instructions->0
                &&& conveyed(items, messages.skip(1))
            }
            &&& !told ==> conveyed(items, messages)
        }),
{
    let c = Conversation {
        messages: crate::protocol::responses::instruction_messages(instructions),
        pool,
    };
    lemma_items_conveyed(c, items, items.len());
    let messages = with_items(c, items, items.len()).messages;
    assert(items.take(items.len() as int) =~= items);
    match instructions {
        Some(Json::Str(s)) => {
            lemma_plain("system"@, s);
            if trimmed(s).len() > 0 {
                assert(messages.take(1)[0] == c.messages[0]);
            }
        },
        _ => {},
    }
    assert(messages.skip(0) =~= messages);
}

/// A text alone is said by the user, after the instructions; one item alone is conveyed.
pub proof fn single_input_is_conveyed(instructions: Option<Json>, input: Json, pool: IdPoolView)
    requires
        input is Str || input is Obj,
    ensures
        ({
            let messages = input_messages(instructions, Some(input), pool).messages;
            let told = instructions matches Some(Json::Str(s)) && trimmed(s).len() > 0;
            &&& told ==> {
                &&& messages.len() > 0
                &&& part_of(messages[0], "role"@) == Json::Str("system"@)
                &&& part_of(messages[0], "content"@) == instructions->0
                &&& conveyed(seq![input], messages.skip(1))
            }
            &&& !told ==> conveyed(seq![input], messages)
        }),
{
    let c = Conversation {
        messages: crate::protocol::responses::instruction_messages(instructions),
        pool,
    };
    let messages = input_messages(instructions, Some(input), pool).messages;
    lemma_items_conveyed(c, seq![input], 1);
    reveal_with_fuel(with_items, 2);
    assert(with_items(c, seq![input], 1).messages == messages);
    assert(seq![input].take(1) =~= seq![input]);
    match instructions {
        Some(Json::Str(s)) => {
            lemma_plain("system"@, s);
            if trimmed(s).len() > 0 {
                assert(messages.take(1)[0] == c.messages[0]);
            }
        },
        _ => {},
    }
    assert(messages.skip(0) =~= messages);
}

/// A message keeps its role: what a user, an assistant, the system or a tool says is said by
/// the same in the Chat request, and an assistant that says something is heard.
pub proof fn message_keeps_its_role(item: Json, pool: IdPoolView, role: Seq<char>, text: Seq<char>)
    requires
        is_message(item),
        lowered(text_field(item, "role"@)) == role,
        role == "user"@ || role == "assistant"@ || role == "system"@ || role == "tool"@,
        content_of(item) == Some(Json::Str(text)),
        text.len() > 0,
    ensures
        message_of_item(item, pool) is Some,
        part_of(message_of_item(item, pool)->0, "role"@) == Json::Str(role),
        part_of(message_of_item(item, pool)->0, "content"@) == Json::Str(text),
{
    lemma_role_words();
    lemma_item_conveyed(item, pool);
}

// ─── Tools ───────────────────────────────────────────────────

/// The tool is no function: a text, another kind, or without a name.
pub open spec fn no_function(tool: Json) -> bool {
    ||| tool is Str
    ||| kind_of(tool).len() > 0 && kind_of(tool) != "function"@
    ||| field(tool, "function"@) is None && text_field(tool, "name"@).len() == 0
    ||| kind_of(tool).len() == 0 && text_field(tool, "name"@).len() == 0
}

/// The Chat tool is the function: the same name, description and parameters.
pub open spec fn same_tool(tool: Json, made: Json) -> bool {
    let f = part_of(made, "function"@);
    &&& kind_of(tool) == "function"@ && field(tool, "function"@) is Some ==> made == tool
    &&& !(kind_of(tool) == "function"@ && field(tool, "function"@) is Some) ==> {
        &&& part_of(made, "type"@) == Json::Str("function"@)
        &&& part_of(tool, "name"@) is Str ==> part_of(f, "name"@) == part_of(tool, "name"@)
        &&& part_of(tool, "parameters"@) is Obj ==> part_of(f, "parameters"@) == part_of(
            tool,
            "parameters"@,
        )
        &&& truthy(part_of(tool, "description"@)) ==> part_of(f, "description"@) == part_of(
            tool,
            "description"@,
        )
        &&& !truthy(part_of(tool, "description"@)) ==> field(f, "description"@) is None
        &&& !truthy(part_of(tool, "parameters"@)) ==> part_of(
            part_of(f, "parameters"@),
            "type"@,
        ) == Json::Str("object"@)
        &&& part_of(f, "strict"@) == part_of(tool, "strict"@)
    }
}

/// The Chat tools are the functions among the tools, in their order.
pub open spec fn offered(tools: Seq<Json>, made: Seq<Json>) -> bool
    decreases tools.len(),
{
    if tools.len() == 0 {
        made.len() == 0
    } else if no_function(tools.last()) {
        offered(tools.drop_last(), made)
    } else {
        made.len() > 0 && same_tool(tools.last(), made.last()) && offered(
            tools.drop_last(),
            made.drop_last(),
        )
    }
}

proof fn lemma_find_opt(o: Fields, key: Seq<char>, v: Option<Json>, other: Seq<char>)
    ensures
        find(o + opt_entry(key, v), other) == if other == key && v is Some {
            v
        } else {
            find(o, other)
        },
{
    match v {
        Some(x) => {
            let all = o + opt_entry(key, v);
            assert(all.drop_last() =~= o);
            assert(all.last() == (key, x));
        },
        None => {
            assert(o + opt_entry(key, v) =~= o);
        },
    }
}

proof fn lemma_same_tool(tool: Json)
    ensures
        match chat_tool(tool) {
            Some(made) => !no_function(tool) && same_tool(tool, made),
            None => no_function(tool),
        },
{
    lemma_message_words();
    match chat_tool(tool) {
        Some(made) => {
            if !(kind_of(tool) == "function"@ && field(tool, "function"@) is Some) {
                let o = made->Obj_0;
                lemma_find_at(o, "type"@, 0);
                lemma_find_at(o, "function"@, 1);
                let a = seq![("name"@, Json::Str(text_field(tool, "name"@)))];
                let b = a + opt_entry("description"@, if_truthy(field(tool, "description"@)));
                let p = match if_truthy(field(tool, "parameters"@)) {
                    Some(p) => p,
                    None => crate::protocol::responses::no_parameters(),
                };
                let c = b + opt_entry("parameters"@, Some(p));
                let d = c + opt_entry("strict"@, field(tool, "strict"@));
                assert(o[1].1 == Json::Obj(d));
                lemma_find_at(a, "name"@, 0);
                reveal_strlit("properties");
                assert("properties"@.len() == 10);
                lemma_find_at(
                    crate::protocol::responses::no_parameters()->Obj_0,
                    "type"@,
                    0,
                );
                lemma_find_none(a, "description"@);
                lemma_find_none(a, "parameters"@);
                lemma_find_none(a, "strict"@);
                lemma_tool_entry(a, b, c, d, tool, p, "name"@);
                lemma_tool_entry(a, b, c, d, tool, p, "description"@);
                lemma_tool_entry(a, b, c, d, tool, p, "parameters"@);
                lemma_tool_entry(a, b, c, d, tool, p, "strict"@);
            }
        },
        None => {},
    }
}

proof fn lemma_tool_entry(
    a: Fields,
    b: Fields,
    c: Fields,
    d: Fields,
    tool: Json,
    p: Json,
    key: Seq<char>,
)
    requires
        b == a + opt_entry("description"@, if_truthy(field(tool, "description"@))),
        c == b + opt_entry("parameters"@, Some(p)),
        d == c + opt_entry("strict"@, field(tool, "strict"@)),
    ensures
        find(d, key) == if key == "strict"@ && field(tool, "strict"@) is Some {
            field(tool, "strict"@)
        } else if key == "parameters"@ {
            Some(p)
        } else if key == "description"@ && if_truthy(field(tool, "description"@)) is Some {
            field(tool, "description"@)
        } else {
            find(a, key)
        },
{
    lemma_find_opt(a, "description"@, if_truthy(field(tool, "description"@)), key);
    lemma_find_opt(b, "parameters"@, Some(p), key);
    lemma_find_opt(c, "strict"@, field(tool, "strict"@), key);
}

/// The tools of a Chat request are the functions of the Responses request, one by one.
pub proof fn tools_are_offered(tools: Seq<Json>)
    ensures
        offered(tools, chat_tools(tools)),
    decreases tools.len(),
{
    if tools.len() > 0 {
        tools_are_offered(tools.drop_last());
        lemma_same_tool(tools.last());
        match chat_tool(tools.last()) {
            Some(t) => {
                assert(chat_tools(tools).drop_last() =~= chat_tools(tools.drop_last()));
            },
            None => {},
        }
    }
}

// ─── The request ─────────────────────────────────────────────

proof fn lemma_request_entry(body: Json, messages: Seq<Json>, key: Seq<char>)
    ensures
        key == "max_completion_tokens"@ ==> find(chat_request(body, messages), key)
            == if_truthy(field(body, "max_output_tokens"@)),
        key == "temperature"@ ==> find(chat_request(body, messages), key)
            == if_set(field(body, "temperature"@)),
        key == "top_p"@ ==> find(chat_request(body, messages), key)
            == if_set(field(body, "top_p"@)),
        key == "service_tier"@ ==> find(chat_request(body, messages), key)
            == if_set(field(body, "service_tier"@)),
        key == "parallel_tool_calls"@ ==> find(chat_request(body, messages), key)
            == if_set(field(body, "parallel_tool_calls"@)),
        key == "user"@ ==> find(chat_request(body, messages), key) == if_set(field(body, "user"@)),
        key == "metadata"@ ==> find(chat_request(body, messages), key)
            == if_set(field(body, "metadata"@)),
        key == "tools"@ ==> find(chat_request(body, messages), key) == body_tools(body),
        key == "tool_choice"@ ==> find(chat_request(body, messages), key) == body_choice(body),
        key == "response_format"@ ==> find(chat_request(body, messages), key) == body_format(body),
        key == "reasoning_effort"@ ==> find(chat_request(body, messages), key) == body_effort(body),
        key == "model"@ ==> find(chat_request(body, messages), key)
            == Some(crate::json::or_null(field(body, "model"@))),
        key == "messages"@ ==> find(chat_request(body, messages), key) == Some(Json::Arr(messages)),
        key == "stream"@ ==> find(chat_request(body, messages), key)
            == Some(Json::Bool(wants_stream(body))),
{
    lemma_request_words();
    let o0 = seq![
        ("model"@, crate::json::or_null(field(body, "model"@))),
        ("messages"@, Json::Arr(messages)),
        ("stream"@, Json::Bool(wants_stream(body))),
    ];
    if key == "model"@ {
        lemma_find_at(o0, key, 0);
    } else if key == "messages"@ {
        lemma_find_at(o0, key, 1);
    } else if key == "stream"@ {
        lemma_find_at(o0, key, 2);
    } else {
        lemma_find_none(o0, key);
    }
    let o1 = o0 + opt_entry("max_completion_tokens"@, if_truthy(field(body, "max_output_tokens"@)));
    lemma_find_opt(o0, "max_completion_tokens"@, if_truthy(field(body, "max_output_tokens"@)), key);
    let o2 = o1 + opt_entry("temperature"@, if_set(field(body, "temperature"@)));
    lemma_find_opt(o1, "temperature"@, if_set(field(body, "temperature"@)), key);
    let o3 = o2 + opt_entry("top_p"@, if_set(field(body, "top_p"@)));
    lemma_find_opt(o2, "top_p"@, if_set(field(body, "top_p"@)), key);
    let o4 = o3 + opt_entry("service_tier"@, if_set(field(body, "service_tier"@)));
    lemma_find_opt(o3, "service_tier"@, if_set(field(body, "service_tier"@)), key);
    let o5 = o4 + opt_entry("parallel_tool_calls"@, if_set(field(body, "parallel_tool_calls"@)));
    lemma_find_opt(o4, "parallel_tool_calls"@, if_set(field(body, "parallel_tool_calls"@)), key);
    let o6 = o5 + opt_entry("user"@, if_set(field(body, "user"@)));
    lemma_find_opt(o5, "user"@, if_set(field(body, "user"@)), key);
    let o7 = o6 + opt_entry("metadata"@, if_set(field(body, "metadata"@)));
    lemma_find_opt(o6, "metadata"@, if_set(field(body, "metadata"@)), key);
    let o8 = o7 + opt_entry("tools"@, body_tools(body));
    lemma_find_opt(o7, "tools"@, body_tools(body), key);
    let o9 = o8 + opt_entry("tool_choice"@, body_choice(body));
    lemma_find_opt(o8, "tool_choice"@, body_choice(body), key);
    let o10 = o9 + opt_entry("response_format"@, body_format(body));
    lemma_find_opt(o9, "response_format"@, body_format(body), key);
    let o11 = o10 + opt_entry("reasoning_effort"@, body_effort(body));
    lemma_find_opt(o10, "reasoning_effort"@, body_effort(body), key);
    assert(chat_request(body, messages) == o11);
}

/// What a Chat request takes over: the model, the messages, whether the answer is streamed, the
/// limit of tokens, the settings, the tools, the choice among them, the format and the effort.
pub proof fn request_keeps_its_settings(body: Json, messages: Seq<Json>)
    ensures
        ({
            let r = Json::Obj(chat_request(body, messages));
            let choice = part_of(body, "tool_choice"@);
            let format = part_of(part_of(body, "text"@), "format"@);
            let made = part_of(part_of(r, "response_format"@), "json_schema"@);
            let effort = part_of(part_of(body, "reasoning"@), "effort"@);
            &&& part_of(r, "model"@) == part_of(body, "model"@)
            &&& part_of(r, "messages"@) == Json::Arr(messages)
            &&& part_of(r, "stream"@) == Json::Bool(part_of(body, "stream"@) == Json::Bool(true))
            &&& truthy(part_of(body, "max_output_tokens"@)) ==> part_of(
                r,
                "max_completion_tokens"@,
            ) == part_of(body, "max_output_tokens"@)
            &&& !truthy(part_of(body, "max_output_tokens"@)) ==> find(
                r->Obj_0,
                "max_completion_tokens"@,
            ) is None
            &&& part_of(r, "temperature"@) == part_of(body, "temperature"@)
            &&& part_of(r, "top_p"@) == part_of(body, "top_p"@)
            &&& part_of(r, "service_tier"@) == part_of(body, "service_tier"@)
            &&& part_of(r, "parallel_tool_calls"@) == part_of(body, "parallel_tool_calls"@)
            &&& part_of(r, "user"@) == part_of(body, "user"@)
            &&& part_of(r, "metadata"@) == part_of(body, "metadata"@)
            &&& part_of(body, "tools"@) is Arr ==> offered(
                part_of(body, "tools"@)->Arr_0,
                if part_of(r, "tools"@) is Arr {
                    part_of(r, "tools"@)->Arr_0
                } else {
                    Seq::empty()
                },
            )
            &&& !(part_of(body, "tools"@) is Arr) ==> find(r->Obj_0, "tools"@) is None
            &&& choice is Str && said(choice).len() > 0 ==> part_of(r, "tool_choice"@) == choice
            &&& part_of(choice, "name"@) is Str && said(part_of(choice, "name"@)).len() > 0 ==> {
                &&& part_of(part_of(r, "tool_choice"@), "type"@) == Json::Str("function"@)
                &&& part_of(part_of(part_of(r, "tool_choice"@), "function"@), "name"@) == part_of(
                    choice,
                    "name"@,
                )
            }
            &&& truthy(format) && text_field(format, "type"@) != "json_schema"@ ==> part_of(
                r,
                "response_format"@,
            ) == format
            &&& format is Obj && text_field(format, "type"@) == "json_schema"@ ==> {
                &&& part_of(part_of(r, "response_format"@), "type"@) == Json::Str("json_schema"@)
                &&& truthy(part_of(format, "name"@)) ==> part_of(made, "name"@) == part_of(
                    format,
                    "name"@,
                )
                &&& truthy(part_of(format, "schema"@)) ==> part_of(made, "schema"@) == part_of(
                    format,
                    "schema"@,
                )
                &&& truthy(part_of(format, "strict"@)) ==> part_of(made, "strict"@) == part_of(
                    format,
                    "strict"@,
                )
            }
            &&& effort is Str && trimmed(said(effort)).len() > 0 ==> part_of(r, "reasoning_effort"@)
                == effort
        }),
{
    lemma_message_words();
    reveal_strlit("json_schema");
    lemma_request_entry(body, messages, "model"@);
    lemma_request_entry(body, messages, "messages"@);
    lemma_request_entry(body, messages, "stream"@);
    lemma_request_entry(body, messages, "max_completion_tokens"@);
    lemma_request_entry(body, messages, "temperature"@);
    lemma_request_entry(body, messages, "top_p"@);
    lemma_request_entry(body, messages, "service_tier"@);
    lemma_request_entry(body, messages, "parallel_tool_calls"@);
    lemma_request_entry(body, messages, "user"@);
    lemma_request_entry(body, messages, "metadata"@);
    lemma_request_entry(body, messages, "tools"@);
    lemma_request_entry(body, messages, "tool_choice"@);
    lemma_request_entry(body, messages, "response_format"@);
    lemma_request_entry(body, messages, "reasoning_effort"@);
    if let Some(Json::Arr(tools)) = field(body, "tools"@) {
        tools_are_offered(tools);
        if chat_tools(tools).len() == 0 {
            assert(chat_tools(tools) =~= Seq::empty());
        }
    }
    let choice = part_of(body, "tool_choice"@);
    if part_of(choice, "name"@) is Str && said(part_of(choice, "name"@)).len() > 0 {
        let o = chat_choice(choice)->Obj_0;
        lemma_find_at(o, "type"@, 0);
        lemma_find_at(o, "function"@, 1);
        lemma_find_at(o[1].1->Obj_0, "name"@, 0);
    }
    let format = part_of(part_of(body, "text"@), "format"@);
    if format is Obj && text_field(format, "type"@) == "json_schema"@ {
        let o = chat_format(format)->Obj_0;
        assert("json_schema"@.len() == 11);
        lemma_find_at(o, "type"@, 0);
        lemma_find_at(o, "json_schema"@, 1);
        let a = opt_entry("name"@, if_truthy(field(format, "name"@)));
        let b = a + opt_entry("description"@, if_truthy(field(format, "description"@)));
        let c = b + opt_entry("schema"@, if_truthy(field(format, "schema"@)));
        lemma_format_entry(format, "name"@);
        lemma_format_entry(format, "schema"@);
        lemma_format_entry(format, "strict"@);
    }
}

proof fn lemma_format_entry(format: Json, key: Seq<char>)
    requires
        text_field(format, "type"@) == "json_schema"@,
        key == "name"@ || key == "schema"@ || key == "strict"@,
    ensures
        find(chat_format(format)->Obj_0[1].1->Obj_0, key) == if_truthy(field(format, key)),
{
    lemma_message_words();
    let e = Seq::<(Seq<char>, Json)>::empty();
    let a = e + opt_entry("name"@, if_truthy(field(format, "name"@)));
    let b = a + opt_entry("description"@, if_truthy(field(format, "description"@)));
    let c = b + opt_entry("schema"@, if_truthy(field(format, "schema"@)));
    let d = c + opt_entry("strict"@, if_truthy(field(format, "strict"@)));
    lemma_find_opt(e, "name"@, if_truthy(field(format, "name"@)), key);
    lemma_find_opt(a, "description"@, if_truthy(field(format, "description"@)), key);
    lemma_find_opt(b, "schema"@, if_truthy(field(format, "schema"@)), key);
    lemma_find_opt(c, "strict"@, if_truthy(field(format, "strict"@)), key);
    assert(a =~= opt_entry("name"@, if_truthy(field(format, "name"@))));
}

/// A request is refused exactly where it relies on stored state, and the refusal names a field
/// that it relies on.
pub proof fn state_is_refused(body: Json)
    ensures
        stateful_field(body) is Some <==> truthy(part_of(body, "previous_response_id"@)) || truthy(
            part_of(body, "conversation"@),
        ) || truthy(part_of(body, "prompt"@)) || truthy(part_of(body, "background"@)),
        stateful_field(body) matches Some(name) ==> truthy(part_of(body, name)),
{
}

} // verus!
