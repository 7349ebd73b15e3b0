use agent2api_core::json::JsonValue;
use agent2api_core::protocol::responses::{
    chat_from_responses, content_to_chat, format_to_chat, responses_from_chat, tool_choice_to_chat,
    tool_to_chat, usage_to_responses,
};
use agent2api_core::protocol::responses_collector::ResponsesCollector;
use agent2api_core::protocol::responses_stream::ResponsesStream;
use agent2api_core::protocol::{event_frame, IdPool, StreamEvent};

fn value(text: &str) -> JsonValue {
    match JsonValue::from_text(text) {
        Ok(v) => v,
        Err(e) => panic!("{e}: {text}"),
    }
}

fn pool() -> IdPool {
    IdPool { seed: "s".to_string(), next: 1 }
}

fn chat(body: &str) -> JsonValue {
    match chat_from_responses(&value(body), &mut pool()) {
        Ok(v) => v,
        Err(e) => panic!("{e}"),
    }
}

fn under(v: &JsonValue, key: &str) -> String {
    v.get(key).map(|x| x.to_text()).unwrap_or_default()
}

#[test]
fn a_plain_request_becomes_a_chat() {
    let v = chat(r#"{"model":"m","instructions":"be kind","input":"hello","stream":true,"temperature":0.5,"max_output_tokens":9}"#);
    assert_eq!(under(&v, "model"), r#""m""#);
    assert_eq!(
        under(&v, "messages"),
        r#"[{"role":"system","content":"be kind"},{"role":"user","content":"hello"}]"#
    );
    assert_eq!(under(&v, "stream"), "true");
    assert_eq!(under(&v, "temperature"), "0.5");
    assert_eq!(under(&v, "max_completion_tokens"), "9");
}

#[test]
fn input_items_become_messages() {
    let v = chat(
        r#"{"model":"m","input":[{"role":"developer","content":"d"},{"role":"user","content":[{"type":"input_text","text":"a"},{"type":"input_image","image_url":"u"}]},
            {"type":"function_call","call_id":"c1","name":"f","arguments":"{}"},{"type":"function_call_output","call_id":"c1","output":"done"}]}"#,
    );
    let messages = under(&v, "messages");
    assert!(messages.contains(r#"{"type":"image_url","image_url":{"url":"u"}}"#), "{messages}");
    assert!(messages.contains(r#""tool_calls":[{"id":"c1","type":"function","function":{"name":"f","arguments":"{}"}}]"#), "{messages}");
    assert!(messages.contains(r#"{"role":"tool","tool_call_id":"c1","content":"done"}"#), "{messages}");
}

#[test]
fn state_on_the_other_side_is_refused() {
    match chat_from_responses(&value(r#"{"model":"m","input":"x","previous_response_id":"r"}"#), &mut pool()) {
        Ok(_) => panic!(),
        Err(e) => assert!(e.contains("previous_response_id"), "{e}"),
    }
}

#[test]
fn tools_and_formats() {
    match tool_to_chat(&value(r#"{"type":"function","name":"f","description":"d","parameters":{"type":"object"},"strict":true}"#)) {
        Some(t) => assert_eq!(
            t.to_text(),
            r#"{"type":"function","function":{"name":"f","description":"d","parameters":{"type":"object"},"strict":true}}"#
        ),
        None => panic!(),
    }
    assert!(tool_to_chat(&value(r#"{"type":"web_search"}"#)).is_none());
    assert_eq!(tool_choice_to_chat(&value(r#""auto""#)).to_text(), r#""auto""#);
    assert_eq!(
        tool_choice_to_chat(&value(r#"{"type":"function","name":"f"}"#)).to_text(),
        r#"{"type":"function","function":{"name":"f"}}"#
    );
    assert_eq!(
        format_to_chat(&value(r#"{"type":"json_schema","name":"n","schema":{}}"#)).get("type").map(|v| v.to_text()).as_deref(),
        Some(r#""json_schema""#)
    );
    assert_eq!(content_to_chat(&value(r#""plain""#)).to_text(), r#""plain""#);
}

#[test]
fn usage_is_counted() {
    let u = usage_to_responses(Some(&value(
        r#"{"prompt_tokens":5,"completion_tokens":7,"prompt_tokens_details":{"cached_tokens":2},"completion_tokens_details":{"reasoning_tokens":3}}"#,
    )));
    assert_eq!(
        u.to_text(),
        r#"{"input_tokens":5,"input_tokens_details":{"cached_tokens":2},"output_tokens":7,"output_tokens_details":{"reasoning_tokens":3},"total_tokens":12}"#
    );
}

#[test]
fn an_answer_becomes_a_response() {
    let answer = value(
        r#"{"id":"x","created":9,"choices":[{"finish_reason":"length","message":{"reasoning_content":"hm","content":"hi","tool_calls":[{"id":"c","function":{"name":"f","arguments":"{}"}}]}}],
            "usage":{"prompt_tokens":1,"completion_tokens":2,"total_tokens":3}}"#,
    );
    let r = responses_from_chat(&answer, "m", &value(r#"{"temperature":1}"#), &mut pool(), 0);
    assert_eq!(under(&r, "object"), r#""response""#);
    assert_eq!(under(&r, "status"), r#""incomplete""#);
    assert_eq!(under(&r, "incomplete_details"), r#"{"reason":"max_output_tokens"}"#);
    assert_eq!(under(&r, "created_at"), "9");
    let output = under(&r, "output");
    assert!(output.contains(r#""type":"reasoning""#) && output.contains(r#""text":"hi""#) && output.contains(r#""call_id":"c""#), "{output}");
}

fn names(events: &[StreamEvent]) -> Vec<String> {
    events.iter().map(|e| e.name.clone()).collect()
}

#[test]
fn a_stream_is_turned_into_events() {
    let mut s = ResponsesStream::new("m", &value("{}"), "s", 5);
    let mut out: Vec<StreamEvent> = Vec::new();
    s.consume(&value(r#"{"id":"x","choices":[{"delta":{"reasoning_content":"r"}}]}"#), 6, &mut out);
    s.consume(&value(r#"{"choices":[{"delta":{"content":"he"}}]}"#), 6, &mut out);
    s.consume(&value(r#"{"choices":[{"delta":{"content":"y"},"finish_reason":"stop"}]}"#), 6, &mut out);
    s.finish(&vec![Some("[DONE]".to_string()), None], 7, &mut out);
    assert_eq!(
        names(&out),
        [
            "response.created",
            "response.output_item.added",
            "response.reasoning_summary_part.added",
            "response.reasoning_summary_text.delta",
            "response.reasoning_summary_text.done",
            "response.reasoning_summary_part.done",
            "response.output_item.done",
            "response.output_item.added",
            "response.content_part.added",
            "response.output_text.delta",
            "response.output_text.delta",
            "response.output_text.done",
            "response.content_part.done",
            "response.output_item.done",
            "response.completed",
        ]
    );
    for (i, e) in out.iter().enumerate() {
        assert_eq!(e.data.get("sequence_number").and_then(|v| v.as_i64()), Some(i as i64));
    }
    let before = out.len();
    s.finish(&vec![], 8, &mut out);
    assert_eq!(out.len(), before);
    let frame = event_frame(&out[0]);
    assert!(frame.starts_with("event: response.created\ndata: {\"response\":{\"id\":\"x\"") && frame.ends_with("}\n\n"), "{frame}");
}

#[test]
fn an_error_ends_a_stream() {
    let mut s = ResponsesStream::new("m", &value("{}"), "s", 5);
    let mut out: Vec<StreamEvent> = Vec::new();
    s.push(&vec![Some(r#"{"error":{"message":"no"}}"#.to_string())], &vec![], 6, &mut out);
    assert_eq!(out.last().map(|e| e.name.as_str()), Some("response.failed"));
    s.finish(&vec![], 7, &mut out);
    assert_eq!(out.iter().filter(|e| e.name == "response.failed" || e.name == "response.completed").count(), 1);
}

#[test]
fn calls_are_streamed() {
    let mut s = ResponsesStream::new("m", &value("{}"), "s", 5);
    let mut out: Vec<StreamEvent> = Vec::new();
    s.consume(&value(r#"{"choices":[{"delta":{"tool_calls":[{"index":0,"id":"c","function":{"name":"f","arguments":"{\"a\""}}]}}]}"#), 6, &mut out);
    s.consume(&value(r#"{"choices":[{"delta":{"tool_calls":[{"index":0,"function":{"arguments":":1}"}}]}}]}"#), 6, &mut out);
    s.finish(&vec![], 7, &mut out);
    let done = out.iter().find(|e| e.name == "response.function_call_arguments.done");
    assert_eq!(
        done.and_then(|e| e.data.get("arguments")).and_then(|v| v.as_str()),
        Some(r#"{"a":1}"#)
    );
}

#[test]
fn a_collected_stream_is_one_response() {
    let feed = |pieces: Vec<Vec<&str>>| {
        let mut c = ResponsesCollector::new(1);
        for piece in pieces {
            c.push(&piece.iter().map(|s| Some(s.to_string())).collect());
        }
        c.finish(&vec![]);
        c.into_response("m", &value("{}"), &mut pool(), 9).to_text()
    };
    let a = r#"{"id":"x","choices":[{"delta":{"content":"he"}}]}"#;
    let b = r#"{"choices":[{"delta":{"content":"y"},"finish_reason":"stop"}],"usage":{"prompt_tokens":1,"completion_tokens":1}}"#;
    let whole = feed(vec![vec![a, "not json", b]]);
    assert!(whole.contains(r#""text":"hey""#) && whole.contains(r#""status":"completed""#), "{whole}");
    assert_eq!(feed(vec![vec![a], vec![b]]), whole);
}

#[test]
fn ids_are_all_different() {
    let mut p = pool();
    assert_eq!(p.fresh("msg"), "msg_s1");
    assert_eq!(p.fresh("msg"), "msg_s2");
    let mut last = IdPool { seed: "s".to_string(), next: u64::MAX };
    assert_eq!(last.fresh("r"), "r_sffffffffffffffff");
    assert_eq!(last.fresh("r"), "r_s0");
}
