use agent2api_core::debug_traffic::capture::TrafficCapture;
use agent2api_core::debug_traffic::cut::{bytes_of, truncate_chars, truncate_json_value};
use agent2api_core::debug_traffic::entry::{
    blank_entry, detail_payload, redact_headers, TrafficEntry,
};
use agent2api_core::debug_traffic::store::{TrafficStore, Written};
use agent2api_core::debug_traffic::{MAX_ENTRIES, MAX_ENTRY_BYTES};
use agent2api_core::json::JsonValue;

fn value(text: &str) -> JsonValue {
    match JsonValue::from_text(text) {
        Ok(v) => v,
        Err(e) => panic!("{e}: {text}"),
    }
}

fn headers(list: &[(&str, &str)]) -> Vec<(String, String)> {
    list.iter().map(|(a, b)| (a.to_string(), b.to_string())).collect()
}

fn entry(id: &str) -> TrafficEntry {
    blank_entry(id, "https://x/y", "raccoon", &headers(&[("A", "b")]), &value(r#"{"k":1}"#), 5)
}

#[test]
fn credentials_in_headers_are_marked() {
    let shown = redact_headers(&headers(&[
        ("Authorization", "Bearer t"),
        ("X-Thing", "1"),
        ("x-thing", "2"),
        ("Set-Cookie", "c"),
        ("X-Qoder-Token", "q"),
    ]));
    assert_eq!(
        shown.to_text(),
        r#"{"authorization":"[redacted]","x-thing":"2","set-cookie":"[redacted]","x-qoder-token":"[redacted]"}"#
    );
}

#[test]
fn texts_are_cut_at_characters() {
    assert_eq!(bytes_of("a模😀"), 8);
    assert_eq!(truncate_chars("abc", 3), "abc");
    assert_eq!(truncate_chars("abcd", 3), "abc…");
    assert_eq!(truncate_chars("模型", 5), "模…");
    assert_eq!(truncate_chars("模型", 0), "…");
}

#[test]
fn objects_keep_their_keys() {
    let big = "x".repeat(3000);
    let v = value(&format!(r#"{{"small":1,"big":"{big}"}}"#));
    assert_eq!(truncate_json_value(&v, 4000).to_text(), v.to_text());
    let cut = truncate_json_value(&v, 2000);
    assert_eq!(
        cut.to_text(),
        format!(
            r#"{{"small":1,"big":"{}…","_truncated":"…（内容过大，调试模式已截断）"}}"#,
            "x".repeat(1999)
        )
    );
}

#[test]
fn lists_keep_both_ends() {
    let v = value("[1,2,3,4,5,6,7,8,9]");
    assert_eq!(
        truncate_json_value(&v, 12).to_text(),
        r#"[1,2,3,"…（内容过大，调试模式已截断）",8,9]"#
    );
    assert_eq!(truncate_json_value(&v, 30).to_text(), v.to_text());
    let v = value(r#"["abcdefghij",1]"#);
    assert_eq!(
        truncate_json_value(&v, 8).to_text(),
        r#"["abcdef…","…（内容过大，调试模式已截断）"]"#
    );
    assert_eq!(truncate_json_value(&value("[]"), 0).to_text(), "[]");
    assert_eq!(truncate_json_value(&value("12345"), 1).to_text(), "12345");
}

#[test]
fn entries_are_written_and_read() {
    let mut e = entry("r1");
    let text = e.to_value().to_text();
    assert_eq!(
        text,
        r#"{"id":"r1","ts":5,"url":"https://x/y","provider":"raccoon","request_headers":{"a":"b"},"request_body":{"k":1},"truncated":false}"#
    );
    e.status = Some(200);
    e.response_headers = Some(value("{}"));
    e.response_body = Some("ok".to_string());
    let back = TrafficEntry::from_value(&e.to_value());
    assert_eq!(back.map(|b| b.to_value().to_text()), Some(e.to_value().to_text()));
    assert!(TrafficEntry::from_value(&value(r#"{"id":"x"}"#)).is_none());
    assert!(TrafficEntry::from_value(&value(r#"{"id":"x","ts":1.5}"#)).is_none());
    assert!(TrafficEntry::from_value(&value(r#"{"id":"x","ts":1,"status":70000}"#)).is_none());
    assert!(TrafficEntry::from_value(&value(r#"{"id":"x","ts":1,"status":null}"#)).is_some());
}

#[test]
fn an_entry_is_shown() {
    assert_eq!(
        detail_payload(&entry("r1")).to_text(),
        r#"{"id":"r1","ts":5,"url":"https://x/y","provider":"raccoon","requestHeaders":{"a":"b"},"requestBody":{"k":1},"status":null,"responseHeaders":null,"responseBody":null,"truncated":false}"#
    );
}

#[test]
fn entries_are_recorded_and_found() {
    let mut store = TrafficStore::new();
    let line = match store.record(entry("a")) {
        Written::Append(line) => line,
        Written::Rewrite(_) => panic!(),
    };
    assert_eq!(line, entry("a").to_value().to_text());
    let mut second = entry("a");
    second.ts = 9;
    store.record(second);
    assert_eq!(store.count(), 2);
    assert_eq!(store.get("a").map(|e| e.ts), Some(9));
    assert!(store.get("b").is_none());
    let (again, fewer) = TrafficStore::load(&store.text());
    assert!(!fewer);
    assert_eq!(again.text(), store.text());
    store.clear();
    assert_eq!((store.count(), store.text()), (0, String::new()));
}

#[test]
fn the_older_half_makes_room() {
    let mut store = TrafficStore::new();
    for i in 0..MAX_ENTRIES {
        match store.record(entry(&format!("e{i}"))) {
            Written::Append(_) => {}
            Written::Rewrite(_) => panic!(),
        }
    }
    match store.record(entry("last")) {
        Written::Rewrite(text) => assert_eq!(text.lines().count(), MAX_ENTRIES / 2 + 1),
        Written::Append(_) => panic!(),
    }
    assert!(store.get("e249").is_none());
    assert!(store.get("e250").is_some());
    assert!(store.get("last").is_some());
}

#[test]
fn a_file_is_read_leniently() {
    let mut text = String::new();
    for i in 0..(MAX_ENTRIES + 3) {
        text.push_str(&entry(&format!("e{i}")).to_value().to_text());
        text.push_str("\r\n");
        text.push_str("  \nbroken{\n");
    }
    let (store, fewer) = TrafficStore::load(&text);
    assert!(fewer);
    assert_eq!(store.count(), MAX_ENTRIES);
    assert!(store.get("e2").is_none() && store.get("e3").is_some());
}

#[test]
fn bodies_are_cut_each_for_itself() {
    let mut store = TrafficStore::new();
    let mut e = entry("big");
    e.request_body = JsonValue::text(&"q".repeat(MAX_ENTRY_BYTES + 10));
    e.response_body = Some("r".repeat(MAX_ENTRY_BYTES));
    store.record(e);
    match store.get("big") {
        Some(kept) => {
            assert!(kept.truncated);
            assert_eq!(kept.response_body.map(|b| b.len()), Some(MAX_ENTRY_BYTES));
            assert_eq!(kept.request_body.as_str().map(|s| s.len()), Some(MAX_ENTRY_BYTES + 3));
        }
        None => panic!(),
    }
}

#[test]
fn an_exchange_is_taken_down() {
    let mut c = TrafficCapture::begin("r", 1);
    assert!(TrafficCapture::begin("r", 1).finish().is_none());
    c.reset_request("https://a", "p", &headers(&[("Cookie", "x")]), &value("1"), 2);
    c.attach_response(500, &vec![("h".to_string(), Some("v".to_string()))]);
    c.push(&b"first".to_vec());
    c.reset_request("https://b", "p", &headers(&[("Cookie", "x")]), &value("2"), 3);
    c.attach_response(200, &vec![("bin".to_string(), None), ("Set-Cookie".to_string(), Some("s".to_string()))]);
    c.push(&vec![0xe6, 0xa8]);
    c.push(&"ok".as_bytes().to_vec());
    let done = match c.finish() {
        Some(e) => e,
        None => panic!(),
    };
    assert_eq!(
        done.to_value().to_text(),
        "{\"id\":\"r\",\"ts\":3,\"url\":\"https://b\",\"provider\":\"p\",\"request_headers\":{\"cookie\":\"[redacted]\"},\"request_body\":2,\"status\":200,\"response_headers\":{\"bin\":\"[binary]\",\"set-cookie\":\"[redacted]\"},\"response_body\":\"\u{fffd}ok\",\"truncated\":false}"
    );
    assert!(c.finish().is_none());
    c.reset_request("https://c", "p", &headers(&[]), &value("3"), 4);
    assert!(c.finish().is_none());
}

#[test]
fn a_full_body_grows_no_more() {
    let mut c = TrafficCapture::begin("r", 1);
    c.reset_request("u", "p", &headers(&[]), &value("1"), 2);
    c.push(&vec![b'x'; MAX_ENTRY_BYTES]);
    c.push(&vec![]);
    c.push(&b"more".to_vec());
    match c.finish() {
        Some(e) => {
            assert_eq!(e.response_body.map(|b| b.len()), Some(MAX_ENTRY_BYTES));
            assert!(e.truncated);
        }
        None => panic!(),
    }
}
