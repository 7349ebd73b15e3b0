use agent2api_core::api_keys::{
    active_keys_from, add, entries_from, generate, key_from_digest, list, mask, remove,
    replace_api_keys, update, KeySeed,
};
use agent2api_core::json::{JsonValue, Object};

fn object(text: &str) -> Object {
    match JsonValue::from_text(text) {
        Ok(JsonValue::Obj(o)) => o,
        _ => panic!("no object: {text}"),
    }
}

fn seed(counter: u64) -> KeySeed {
    KeySeed { nanos: 1, process: 2, counter, address: 3 }
}

#[test]
fn keys_are_masked() {
    assert_eq!(mask("abcdef-hidden-wxyz"), "abcdef...wxyz");
    assert_eq!(mask("abc"), "abc...abc");
}

#[test]
fn keys_are_read() {
    let raw = object(
        r#"{"apiKey":"old-key","apiKeys":[{"id":"a","key":" k1 ","name":"n","enabled":false,"createdAt":5},
            {"id":"","key":"k2"},{"id":"c"},{"id":"d","key":"k4","createdAt":"x"}]}"#,
    );
    let keys = entries_from(&raw);
    assert_eq!(keys.len(), 2);
    assert_eq!(
        keys[0].public_json().to_text(),
        r#"{"id":"a","name":"n","key":"k1","masked":"k1...k1","enabled":false,"createdAt":5}"#
    );
    assert_eq!(
        keys[1].to_value().to_text(),
        r#"{"id":"d","name":"","key":"k4","enabled":true,"createdAt":0}"#
    );
}

#[test]
fn an_older_single_key_counts() {
    let raw = object(r#"{"apiKey":"  secret-key "}"#);
    let keys = list(&raw);
    assert_eq!(keys.len(), 1);
    assert_eq!((keys[0].id.as_str(), keys[0].name.as_str(), keys[0].key.as_str()), ("legacy", "默认 Key", "secret-key"));
    assert!(list(&object(r#"{"apiKey":" "}"#)).is_empty());
    assert!(list(&object(r#"{"apiKey":"x","apiKeys":[]}"#)).is_empty());
}

#[test]
fn keys_that_let_pass() {
    let raw = object(
        r#"{"apiKeys":[{"id":"a","key":"k1"},{"id":"b","key":"k2","enabled":false}]}"#,
    );
    assert_eq!(active_keys_from(&raw, None), vec!["k1".to_string()]);
    assert_eq!(active_keys_from(&raw, Some(" k1 ")), vec!["k1".to_string()]);
    assert_eq!(active_keys_from(&raw, Some("env")), vec!["k1".to_string(), "env".to_string()]);
    assert_eq!(active_keys_from(&Object::new(), Some("  ")), Vec::<String>::new());
}

/// The key with these bytes behind its prefix.
fn key_with(bytes: [u8; 16]) -> String {
    let digits: Vec<String> = bytes.iter().map(|b| format!("{b:02x}")).collect();
    format!("sk-a2a-{}", digits.concat())
}

#[test]
fn a_digest_gives_a_key() {
    let digest: Vec<u8> = (0..32).collect();
    let key = key_from_digest(&digest);
    assert!(key.starts_with("sk-a2a-") && key.ends_with("0d0e0f"));
    assert_eq!(key, key_with([0, 1, 2, 3, 4, 5, 6, 7, 8, 9, 10, 11, 12, 13, 14, 15]));
}

// The first half of the SHA-256 digest of sixteen, four, eight and eight bytes, each number with its
// lowest byte first.
#[test]
fn a_new_key_is_a_digest() {
    let seventh = key_with([
        0xf7, 0xd6, 0x61, 0xb1, 0xb1, 0xf1, 0xdb, 0xa0,
        0x0e, 0x22, 0x2c, 0x54, 0xd3, 0x3c, 0x5a, 0xcd,
    ]);
    let eighth = key_with([
        0x4c, 0xe6, 0x3a, 0xd6, 0x96, 0x17, 0x13, 0x02,
        0x8f, 0x90, 0x8d, 0xa3, 0x61, 0xe5, 0x22, 0xca,
    ]);
    assert_eq!(generate(&seed(7)), seventh);
    assert_eq!(generate(&seed(8)), eighth);
    let large = KeySeed {
        nanos: (1 << 127) + 5,
        process: 0xffff_fffe,
        counter: (1 << 63) + 1,
        address: 0x0102_0304_0506_0708,
    };
    let expected = key_with([
        0xfe, 0xf4, 0x25, 0xeb, 0xae, 0x7d, 0x52, 0x1b,
        0x6e, 0x5d, 0x41, 0xfe, 0x7f, 0xe1, 0xe5, 0x44,
    ]);
    assert_eq!(generate(&large), expected);
}

#[test]
fn keys_are_added() {
    let mut keys = Vec::new();
    let first = add(&mut keys, " me ", Some(" 12345678 "), &seed(1), 255).ok();
    assert_eq!(
        first.map(|e| e.to_value().to_text()),
        Some(r#"{"id":"kff0","name":"me","key":"12345678","enabled":true,"createdAt":255}"#.to_string())
    );
    assert_eq!(add(&mut keys, "x", Some("1234567"), &seed(1), 0).err(), Some("API Key 至少需要 8 个字符".to_string()));
    assert_eq!(add(&mut keys, "x", Some("12345678"), &seed(1), 0).err(), Some("这把 Key 已经存在".to_string()));
    let second = add(&mut keys, "x", Some("  "), &seed(1), 16).ok();
    assert_eq!(second.map(|e| (e.id, e.key)), Some(("k101".to_string(), generate(&seed(1)))));
    assert_eq!(add(&mut keys, "x", None, &seed(1), 16).err(), Some("这把 Key 已经存在".to_string()));
    assert_eq!(keys.len(), 2);
}

#[test]
fn keys_are_changed_and_removed() {
    let mut keys = entries_from(&object(r#"{"apiKeys":[{"id":"a","key":"k1"},{"id":"b","key":"k2"}]}"#));
    let changed = update(&mut keys, "b", Some(" new "), Some(false)).ok();
    assert_eq!(changed.map(|e| (e.name, e.enabled, e.key)), Some(("new".to_string(), false, "k2".to_string())));
    assert!(!keys[1].enabled && keys[0].enabled);
    assert_eq!(update(&mut keys, "z", None, None).err(), Some("Key 不存在".to_string()));
    assert!(remove(&mut keys, "a").is_ok());
    assert_eq!(remove(&mut keys, "a").err(), Some("Key 不存在".to_string()));
    assert_eq!(keys.len(), 1);
}

#[test]
fn written_keys_replace_the_older_one() {
    let mut raw = object(r#"{"apiKey":"secret-key","port":1}"#);
    let keys = list(&raw);
    replace_api_keys(&mut raw, &keys);
    assert_eq!(
        JsonValue::Obj(raw.dup()).to_text(),
        r#"{"port":1,"apiKeys":[{"id":"legacy","name":"默认 Key","key":"secret-key","enabled":true,"createdAt":0}]}"#
    );
    assert_eq!(list(&raw).len(), 1);
}
