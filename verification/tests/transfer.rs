use agent2api_core::account_store::priority::PriorityBand;
use agent2api_core::account_store::store::{load_text, AccountStore, EditionInfo, StoreRules};
use agent2api_core::account_transfer::{export_accounts, import_accounts};
use agent2api_core::json::JsonValue;

fn value(text: &str) -> JsonValue {
    match JsonValue::from_text(text) {
        Ok(v) => v,
        Err(e) => panic!("{e}: {text}"),
    }
}

fn store(accounts: &str) -> AccountStore {
    AccountStore {
        state: load_text(&format!(r#"{{"accounts":{accounts}}}"#)),
        rules: StoreRules {
            band: PriorityBand { lowest: 0, highest: 9999 },
            editions: vec![],
            fallback_edition: EditionInfo {
                id: "cn".to_string(),
                label: "CN".to_string(),
                endpoint: "https://cn".to_string(),
                prefix_path: "/p".to_string(),
                platform: "CLI".to_string(),
            },
            providers: vec![],
            silent: vec![],
        },
    }
}

fn import(s: &mut AccountStore, payload: &str, n: usize) -> Result<String, (i32, String)> {
    let proxies: Vec<JsonValue> = (0..n).map(|_| JsonValue::Null).collect();
    match import_accounts(s, &value(payload), &proxies, 500) {
        Ok(v) => Ok(v.to_text()),
        Err(e) => Err((e.status_code, e.text())),
    }
}

const ONE: &str = r#"[{"id":"a","uid":"u1","name":"A","accessToken":"tok","refreshToken":"ref","priority":4,"addedAt":1,"enabled":false}]"#;

#[test]
fn an_export_is_read_by_another_store() {
    let from = store(ONE);
    let document = export_accounts(&from, 99);
    assert_eq!(document.get("version").and_then(|v| v.as_i64()), Some(1));
    let mut to = store("[]");
    let told = import(&mut to, &document.to_text(), 1);
    assert!(matches!(&told, Ok(t) if t.contains(r#""added":1"#)), "{told:?}");
    assert_eq!(to.state.accounts.len(), 1);
    let a = &to.state.accounts[0];
    assert_eq!((a.uid(), a.access_token(), a.refresh_token()), ("u1".to_string(), "tok".to_string(), "ref".to_string()));
}

#[test]
fn a_known_user_is_updated_in_place() {
    let mut s = store(ONE);
    let told = import(&mut s, r#"{"accounts":[{"id":"other","uid":"u1","accessToken":"new","priority":1}]}"#, 1);
    assert!(matches!(&told, Ok(t) if t.contains(r#""updated":1"#)), "{told:?}");
    assert_eq!(s.state.accounts.len(), 1);
    let a = &s.state.accounts[0];
    assert_eq!((a.id(), a.access_token()), ("a".to_string(), "new".to_string()));
    assert_eq!(a.priority(PriorityBand { lowest: 0, highest: 9999 }), 4);
}

#[test]
fn new_users_join_the_end_of_the_queue() {
    let mut s = store(ONE);
    let told = import(
        &mut s,
        r#"{"accounts":[{"id":"a","uid":"u2","accessToken":"t","priority":0},{"id":"","uid":"x"},7,{"id":"z","uid":"u3"}]}"#,
        4,
    );
    match told {
        Ok(t) => {
            assert!(t.contains(r#""total":4,"added":1,"updated":0"#), "{t}");
            assert!(t.contains("缺少 id") && t.contains("账号记录必须是 JSON 对象") && t.contains("缺少 accessToken 与 refreshToken"), "{t}");
        }
        Err(e) => panic!("{e:?}"),
    }
    assert_eq!(s.state.accounts.len(), 2);
    assert_ne!(s.state.accounts[1].id(), "a");
    assert_eq!(s.state.accounts[1].priority(PriorityBand { lowest: 0, highest: 9999 }), 5);
}

#[test]
fn imports_that_are_refused() {
    let mut s = store(ONE);
    assert_eq!(import(&mut s, "[]", 0), Err((400, "导入内容必须是 JSON 对象".to_string())));
    assert_eq!(import(&mut s, "{}", 0), Err((400, "缺少 accounts 数组".to_string())));
    assert_eq!(import(&mut s, r#"{"accounts":[]}"#, 0), Err((400, "accounts 为空，没有可导入的账号".to_string())));
}
