use agent2api_core::account_store::priority::{
    find_priority_holder, next_free_priority, normalize_priority, renumber_consecutively,
    PriorityBand, QueueEntry,
};
use agent2api_core::account_store::state::StoredAccount;
use agent2api_core::account_store::store::{
    load_text, save_text, AccountStore, AccountStoreError, EditionInfo, LiveCredentials,
    ProviderInfo, ProxyResolution, ResolvedProxy, StoreRules,
};
use agent2api_core::account_store::store_crud::{MoveOutcome, ProxyPatch};
use agent2api_core::account_store::{MAX_ACCOUNTS, MAX_TOKEN_LENGTH};
use agent2api_core::json::JsonValue;
use agent2api_core::number::Number;

fn value(text: &str) -> JsonValue {
    match JsonValue::from_text(text) {
        Ok(v) => v,
        Err(e) => panic!("{e}: {text}"),
    }
}

fn edition(id: &str) -> EditionInfo {
    EditionInfo {
        id: id.to_string(),
        label: format!("<{id}>"),
        endpoint: format!("https://{id}.example"),
        prefix_path: "/p".to_string(),
        platform: "CLI".to_string(),
    }
}

fn band() -> PriorityBand {
    PriorityBand { lowest: 0, highest: 9999 }
}

fn rules() -> StoreRules {
    StoreRules {
        band: band(),
        editions: vec![edition("cn"), edition("intl")],
        fallback_edition: edition("cn"),
        providers: vec![
            ProviderInfo { id: "workbuddy".to_string(), label: "WorkBuddy".to_string() },
            ProviderInfo { id: "raccoon".to_string(), label: "小浣熊".to_string() },
        ],
        silent: vec!["quiet".to_string()],
    }
}

fn store(accounts: &str) -> AccountStore {
    AccountStore { state: load_text(&format!(r#"{{"accounts":{accounts}}}"#)), rules: rules() }
}

const THREE: &str = r#"[
    {"id":"a","uid":"ua","name":"A","accessToken":"ta","priority":3,"addedAt":1},
    {"id":"b","uid":"ub","name":"B","accessToken":"tb","priority":1,"addedAt":2},
    {"id":"c","uid":"uc","name":"C","accessToken":"tc","priority":2,"addedAt":3,"provider":"raccoon"}
]"#;

fn priorities(s: &AccountStore) -> Vec<(String, i64)> {
    s.state.accounts.iter().map(|a| (a.id(), a.priority(band()))).collect()
}

fn pairs(list: &[(&str, i64)]) -> Vec<(String, i64)> {
    list.iter().map(|(a, n)| (a.to_string(), *n)).collect()
}

fn message<T>(r: Result<T, AccountStoreError>) -> (i32, String) {
    match r {
        Ok(_) => panic!("accepted"),
        Err(e) => (e.status_code, e.text()),
    }
}

fn accepted<T>(r: Result<T, AccountStoreError>) -> T {
    match r {
        Ok(v) => v,
        Err(e) => panic!("{}", e.text()),
    }
}

#[test]
fn the_file_is_read_leniently() {
    assert_eq!(load_text("not json").accounts.len(), 0);
    assert_eq!(load_text("[]").accounts.len(), 0);
    let state = load_text(r#"{"accounts":[{"id":"a"},{"id":""},7,{"name":"x"}],"priorityScope":"global"}"#);
    assert_eq!(state.accounts.len(), 1);
    assert_eq!(state.priority_scope.as_deref(), Some("global"));
}

#[test]
fn a_written_file_is_read_back() {
    let state = load_text(&format!(r#"{{"accounts":{THREE},"priorityScope":"global"}}"#));
    let text = save_text(&state);
    assert!(text.starts_with("{\n  \"accounts\": [\n    {\n      \"id\": \"a\","));
    let again = load_text(&text);
    assert_eq!(save_text(&again), text);
    assert_eq!(again.accounts.len(), 3);
}

#[test]
fn priorities_are_brought_into_the_band() {
    let n = |text: &str| normalize_priority(Some(&value(text)), 100, band());
    assert_eq!(n("5"), 5);
    assert_eq!(n("-3"), 0);
    assert_eq!(n("1e9"), 9999);
    assert_eq!(n("\"7.6\""), 8);
    assert_eq!(n("\"abc\""), 100);
    assert_eq!(n("null"), 100);
    assert_eq!(normalize_priority(None, 100, band()), 100);
}

#[test]
fn numbers_in_the_queue() {
    let q = |id: &str, priority: i64| QueueEntry { id: id.to_string(), name: id.to_uppercase(), priority };
    assert_eq!(next_free_priority(&vec![4, 9, 2], band()), 10);
    let list = vec![q("a", 5), q("b", 7)];
    assert_eq!(find_priority_holder(&list, 7, None).as_deref(), Some("B"));
    assert_eq!(find_priority_holder(&list, 7, Some("b")), None);
    let changes = renumber_consecutively(&vec![q("a", 5), q("b", 5), q("c", 9)], band());
    assert!(!changes.is_empty());
}

#[test]
fn the_current_account_is_the_head() {
    let s = store(THREE);
    assert_eq!(s.current_account_id().as_deref(), Some("b"));
    let off = store(
        r#"[{"id":"x","accessToken":"t","priority":1,"enabled":false},{"id":"y","priority":2},
            {"id":"q","accessToken":"t","priority":2,"provider":"quiet"},{"id":"z","accessToken":"t","priority":3}]"#,
    );
    assert_eq!(off.current_account_id().as_deref(), Some("z"));
    assert_eq!(store("[]").current_account_id(), None);
    match s.current_entry_for_provider("raccoon", &None, &None) {
        Some(e) => assert_eq!(e.id, "c"),
        None => panic!(),
    }
}

#[test]
fn a_session_is_made_from_a_record() {
    let s = store(THREE);
    let proxy = Some(ProxyResolution::Resolved(ResolvedProxy {
        source: "account".to_string(),
        protocol: "http".to_string(),
        host: "h".to_string(),
        port: 8080,
        username: "".to_string(),
        password: "".to_string(),
        label: "http://h:8080".to_string(),
    }));
    let entry = match s.get_session_by_id("a", &proxy, &None) {
        Some(e) => e,
        None => panic!(),
    };
    assert_eq!(entry.proxy.get("port").and_then(|v| v.as_i64()), Some(8080));
    assert_eq!(entry.proxy_error, None);
    assert_eq!(
        entry.session.get("auth").and_then(|a| a.get("accessToken")).and_then(|v| v.as_str()),
        Some("ta")
    );
    assert_eq!(entry.session.get("endpoint").and_then(|v| v.as_str()), Some("https://cn.example"));
    assert!(s.get_session_by_id("nobody", &None, &None).is_none());
    match s.get_credentials_by_id("b", &Some(ProxyResolution::Failed("bad".to_string())), &None) {
        Some(c) => {
            assert_eq!((c.access_token.as_str(), c.priority, c.enabled), ("tb", 1, true));
            assert_eq!(c.proxy_error.as_deref(), Some("bad"));
        }
        None => panic!(),
    }
}

#[test]
fn live_credentials_stand_in() {
    let s = store(r#"[{"id":"d","type":"desktop","uid":"u","accessToken":"kept"}]"#);
    let live = Some(LiveCredentials {
        token: "live".to_string(),
        refresh_token: "again".to_string(),
        expires_at: Some(Number::from_i64(9)),
    });
    match s.get_current_entry(&None, &live) {
        Some(e) => assert_eq!(
            e.session.get("auth").and_then(|a| a.get("accessToken")).and_then(|v| v.as_str()),
            Some("live")
        ),
        None => panic!(),
    }
}

#[test]
fn accounts_are_shown() {
    let s = store(r#"[{"id":"a","uid":"u","name":"A","accessToken":"t","refreshToken":"r","tokenTail":"t","edition":"intl"}]"#);
    let shown = s.to_public_account(&s.state.accounts[0], JsonValue::Null);
    let shaped = vec![shown];
    let listing = s.list_accounts(&shaped);
    assert_eq!(listing.get("currentAccountId").and_then(|v| v.as_str()), Some("a"));
    let text = listing.to_text();
    assert!(text.contains(r#""edition":"intl","editionLabel":"<intl>""#));
    assert!(text.contains(r#""hasRefreshToken":true"#));
    assert!(text.contains(r#""hasCredentials":true,"chatSupported":true"#));
    assert!(!text.contains("accessToken"));
    assert_eq!(s.accounts_for_provider("workbuddy", &shaped).len(), 1);
    assert_eq!(s.accounts_for_provider("raccoon", &shaped).len(), 0);
}

const SESSION: &str = r#"{"auth":{"accessToken":"new-token","refreshToken":"r","expiresAt":99},
    "account":{"uid":"u1","nickname":"Nick"},"edition":"intl","futureField":1}"#;

#[test]
fn accounts_are_added_at_the_end() {
    let mut s = store(THREE);
    let added = accepted(s.add_account(&value(SESSION), None, Ok(JsonValue::Null), 1000));
    assert_eq!(added.priority(band()), 4);
    assert_eq!(added.uid(), "u1");
    assert_eq!(added.access_token(), "new-token");
    assert_eq!(added.added_at(), 1000);
    assert_eq!(s.state.accounts.len(), 4);
    let again = accepted(s.add_account(&value(SESSION), Some("Given"), Ok(JsonValue::Null), 2000));
    assert_eq!(s.state.accounts.len(), 4);
    assert_eq!(again.id(), added.id());
    assert_eq!(again.name(), "Given");
    assert_eq!(again.added_at(), 1000);
    assert_eq!(again.priority(band()), 4);
}

#[test]
fn accounts_that_are_not_added() {
    let mut s = store("[]");
    let mut refused = |text: &str| message(s.add_account(&value(text), None, Ok(JsonValue::Null), 1));
    assert_eq!(refused("[]"), (400, "账号内容必须是 JSON 对象".to_string()));
    assert_eq!(refused("{}"), (400, "缺少 accessToken".to_string()));
    let long = "x".repeat(MAX_TOKEN_LENGTH + 1);
    assert_eq!(
        refused(&format!(r#"{{"auth":{{"accessToken":"{long}"}}}}"#)),
        (400, "token 过长".to_string())
    );
    assert_eq!(
        refused(r#"{"auth":{"accessToken":"t"}}"#),
        (400, "缺少 uid（无法标识账号）".to_string())
    );
    assert_eq!(
        message(s.add_account(
            &value(r#"{"accessToken":"t","uid":"u","account":{"uid":"u"},"proxy":7}"#),
            None,
            Err(AccountStoreError::bad_request("代理不对")),
            1
        )),
        (400, "代理不对".to_string())
    );
    let full: Vec<String> = (0..MAX_ACCOUNTS)
        .map(|i| format!(r#"{{"id":"i{i}","uid":"u-{i}","accessToken":"t","priority":{i}}}"#))
        .collect();
    let mut s = store(&format!("[{}]", full.join(",")));
    assert_eq!(
        message(s.add_account(&value(SESSION), None, Ok(JsonValue::Null), 1)),
        (400, format!("最多保存 {MAX_ACCOUNTS} 个账号"))
    );
    assert_eq!(s.state.accounts.len(), MAX_ACCOUNTS);
}

#[test]
fn accounts_are_removed() {
    let mut s = store(THREE);
    accepted(s.remove_account("b"));
    assert_eq!(priorities(&s), pairs(&[("a", 3), ("c", 2)]));
    assert_eq!(message(s.remove_account("b")), (404, "账号不存在".to_string()));
    let out = accepted(s.batch_remove(&vec!["a".to_string(), "zz".to_string()]));
    assert_eq!(priorities(&s), pairs(&[("c", 2)]));
    let shaped = vec![s.to_public_account(&s.state.accounts[0], JsonValue::Null)];
    assert!(s.removal_reply(out, &shaped).to_text().contains(r#"{"id":"zz","error":"账号不存在"}"#));
    assert_eq!(message(s.batch_remove(&vec![])), (400, "缺少要删除的账号 id".to_string()));
}

#[test]
fn an_account_comes_to_the_front() {
    let mut s = store(THREE);
    let p = accepted(s.promote_to_front("a", 50));
    assert!(!p.changes.is_empty());
    assert_eq!(s.current_account_id().as_deref(), Some("a"));
    let order = priorities(&s);
    let of = |id: &str| order.iter().find(|e| e.0 == id).map(|e| e.1);
    assert!(of("a") < of("b") && of("b") < of("c"));
    let again = accepted(s.promote_to_front("a", 60));
    assert!(again.changes.is_empty());
    assert_eq!(message(s.promote_to_front("zz", 1)), (404, "账号不存在".to_string()));
}

#[test]
fn accounts_change_places() {
    let mut s = store(THREE);
    match accepted(s.move_account("c", "up", 9)) {
        MoveOutcome::Moved { id, new_priority, other_id, other_priority, .. } => {
            assert_eq!((id.as_str(), new_priority, other_id.as_str(), other_priority), ("c", 1, "b", 2));
        }
        MoveOutcome::AtEnd { .. } => panic!(),
    }
    assert_eq!(priorities(&s), pairs(&[("a", 3), ("b", 2), ("c", 1)]));
    match accepted(s.move_account("c", "up", 9)) {
        MoveOutcome::AtEnd { down } => assert!(!down),
        MoveOutcome::Moved { .. } => panic!(),
    }
    accepted(s.move_account("c", "down", 10));
    assert_eq!(priorities(&s), pairs(&[("a", 3), ("b", 1), ("c", 2)]));
    assert_eq!(message(s.move_account("zz", "up", 1)), (404, "账号不存在".to_string()));
}

fn no_proxy() -> Result<ProxyPatch, AccountStoreError> {
    Ok(ProxyPatch { value: JsonValue::Null, label: None })
}

#[test]
fn an_account_is_patched() {
    let mut s = store(THREE);
    let (record, changes) = accepted(s.update_account(
        "a",
        &value(r#"{"name":" New ","priority":7,"enabled":false}"#),
        &no_proxy(),
        77,
    ));
    assert_eq!((record.name(), record.priority(band()), record.enabled()), ("New".to_string(), 7, false));
    assert_eq!(changes, vec!["备注名 → New".to_string(), "优先级 → 7".to_string(), "已禁用".to_string()]);
    assert_eq!(record.access_token(), "ta");
    assert_eq!(
        message(s.update_account("a", &value(r#"{"priority":1}"#), &no_proxy(), 1)),
        (409, "优先级 1 已被账号「B」占用，请换一个（优先级需全局唯一）".to_string())
    );
    assert_eq!(
        message(s.update_account("a", &value(r#"{"name":" "}"#), &no_proxy(), 1)),
        (400, "备注名不能为空".to_string())
    );
    assert_eq!(
        message(s.update_account("a", &value("[]"), &no_proxy(), 1)),
        (400, "请求内容必须是 JSON 对象".to_string())
    );
    assert_eq!(message(s.update_account("zz", &value("{}"), &no_proxy(), 1)), (404, "账号不存在".to_string()));
}

#[test]
fn several_accounts_are_patched() {
    let mut s = store(THREE);
    let ids = vec!["a".to_string(), "b".to_string(), "zz".to_string()];
    accepted(s.batch_update(&ids, &value(r#"{"enabled":false}"#), &no_proxy(), 5));
    assert!(!s.state.accounts[0].enabled() && !s.state.accounts[1].enabled() && s.state.accounts[2].enabled());
    assert_eq!(
        message(s.batch_update(&ids, &value(r#"{"name":"x"}"#), &no_proxy(), 5)),
        (400, "批量修改目前只支持启用状态与代理".to_string())
    );
    assert_eq!(
        message(s.batch_update(&vec![], &value(r#"{"enabled":true}"#), &no_proxy(), 5)),
        (400, "缺少要操作的账号 id".to_string())
    );
}

#[test]
fn tokens_are_renewed() {
    let mut s = store(THREE);
    let ok = s.update_account_tokens("a", Some("fresh-token"), None, Some(Number::from_i64(5)), None, 42);
    assert!(ok);
    assert_eq!(s.state.accounts[0].access_token(), "fresh-token");
    assert_eq!(s.state.accounts[0].get("tokenTail").and_then(|v| v.as_str()), Some("oken"));
    assert_eq!(s.state.accounts[0].get("updatedAt").and_then(|v| v.as_i64()), Some(42));
}

#[test]
fn limits_come_and_go() {
    let mut s = store(THREE);
    let limit = s.mark_rate_limited("a", "m", 429, Some(7), Some(Number::from_i64(5000)), "slow", 1000);
    assert!(limit.is_some());
    let text = s.state.accounts[0].get("rateLimits").map(|v| v.to_text()).unwrap_or_default();
    assert!(text.contains(r#""resetAt":5000"#), "{text}");
    s.mark_rate_limited("a", "n", 429, None, None, "", 1000);
    let text = s.state.accounts[0].get("rateLimits").map(|v| v.to_text()).unwrap_or_default();
    assert!(text.contains(r#""resetAt":601000"#), "{text}");
    assert!(s.clear_rate_limit("a", "m", 1001));
    assert!(!s.clear_rate_limit("a", "m", 1001));
    assert_eq!(s.clear_all_rate_limits("a", 1002), 1);
    assert!(s.mark_rate_limited("zz", "m", 429, None, None, "", 1).is_none());
}

#[test]
fn the_queue_is_put_in_order_once() {
    let mut s = store(
        r#"[{"id":"a","accessToken":"t","priority":1,"provider":"raccoon"},{"id":"b","accessToken":"t","priority":1},
            {"id":"c","accessToken":"t","priority":5}]"#,
    );
    let route = vec![("workbuddy".to_string(), 10u32), ("raccoon".to_string(), 20u32)];
    let m = s.migrate_startup(&route);
    assert!(m.changed());
    let order = priorities(&s);
    let of = |id: &str| order.iter().find(|e| e.0 == id).map(|e| e.1);
    assert!(of("b") < of("c") && of("c") < of("a"));
    assert_eq!(s.state.accounts.iter().find(|a| a.id() == "b").map(|a| a.provider()).as_deref(), Some("workbuddy"));
    let before = save_text(&s.state);
    let m = s.migrate_startup(&route);
    assert!(!m.changed());
    assert_eq!(save_text(&s.state), before);
}

#[test]
fn an_older_session_is_taken_over_once() {
    let mut s = store("[]");
    let legacy = value(r#"{"auth":{"accessToken":"old"},"account":{"uid":"u9","nickname":"N"}}"#);
    assert!(s.import_legacy_session(&legacy, 5).is_some());
    assert_eq!(s.state.accounts.len(), 1);
    assert!(s.import_legacy_session(&legacy, 6).is_none());
    assert!(store("[]").import_legacy_session(&value("{}"), 5).is_none());
}

#[test]
fn unknown_fields_of_a_record_stay() {
    let mut s = store(r#"[{"id":"a","uid":"u1","accessToken":"t","later":{"x":1}}]"#);
    let record: StoredAccount = accepted(s.update_account("a", &value(r#"{"enabled":false}"#), &no_proxy(), 3)).0;
    assert_eq!(record.get("later").map(|v| v.to_text()), Some(r#"{"x":1}"#.to_string()));
}
