use agent2api_core::account_store::priority::PriorityBand;
use agent2api_core::account_store::store::{load_text, AccountStore, EditionInfo, StoreRules};
use agent2api_core::json::{JsonValue, Object};
use agent2api_core::login::{
    LoginAction, LoginContext, LoginError, LoginEvent, LoginFlow, LoginTaskState, LoginTasks,
    TASK_RETENTION_MS,
};
use agent2api_core::number::Number;
use agent2api_core::providers::autoclaw_credentials::{
    cache_key, check_file, credentials_from_record, desktop_auth_file, env_credentials,
    from_auth_file, from_gateway_config, gateway_config_file, local_credentials, local_source,
    local_source_unchanged, local_summary, read_json_file, record_tokens, snapshot_for,
    strip_bearer, upstream_base_url, userapi_base_url, AutoClawCredentials, CredentialOrigin,
    CredentialsCache, FileFacts, KeyOutcome, SnapshotSource, TokenClaims,
};
use agent2api_core::providers::catpaw_balance::{
    balance_reply, balance_request, balance_url, unanswered, BalanceError,
};

fn value(text: &str) -> JsonValue {
    match JsonValue::from_text(text) {
        Ok(v) => v,
        Err(e) => panic!("{e}: {text}"),
    }
}

fn object(text: &str) -> Object {
    match value(text) {
        JsonValue::Obj(o) => o,
        _ => panic!("no object"),
    }
}

fn flow() -> LoginFlow {
    LoginFlow::new(LoginContext {
        base_url: "https://b".to_string(),
        prefix: "/p".to_string(),
        platform: "CLI".to_string(),
        edition: "cn".to_string(),
    })
}

#[test]
fn a_sign_in_runs_to_its_end() {
    let mut f = flow();
    match f.next(LoginEvent::StateReply(Ok(value(r#"{"state":"s1","authUrl":"https://u"}"#))), 1) {
        LoginAction::Announce { url, known } => {
            assert_eq!((url.as_str(), known.as_deref()), ("https://u", Some("s1")));
        }
        _ => panic!(),
    }
    assert!(matches!(f.next(LoginEvent::Announced, 1), LoginAction::ReadClock));
    assert!(matches!(f.next(LoginEvent::Clock { timed_out: false, canceled: false }, 1), LoginAction::Sleep));
    match f.next(LoginEvent::Woke { canceled: false }, 1) {
        LoginAction::AskToken { state } => assert_eq!(state, "s1"),
        _ => panic!(),
    }
    assert!(matches!(f.next(LoginEvent::TokenReply(None), 1), LoginAction::ReadClock));
    f.next(LoginEvent::Clock { timed_out: false, canceled: false }, 1);
    f.next(LoginEvent::Woke { canceled: false }, 1);
    let token = value(r#"{"accessToken":"t"}"#);
    let enriched = value(r#"{"accessToken":"t","expiresAt":5}"#);
    assert!(matches!(f.next(LoginEvent::TokenReply(Some((token, enriched))), 1), LoginAction::AskAccount { .. }));
    assert!(matches!(f.next(LoginEvent::AccountReply(None), 1), LoginAction::AskAccounts));
    let accounts = vec![value(r#"{"uid":"u1"}"#), value(r#"{"uid":"u2","lastLogin":1}"#)];
    match f.next(LoginEvent::AccountsReply(Some(accounts)), 77) {
        LoginAction::Save { session } => assert_eq!(
            session.to_text(),
            r#"{"endpoint":"https://b","prefixPath":"/p","platform":"CLI","edition":"cn","auth":{"accessToken":"t","expiresAt":5},"account":{"uid":"u2","lastLogin":1},"accounts":[{"uid":"u1"},{"uid":"u2","lastLogin":1}],"lastRefreshTime":77}"#
        ),
        _ => panic!(),
    }
    assert!(matches!(f.next(LoginEvent::Saved(Ok(())), 78), LoginAction::Finish { .. }));
    assert!(matches!(f.next(LoginEvent::Announced, 79), LoginAction::Nothing));
}

fn failure(action: LoginAction) -> (Option<i32>, String) {
    match action {
        LoginAction::Fail(e) => (e.status, e.message),
        _ => panic!("no failure"),
    }
}

#[test]
fn a_sign_in_fails() {
    let error = LoginError { status: Some(502), message: "down".to_string() };
    assert_eq!(failure(flow().next(LoginEvent::StateReply(Err(error)), 1)), (Some(502), "down".to_string()));
    assert_eq!(
        failure(flow().next(LoginEvent::StateReply(Ok(value("{}"))), 1)),
        (None, "auth/state 未返回 state/authUrl，无法发起登录".to_string())
    );
    let mut f = flow();
    f.next(LoginEvent::StateReply(Ok(value(r#"{"authState":"s"}"#))), 1);
    assert_eq!(
        failure(f.next(LoginEvent::Clock { timed_out: true, canceled: false }, 1)),
        (None, "登录轮询超时（5 分钟）".to_string())
    );
    let mut f = flow();
    f.next(LoginEvent::StateReply(Ok(value(r#"{"state":"s"}"#))), 1);
    assert_eq!(
        failure(f.next(LoginEvent::Clock { timed_out: false, canceled: true }, 1)),
        (None, "登录已取消".to_string())
    );
    let mut f = flow();
    f.next(LoginEvent::StateReply(Ok(value(r#"{"authUrl":"u"}"#))), 1);
    f.next(LoginEvent::Announced, 1);
    f.next(LoginEvent::Clock { timed_out: false, canceled: false }, 1);
    f.next(LoginEvent::Woke { canceled: false }, 1);
    let token = value(r#"{"accessToken":"t"}"#);
    assert!(matches!(f.next(LoginEvent::TokenReply(Some((token.dup(), token))), 1), LoginAction::AskAccounts));
    assert_eq!(
        failure(f.next(LoginEvent::AccountsReply(Some(vec![])), 1)),
        (None, "登录成功但获取账号信息失败（缺少 uid），请重试".to_string())
    );
}

#[test]
fn tasks_are_kept_for_a_while() {
    let mut tasks = LoginTasks::new();
    let ticket = tasks.next_ticket();
    let other = tasks.next_ticket();
    assert_ne!(ticket, other);
    let mut task = LoginTaskState::new("cn");
    assert_eq!(task.to_wait_response().to_text(), r#"{"pending":true}"#);
    assert!(task.auth_url_ready(false).is_none());
    assert_eq!(task.auth_url_ready(true), Some(Err("上游登录服务未返回登录链接".to_string())));
    task.announce("https://u", Some("s"));
    assert_eq!(
        task.auth_url_ready(false),
        Some(Ok(("s".to_string(), "https://u".to_string(), "cn".to_string())))
    );
    assert!(tasks.register("s", ticket, task.dup(), 10));
    assert!(tasks.get("s", 10).is_some());
    task.succeed(&value(r#"{"account":{"uid":"u","nickname":"N"},"edition":"cn"}"#), 20);
    assert_eq!(
        task.to_wait_response().to_text(),
        r#"{"done":true,"session":{"accountUid":"u","nickname":"N","edition":"cn"}}"#
    );
    tasks.update(ticket, &task);
    assert!(tasks.get("s", 20 + TASK_RETENTION_MS - 1).is_some());
    assert!(tasks.get("s", 21 + TASK_RETENTION_MS).is_none());
}

#[test]
fn a_task_is_canceled() {
    let mut tasks = LoginTasks::new();
    let ticket = tasks.next_ticket();
    let mut task = LoginTaskState::new("cn");
    task.announce("https://u", Some("s"));
    tasks.register("s", ticket, task, 1);
    match tasks.cancel("s", 2) {
        Some((t, task)) => {
            assert_eq!(t, ticket);
            assert_eq!(task.to_wait_response().to_text(), r#"{"done":true,"error":"登录已取消"}"#);
        }
        None => panic!(),
    }
    assert!(tasks.get("s", 2).is_none());
    assert!(tasks.cancel("s", 3).is_none());
    let mut failed = LoginTaskState::new("cn");
    failed.fail("boom", 5);
    assert_eq!(failed.to_wait_response().to_text(), r#"{"done":true,"error":"boom"}"#);
}

fn said(claims: &str, expiry: i64) -> TokenClaims {
    TokenClaims { claims: Some(value(claims)), expiry_ms: Number::from_i64(expiry) }
}

fn nothing_said() -> TokenClaims {
    TokenClaims { claims: None, expiry_ms: Number::from_i64(0) }
}

fn ok(text: &str) -> Result<String, String> {
    Ok(text.to_string())
}

#[test]
fn paths_and_addresses_of_the_desktop() {
    assert_eq!(
        desktop_auth_file(Some("D:/x"), true, None, "H"),
        Some(vec!["D:/x".to_string(), "auth.json".to_string()])
    );
    assert_eq!(desktop_auth_file(None, false, None, "H"), None);
    assert_eq!(gateway_config_file("H").last().map(|s| s.as_str()), Some("openclaw.json"));
    assert!(userapi_base_url(None).starts_with("https://"));
    assert!(upstream_base_url(Some(" https://x/ ")).starts_with("https://x"));
}

#[test]
fn files_are_checked_before_they_are_read() {
    let facts = |found, error: Option<&str>, symlink, regular, size| FileFacts {
        found,
        access_error: error.map(|e| e.to_string()),
        symlink,
        regular,
        size,
    };
    assert_eq!(check_file("X", &facts(true, None, false, true, 5)), None);
    assert_eq!(check_file("X", &facts(false, None, false, true, 5)).as_deref(), Some("未找到X"));
    assert_eq!(check_file("X", &facts(true, Some("no"), false, true, 5)).as_deref(), Some("无法访问X: no"));
    assert_eq!(check_file("X", &facts(true, None, true, true, 5)).as_deref(), Some("X路径是符号链接，已拒绝读取"));
    assert_eq!(check_file("X", &facts(true, None, false, false, 5)).as_deref(), Some("X路径不是普通文件"));
    assert_eq!(check_file("X", &facts(true, None, false, true, 0)).as_deref(), Some("X文件大小异常"));
    assert_eq!(check_file("X", &facts(true, None, false, true, 262_145)).as_deref(), Some("X文件大小异常"));
    assert!(read_json_file("X", r#"{"a":1}"#).is_ok());
    assert_eq!(read_json_file("X", "{").err().as_deref(), Some("X无法解析（不是有效 JSON）"));
    assert!(read_json_file("X", "[]").is_err());
}

#[test]
fn credentials_come_from_the_desktop_file() {
    let file = object(r#"{"token":"enc:1","refreshToken":"enc:2","deviceId":" d "}"#);
    match from_auth_file(&file, None, &ok("Bearer tok-1234"), &ok("ref"), &said(r#"{"user_id":7,"exp":1}"#, 1000), "auth:f:5") {
        Ok(c) => {
            assert_eq!((c.token.as_str(), c.refresh_token.as_str(), c.device_id.as_str(), c.user_id.as_str()), ("tok-1234", "ref", "d", "7"));
            assert!(c.can_refresh() && c.is_expiring(0) && c.origin.is_local_file());
            assert_eq!(
                local_summary(&c).to_text(),
                r#"{"ok":true,"id":"desktop-auth","userId":"7","tokenTail":"1234","tokenExpiresAt":1000,"hasRefreshToken":true,"canRefresh":true,"deviceId":"d","source":"autoclaw-auth-file"}"#
            );
        }
        Err(e) => panic!("{e}"),
    }
    assert_eq!(
        from_auth_file(&object("{}"), None, &ok(""), &ok(""), &nothing_said(), "k").err().as_deref(),
        Some("AutoClaw auth.json 中没有 token")
    );
    assert_eq!(
        from_auth_file(&file, Some("no key"), &ok(""), &ok(""), &nothing_said(), "k").err().as_deref(),
        Some("AutoClaw token 是加密存储且解密失败: no key")
    );
    assert_eq!(
        from_auth_file(&file, None, &ok(" "), &ok(""), &nothing_said(), "k").err().as_deref(),
        Some("AutoClaw auth.json token 解密结果为空")
    );
}

#[test]
fn credentials_come_from_the_gateway_configuration() {
    let file = object(
        r#"{"models":{"providers":{"z":{"models":[{"headers":{"X-Authorization":" "}},{"headers":{"x-authorization":"Bearer t1"}}]},
            "a":{"models":[{"headers":{"X-Authorization":"t2"}}]}}}}"#,
    );
    match from_gateway_config(&file, &nothing_said(), "k") {
        Ok(c) => {
            assert_eq!(c.token, "t1");
            assert!(!c.can_refresh() && !c.is_expiring(0));
        }
        Err(e) => panic!("{e}"),
    }
    assert_eq!(
        from_gateway_config(&object("{}"), &nothing_said(), "k").err().as_deref(),
        Some("openclaw.json 中没有可用的 X-Authorization token")
    );
    match local_credentials(Err("A".to_string()), Err("B".to_string())) {
        Ok(_) => panic!(),
        Err(e) => assert_eq!((e.status, e.message.as_str()), (401, "AutoClaw 桌面端登录态不可用：A")),
    }
}

#[test]
fn credentials_come_from_elsewhere() {
    assert_eq!(strip_bearer(" bearer  x "), "x");
    match env_credentials(Some("Bearer e"), None, Some(" d "), &nothing_said()) {
        Some(c) => assert_eq!((c.id.as_str(), c.token.as_str(), c.device_id.as_str()), ("env", "e", "d")),
        None => panic!(),
    }
    assert!(env_credentials(Some("  "), None, None, &nothing_said()).is_none());
    assert!(env_credentials(None, None, None, &nothing_said()).is_none());
    let record = value(r#"{"id":"r1","accessToken":"enc:x","tokenExpiresAt":9}"#);
    assert!(record_tokens(&record).2);
    let refused = |key: KeyOutcome, token: &str| {
        credentials_from_record(&record, &key, &ok(token), &ok(""), &nothing_said()).err().map(|e| e.message)
    };
    assert_eq!(refused(KeyOutcome::OtherSystem, "t").as_deref(), Some("AutoClaw 加密凭证仅支持 Windows"));
    assert_eq!(refused(KeyOutcome::Failed("x".to_string()), "t").as_deref(), Some("AutoClaw 加密凭证解密失败：x"));
    assert_eq!(refused(KeyOutcome::Ready, "").as_deref(), Some("AutoClaw 账号 token 为空"));
    assert_eq!(refused(KeyOutcome::Ready, "t"), None);
    assert_eq!(
        credentials_from_record(&value("{}"), &KeyOutcome::Ready, &ok(""), &ok(""), &nothing_said()).err().map(|e| e.message).as_deref(),
        Some("AutoClaw 账号缺少 token，请重新添加")
    );
    assert!(matches!(snapshot_for(None), SnapshotSource::LocalThenEnvironment));
    assert!(matches!(snapshot_for(Some(&value(r#"{"desktop":true}"#))), SnapshotSource::Local));
    assert!(matches!(snapshot_for(Some(&record)), SnapshotSource::Record));
}

fn credentials(key: &str) -> AutoClawCredentials {
    AutoClawCredentials {
        id: "desktop-auth".to_string(),
        token: "t".to_string(),
        refresh_token: "r".to_string(),
        device_id: String::new(),
        user_id: String::new(),
        expires_at: None,
        origin: CredentialOrigin::DesktopAuthFile,
        cache_key: Some(key.to_string()),
    }
}

#[test]
fn credentials_are_cached_while_the_file_stays() {
    let key = cache_key("auth", "C:/a:b", 42);
    match local_source(&key) {
        Some((_, at)) => assert_eq!(at, 42),
        None => panic!("{key}"),
    }
    assert!(local_source("else").is_none());
    let c = credentials(&key);
    assert!(local_source_unchanged(&c, Some(42)));
    assert!(!local_source_unchanged(&c, Some(43)));
    let mut cache = CredentialsCache::new();
    assert!(cache.lookup_cached(&key).is_none());
    cache.store_cached(&key, &c);
    assert!(cache.lookup_cached(&key).is_some());
    assert!(cache.lookup_cached("other").is_none());
    let mut renewed = credentials(&key);
    renewed.token = "t2".to_string();
    assert!(!cache.store_cached_if_current(&key, &c, &renewed, Some(43)));
    assert!(cache.store_cached_if_current(&key, &c, &renewed, Some(42)));
    assert_eq!(cache.lookup_cached(&key).map(|c| c.token).as_deref(), Some("t2"));
}

fn store(accounts: &str) -> AccountStore {
    let edition = || EditionInfo {
        id: "cn".to_string(),
        label: String::new(),
        endpoint: String::new(),
        prefix_path: String::new(),
        platform: String::new(),
    };
    AccountStore {
        state: load_text(&format!(r#"{{"accounts":{accounts}}}"#)),
        rules: StoreRules {
            band: PriorityBand { lowest: 0, highest: 9999 },
            editions: vec![],
            fallback_edition: edition(),
            providers: vec![],
            silent: vec![],
        },
    }
}

#[test]
fn a_balance_is_asked_for() {
    let s = store(
        r#"[{"id":"c","provider":"catpaw","uid":"u","balanceToken":" tok "},{"id":"w","balanceToken":"x"},{"id":"n","provider":"catpaw"}]"#,
    );
    match balance_request(&s, "c") {
        Ok(headers) => {
            assert_eq!(headers[1].0, "Cookie");
            assert_eq!(headers[1].1, "token2=tok; mt_c_token=tok; isid=tok; oops=tok; u=u; userId=u");
            assert_eq!(headers.len(), 4);
        }
        Err(e) => panic!("{}", e.status()),
    }
    assert!(matches!(balance_request(&s, "w"), Err(BalanceError::NoAccount)));
    assert!(matches!(balance_request(&s, "zz"), Err(BalanceError::NoAccount)));
    assert!(matches!(balance_request(&s, "n"), Err(BalanceError::NotConfigured)));
    assert!(balance_url().starts_with("https://credit.catpaw.meituan.com/"));
    assert_eq!((BalanceError::NoAccount.status(), BalanceError::NotConfigured.status()), (404, 400));
}

#[test]
fn a_balance_is_read() {
    let reply = value(r#"{"code":0,"data":{"totalCredits":10,"availableCredits":"7.5","frozenCredits":null}}"#);
    match balance_reply(200, true, &reply) {
        Ok(v) => assert_eq!(
            v.to_text(),
            r#"{"available":7.5,"unit":"credits","wallets":[{"type":"total","displayName":"总额度","balance":10.0},{"type":"available","displayName":"可用","balance":7.5}],"subscription":null,"raw":{"balance":{"totalCredits":10,"availableCredits":"7.5","frozenCredits":null}}}"#
        ),
        Err(e) => panic!("{}", e.status()),
    }
    let failed = |status: i64, ok: bool, text: &str| match balance_reply(status, ok, &value(text)) {
        Err(BalanceError::Failed { status, message }) => (status, message),
        _ => panic!(),
    };
    assert_eq!(failed(200, true, r#"{"code":401}"#).0, 401);
    assert_eq!(failed(503, false, "{}"), (502, "余额查询返回 HTTP 503".to_string()));
    assert_eq!(failed(200, true, r#"{"code":7}"#), (502, "余额查询返回异常 code=7".to_string()));
    assert_eq!(failed(200, true, r#"{"code":0,"message":"later"}"#), (502, "later".to_string()));
    assert_eq!(failed(200, true, "{}"), (502, "余额查询返回异常".to_string()));
    assert_ne!(unanswered(true, "e").status(), 0);
}
