use agent2api_core::account_store::priority::PriorityBand;
use agent2api_core::checkin::{
    checkin_result, resolve_checkin_targets, supports_checkin, CheckinRun, ClaimOutcome,
};
use agent2api_core::json::JsonValue;
use agent2api_core::routing::{
    account_id, account_name, account_usability, accounts_of, describe_route_decision,
    is_rate_limited, pick_account_by_priority, rate_limit_reset_at,
};

fn value(text: &str) -> JsonValue {
    match JsonValue::from_text(text) {
        Ok(v) => v,
        Err(e) => panic!("{e}: {text}"),
    }
}

fn values(text: &str) -> Vec<JsonValue> {
    match value(text) {
        JsonValue::Arr(items) => items,
        _ => panic!("no list"),
    }
}

fn band() -> PriorityBand {
    PriorityBand { lowest: 0, highest: 9999 }
}

#[test]
fn limits_end() {
    let a = value(r#"{"rateLimits":{"m":{"resetAt":1000},"n":{"resetAt":"1500.9"},"o":{"resetAt":"x"},"p":{}}}"#);
    assert_eq!(rate_limit_reset_at(&a, "m", 999), 1000);
    assert_eq!(rate_limit_reset_at(&a, "m", 1000), 0);
    assert_eq!(rate_limit_reset_at(&a, "n", 1500), 1500);
    assert_eq!(rate_limit_reset_at(&a, "o", 0), 0);
    assert_eq!(rate_limit_reset_at(&a, "p", 0), 0);
    assert_eq!(rate_limit_reset_at(&a, "other", 0), 0);
    assert!(is_rate_limited(&a, "m", 0));
    assert!(!is_rate_limited(&value("{}"), "m", 0));
}

#[test]
fn accounts_can_be_used_unless_plainly_off() {
    let usable = |text: &str| {
        let u = account_usability(&value(text), "m", 10);
        (u.usable, u.reason)
    };
    assert_eq!(usable("{}"), (true, None));
    assert_eq!(usable(r#"{"enabled":"false"}"#), (true, None));
    assert_eq!(usable(r#"{"enabled":false,"rateLimits":{"m":{"resetAt":11}}}"#), (false, Some("disabled")));
    assert_eq!(usable(r#"{"rateLimits":{"m":{"resetAt":11}}}"#), (false, Some("rate-limited")));
}

#[test]
fn names_and_ids_of_accounts() {
    assert_eq!(account_id(&value(r#"{"id":"a"}"#)), Some("a"));
    assert_eq!(account_id(&value(r#"{"id":""}"#)), None);
    assert_eq!(account_id(&value(r#"{"id":7}"#)), None);
    assert_eq!(account_name(&value(r#"{"name":"N"}"#), "a"), "N");
    assert_eq!(account_name(&value(r#"{"name":""}"#), "a"), "a");
    assert_eq!(account_name(&value(r#"{"name":5}"#), "a"), "5");
    assert_eq!(accounts_of(&value(r#"{"accounts":[{}, 1]}"#)).len(), 2);
    assert_eq!(accounts_of(&value(r#"{"accounts":{}}"#)).len(), 0);
}

const QUEUE: &str = r#"[
    {"id":"late","priority":2,"addedAt":5},
    {"id":"off","priority":1,"enabled":false},
    {"priority":0},
    {"id":"early","priority":"2","addedAt":"3"},
    {"id":"plain"},
    {"id":"limited","priority":0,"rateLimits":{"m":{"resetAt":100}}}
]"#;

fn picked(model: &str, tried: &[&str], now: i64) -> Option<String> {
    let tried: Vec<String> = tried.iter().map(|s| s.to_string()).collect();
    pick_account_by_priority(&values(QUEUE), model, &tried, now, band())
        .and_then(|a| account_id(&a).map(|s| s.to_string()))
}

#[test]
fn the_first_in_the_queue_is_picked() {
    assert_eq!(picked("m", &[], 50).as_deref(), Some("early"));
    assert_eq!(picked("m", &[], 100).as_deref(), Some("limited"));
    assert_eq!(picked("other", &[], 50).as_deref(), Some("limited"));
    assert_eq!(picked("m", &["early"], 50).as_deref(), Some("late"));
    assert_eq!(picked("m", &["early", "late"], 50).as_deref(), Some("plain"));
    assert_eq!(picked("m", &["early", "late", "plain"], 50), None);
}

#[test]
fn a_decision_is_told() {
    let told = describe_route_decision(&values(QUEUE), "m", &vec!["late".to_string()], 50, band());
    assert_eq!(
        told.to_text(),
        [
            r#"{"picked":{"id":"early","priority":"2","addedAt":"3"},"priority":2,"candidateCount":2,"#,
            r#""blocked":[{"id":"late","name":"late","reason":"tried"},{"id":"off","name":"off","reason":"disabled"},"#,
            r#"{"id":"limited","name":"limited","reason":"rate-limited"}],"total":6}"#,
        ]
        .concat()
    );
    let none = describe_route_decision(&vec![], "m", &vec![], 0, band());
    assert_eq!(
        none.to_text(),
        r#"{"picked":null,"priority":null,"candidateCount":0,"blocked":[],"total":0}"#
    );
}

const LISTING: &str = r#"{"accounts":[
    {"id":"a","name":"A","enabled":true,"available":true},
    {"id":"b","enabled":false},
    {"id":"c","edition":"intl"},
    {"id":"d","available":false},
    {"id":"e","edition":"cn"}
]}"#;

fn target_ids(id: Option<&str>) -> Result<(Vec<String>, usize), (i32, String)> {
    match resolve_checkin_targets(&value(LISTING), id) {
        Ok((list, skipped)) => Ok((
            list.iter().filter_map(|a| account_id(a).map(|s| s.to_string())).collect(),
            skipped,
        )),
        Err(e) => Err((e.status_code, e.text())),
    }
}

#[test]
fn who_is_checked_in() {
    assert_eq!(target_ids(None), Ok((vec!["a".to_string(), "e".to_string()], 2)));
    assert_eq!(target_ids(Some("")), Ok((vec!["a".to_string(), "e".to_string()], 2)));
    assert_eq!(target_ids(Some("d")), Ok((vec!["d".to_string()], 0)));
    assert_eq!(target_ids(Some("b")), Ok((vec!["b".to_string()], 0)));
    assert_eq!(target_ids(Some("c")), Err((400, "国际版账号暂不支持签到".to_string())));
    assert_eq!(target_ids(Some("z")), Err((404, "账号不存在".to_string())));
    assert!(!supports_checkin(&value(r#"{"edition":"intl"}"#)));
}

#[test]
fn a_run_goes_through_all_accounts() {
    let mut run = match CheckinRun::start(&value(LISTING), None) {
        Ok(run) => run,
        Err(e) => panic!("{}", e.text()),
    };
    assert_eq!(run.target().and_then(account_id), Some("a"));
    run.record(&ClaimOutcome::Answered(value(r#"{"success":true}"#)));
    assert_eq!(run.target().and_then(account_id), Some("e"));
    run.record(&ClaimOutcome::Answered(value(r#"{"success":false,"msg":"again"}"#)));
    assert!(run.target().is_none());
    run.record(&ClaimOutcome::NoSession);
    assert_eq!(
        run.summary().to_text(),
        [
            r#"{"results":[{"id":"a","name":"A","claim":{"success":true},"error":null},"#,
            r#"{"id":"e","name":null,"claim":{"success":false,"msg":"again"},"error":null}],"#,
            r#""succeeded":1,"total":2,"skipped":2}"#,
        ]
        .concat()
    );
}

#[test]
fn what_came_of_a_claim() {
    let a = value(r#"{"id":"a"}"#);
    assert_eq!(
        checkin_result(&a, &ClaimOutcome::NoSession).to_text(),
        r#"{"id":"a","name":null,"claim":null,"error":"没有可用凭证"}"#
    );
    assert_eq!(
        checkin_result(&a, &ClaimOutcome::Failed("boom".to_string())).to_text(),
        r#"{"id":"a","name":null,"claim":null,"error":"boom"}"#
    );
}
