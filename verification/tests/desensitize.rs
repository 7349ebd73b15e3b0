use agent2api_core::desensitize::engine::{
    compile_terms, desensitize_body, desensitize_text, normalize_roles, normalize_terms, utf16_len,
    Counter, MAX_TERMS,
};
use agent2api_core::desensitize::remote::{parse_remote, remote_url, sync, SyncState};
use agent2api_core::desensitize::service::{
    default_provider_scope, default_term_list, hit_log_line, import_legacy, normalize_providers,
    Desensitizer,
};
use agent2api_core::desensitize::state::parse_state;
use agent2api_core::json::JsonValue;

fn value(text: &str) -> JsonValue {
    match JsonValue::from_text(text) {
        Ok(v) => v,
        Err(e) => panic!("{e}: {text}"),
    }
}

fn list(items: &[&str]) -> Vec<String> {
    items.iter().map(|s| s.to_string()).collect()
}

fn split(text: &str, terms: &[&str]) -> (String, Vec<String>) {
    let matcher = compile_terms(&list(terms));
    let mut counter = Counter::new();
    let out = desensitize_text(text, matcher.as_ref(), &mut counter);
    (out, counter.matched_terms())
}

fn service() -> Desensitizer {
    Desensitizer::new(&list(&["workbuddy", "raccoon"]), &list(&["third one", "third two"]))
}

#[test]
fn terms_are_split_after_their_first_character() {
    assert_eq!(split("no XSS here, xss", &["XSS"]), ("no X\u{200b}SS here, x\u{200b}ss".to_string(), list(&["XSS", "xss"])));
    assert_eq!(split("XSSX aXSS XSS_", &["XSS"]).0, "XSSX aXSS X\u{200b}SS_");
    assert_eq!(split("用敏感词吧", &["敏感词"]).0, "用敏\u{200b}感词吧");
    assert_eq!(split("ab abc", &["ab", "abc"]).0, "a\u{200b}b a\u{200b}bc");
    assert_eq!(split("STRASSE ß", &["ß"]).1, list(&["ß"]));
    assert_eq!(split("😀x", &["😀"]).0, "😀\u{200b}x");
    assert_eq!(split("É und é", &["é"]).1, list(&["É", "é"]));
    assert_eq!(split("nothing", &[]).0, "nothing");
}

#[test]
fn splitting_loses_nothing_but_adds_marks() {
    let once = split("DoS and DDoS", &["DoS", "DDoS"]).0;
    assert_eq!(once, "D\u{200b}oS and D\u{200b}DoS");
    assert_eq!(once.replace('\u{200b}', ""), "DoS and DDoS");
    assert_eq!(split("D\u{200b}oS", &["DoS"]).0, "D\u{200b}oS");
}

#[test]
fn terms_are_cleaned() {
    assert_eq!(normalize_terms(&list(&[" a ", "", "A", "b", "\u{feff}b", "a"])), list(&["a", "b"]));
    let long = "x".repeat(201);
    let fits = "x".repeat(200);
    assert_eq!(normalize_terms(&list(&[&long, &fits])), list(&[&fits]));
    assert_eq!(utf16_len("a😀"), 3);
    let many: Vec<String> = (0..MAX_TERMS + 5).map(|i| format!("t{i}")).collect();
    assert_eq!(normalize_terms(&many).len(), MAX_TERMS);
}

#[test]
fn only_some_roles_are_looked_at() {
    let body = value(
        r#"{"model":"m","messages":[{"role":"system","content":"XSS"},{"role":"assistant","content":"XSS"},
            {"role":"user","content":[{"type":"text","text":"an XSS"},{"type":"image_url","image_url":"XSS"}]}]}"#,
    );
    let matcher = compile_terms(&list(&["XSS"]));
    let mut counter = Counter::new();
    match desensitize_body(&body, matcher.as_ref(), &list(&["system", "user"]), &mut counter) {
        Some(out) => assert_eq!(
            out.to_text(),
            "{\"model\":\"m\",\"messages\":[{\"role\":\"system\",\"content\":\"X\u{200b}SS\"},{\"role\":\"assistant\",\"content\":\"XSS\"},{\"role\":\"user\",\"content\":[{\"type\":\"text\",\"text\":\"an X\u{200b}SS\"},{\"type\":\"image_url\",\"image_url\":\"XSS\"}]}]}"
        ),
        None => panic!(),
    }
    assert_eq!(counter.term_counts(), vec![("XSS".to_string(), 2)]);
}

#[test]
fn roles_and_providers_are_normalised() {
    assert_eq!(normalize_roles(None), list(&["system", "user"]));
    assert_eq!(normalize_roles(Some(&value(r#"["tool","system","boss"]"#))), list(&["system", "tool"]));
    assert_eq!(default_provider_scope(), list(&["workbuddy"]));
    let registry = list(&["workbuddy", "raccoon"]);
    assert_eq!(normalize_providers(None, &registry), list(&["workbuddy"]));
    assert_eq!(normalize_providers(Some(&value(r#"["raccoon","x"]"#)), &registry), list(&["raccoon"]));
}

#[test]
fn a_body_is_processed_and_counted() {
    let mut s = service();
    s.set_terms(&list(&["DoS"]));
    let mut body = value(r#"{"messages":[{"role":"user","content":"DoS, dos, DoS"}]}"#);
    let out = s.process_body(&mut body);
    assert!(out.changed);
    assert_eq!(out.hits, 3);
    assert_eq!(out.term_counts, vec![("DoS".to_string(), 2), ("dos".to_string(), 1)]);
    assert_eq!(hit_log_line(&out), "已脱敏命中 3 处：DoS×2、dos×1");
    let mut clean = value(r#"{"messages":[]}"#);
    assert!(!s.process_body(&mut clean).changed);
    let stats = s.state("f").get("stats").map(|v| v.to_text()).unwrap_or_default();
    assert!(stats.contains(r#""requests":2"#), "{stats}");
    assert!(s.process_body_for_provider("raccoon", &list(&["workbuddy"]), &body).is_none());
    assert!(s.process_body_for_provider("workbuddy", &list(&["workbuddy"]), &body).is_some());
    s.set_enabled(false);
    let mut body = value(r#"{"messages":[{"role":"user","content":"DoS"}]}"#);
    assert!(!s.process_body(&mut body).changed);
}

#[test]
fn settings_are_kept_and_read_back() {
    let mut s = service();
    s.set_terms(&list(&["one", "two"]));
    s.set_enabled(false);
    s.set_roles(Some(&value(r#"["tool"]"#)));
    let text = s.saved_text();
    assert_eq!(
        text,
        r#"{"enabled":false,"terms":["one","two"],"roles":["tool"],"providers":["workbuddy"],"defaultsVersion":3}"#
    );
    let mut other = service();
    assert_eq!(other.load(&text), Ok(false));
    assert_eq!(other.saved_text(), text);
    assert!(other.load("{").is_err());
    assert!(parse_state("[1").is_err());
}

#[test]
fn default_terms_are_brought_up_to_date_once() {
    let third = list(&["third one", "third two"]);
    let all = default_term_list(&third);
    assert_eq!(all.last().map(|s| s.as_str()), Some("third two"));
    let mut s = service();
    assert_eq!(s.load(r#"{"terms":["mine"],"defaultsVersion":1}"#), Ok(true));
    assert_eq!(
        s.terms,
        list(&["mine", "Main branch (you will usually use this for PRs)", "third one", "third two"])
    );
    s.remove_terms(&list(&["third one"]));
    let text = s.saved_text();
    let mut again = service();
    assert_eq!(again.load(&text), Ok(false));
    assert_eq!(again.terms.len(), 3);
    again.reset_terms();
    assert_eq!(again.terms, normalize_terms(&all));
}

#[test]
fn terms_are_added_and_removed() {
    let mut s = service();
    s.set_terms(&list(&["a"]));
    s.add_terms(&list(&["B", "A", "c"]));
    assert_eq!(s.terms, list(&["a", "B", "c"]));
    s.remove_terms(&list(&["b"]));
    assert_eq!(s.terms, list(&["a", "c"]));
    assert_eq!(s.term_count(), 2);
}

#[test]
fn a_remote_list_is_merged() {
    match parse_remote(r#"{"version":9,"terms":["x"," x ",5,"new"]}"#) {
        Ok(r) => {
            assert_eq!((r.version, r.terms.clone()), (9, list(&["x", "new"])));
            let mut s = service();
            s.set_terms(&list(&["x"]));
            let told = sync(&mut s, Ok(r), false, 100);
            assert_eq!((told.last_sync_at, told.remote_version, told.added), (100, 9, 1));
            assert_eq!(told.message, "远端 v9 补入 1 个词条（1 → 2 个）");
            let again = parse_remote(r#"{"version":9,"terms":["later"]}"#);
            let told = sync(&mut s, again, false, 200);
            assert_eq!(told.message, "已是最新（远端 v9，本地 v9）");
            assert_eq!(s.terms.len(), 2);
        }
        Err(e) => panic!("{e}"),
    }
    assert_eq!(parse_remote("{}").err().as_deref(), Some("缺少 terms 数组"));
    assert_eq!(parse_remote("5").err().as_deref(), Some("顶层必须是对象或数组"));
    assert!(parse_remote("{").err().is_some_and(|e| e.starts_with("JSON 解析失败：")));
    let mut s = service();
    assert_eq!(sync(&mut s, Err("down".to_string()), true, 1).message, "拉取失败：down");
    assert_eq!(SyncState::never().last_sync_at, 0);
    assert!(remote_url(None).starts_with("https://"));
    assert_eq!(remote_url(Some(" https://x ")), "https://x");
}

#[test]
fn an_older_file_is_taken_over() {
    let registry = list(&["workbuddy", "raccoon"]);
    assert_eq!(
        import_legacy(r#"{"terms":[" a ","A","b"],"providers":["raccoon"],"defaultsVersion":"2"}"#, &registry),
        Ok((
            r#"{"enabled":true,"terms":["a","b"],"roles":["system","user"],"providers":["raccoon"],"defaultsVersion":2}"#.to_string(),
            2
        ))
    );
    assert!(import_legacy("nothing", &registry).is_err());
}
