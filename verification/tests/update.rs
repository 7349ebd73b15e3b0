use agent2api_core::json::JsonValue;
use agent2api_core::update::{
    assert_downloadable, check_address, compare_versions, parse_version, pick_installer,
    safe_file_name, ParsedUrl, UpdateError,
};

fn value(text: &str) -> JsonValue {
    match JsonValue::from_text(text) {
        Ok(v) => v,
        Err(e) => panic!("{e}: {text}"),
    }
}

#[test]
fn versions_are_read() {
    assert_eq!(parse_version("1.2.3"), Some([1, 2, 3]));
    assert_eq!(parse_version("  v10.20.30-beta.1 "), Some([10, 20, 30]));
    assert_eq!(parse_version("V0.0.0"), Some([0, 0, 0]));
    assert_eq!(parse_version("1.2"), None);
    assert_eq!(parse_version("1..3"), None);
    assert_eq!(parse_version("vv1.2.3"), None);
    assert_eq!(parse_version("18446744073709551615.0.1"), Some([u64::MAX, 0, 1]));
    assert_eq!(parse_version("18446744073709551616.0.1"), None);
    assert_eq!(parse_version("latest"), None);
}

#[test]
fn versions_are_compared_by_number() {
    assert_eq!(compare_versions("1.10.0", "v1.9.9"), Some(1));
    assert_eq!(compare_versions("1.9.9", "1.10.0"), Some(-1));
    assert_eq!(compare_versions("2.0.0", "2.0.0-rc1"), Some(0));
    assert_eq!(compare_versions("2.0.1", "2.0.0"), Some(1));
    assert_eq!(compare_versions("x", "2.0.0"), None);
}

fn refused(text: &str) -> (i32, String) {
    match assert_downloadable(text) {
        Ok(_) => panic!("accepted {text}"),
        Err(e) => (e.status_code, e.text()),
    }
}

#[test]
fn addresses_are_checked() {
    match assert_downloadable("HTTPS://GitHub.com:443/a/../b?x=1") {
        Ok(u) => {
            assert_eq!(u.scheme, "https");
            assert_eq!(u.host.as_deref(), Some("github.com"));
            assert_eq!(u.text, "https://github.com/b?x=1");
        }
        Err(e) => panic!("{}", e.text()),
    }
    assert!(assert_downloadable("https://release-assets.githubusercontent.com/x").is_ok());
    assert_eq!(refused("not a url"), (400, "下载地址不是合法 URL".to_string()));
    assert_eq!(refused("http://github.com/x"), (400, "下载地址必须是 https".to_string()));
    assert_eq!(
        refused("https://evil.example/x"),
        (400, "下载地址域名不在允许列表内: evil.example".to_string())
    );
    assert!(assert_downloadable("https://githubusercontent.com/x").is_err());
}

#[test]
fn parsed_addresses_are_decided_on() {
    let given = |scheme: &str, host: Option<&str>| {
        check_address(Some(ParsedUrl {
            scheme: scheme.to_string(),
            host: host.map(|h| h.to_string()),
            text: String::new(),
        }))
    };
    assert!(given("https", Some("WWW.GitHub.com")).is_ok());
    assert!(given("https", None).is_err());
    assert!(given("ftp", Some("github.com")).is_err());
    assert!(check_address(None).is_err());
}

#[test]
fn the_installer_is_found() {
    let assets = value(
        r#"[{"name":"notes.txt"},{"name":"App.EXE","size":1,"browser_download_url":"u1"},
            {"name":"App-Setup.exe","size":2,"browser_download_url":"u2"}]"#,
    );
    match pick_installer(Some(&assets)) {
        Some(v) => assert_eq!(v.to_text(), r#"{"name":"App-Setup.exe","size":2,"url":"u2"}"#),
        None => panic!(),
    }
    let assets = value(r#"[{"name":"install.sh"},{"name":"a.exe","size":"3"}]"#);
    match pick_installer(Some(&assets)) {
        Some(v) => assert_eq!(v.to_text(), r#"{"name":"a.exe","size":0,"url":""}"#),
        None => panic!(),
    }
    assert!(pick_installer(Some(&value(r#"[{"name":"a.zip"}]"#))).is_none());
    assert!(pick_installer(Some(&value("{}"))).is_none());
    assert!(pick_installer(None).is_none());
}

#[test]
fn file_names_are_made_safe() {
    assert_eq!(safe_file_name("..\\..\\evil.exe"), "evil.exe");
    assert_eq!(safe_file_name("a/b/setup:1?.exe"), "setup_1_.exe");
    assert_eq!(safe_file_name(" \u{feff}x.exe "), "x.exe");
    assert_eq!(safe_file_name("dir/"), "workbuddy-update.exe");
    assert_eq!(safe_file_name(""), "workbuddy-update.exe");
}

#[test]
fn update_errors_have_a_status() {
    let e = UpdateError::new("boom");
    assert_eq!((e.status_code, e.text()), (502, "boom".to_string()));
    let g = UpdateError::with_status(400, "bad").to_gateway_error();
    assert_eq!((g.status_code, g.message), (400, "bad".to_string()));
}
