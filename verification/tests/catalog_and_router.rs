use agent2api_core::account_store::state::StoredAccount;
use agent2api_core::json::{JsonValue, Object};
use agent2api_core::model_rules::ModelRules;
use agent2api_core::providers::catalog::{Catalog, CatalogEntry, ProviderSource};
use agent2api_core::providers::router::{has_any_carrier, route_for_forward, route_for_model};
use agent2api_core::shared_rules;

fn value(text: &str) -> JsonValue {
    match JsonValue::from_text(text) {
        Ok(v) => v,
        Err(e) => panic!("{e}: {text}"),
    }
}

fn entry(id: &str, name: &str) -> CatalogEntry {
    CatalogEntry {
        id: id.to_string(),
        name: name.to_string(),
        value: value(&format!(r#"{{"id":"{id}","name":"{name}"}}"#)),
        item: value(&format!(r#"{{"id":"{id}","is_default":true,"credits":"1x"}}"#)),
    }
}

fn source(id: &str, models: &[(&str, &str)]) -> ProviderSource {
    ProviderSource {
        id: id.to_string(),
        label: format!("<{id}>"),
        manifest: models.iter().map(|(a, b)| entry(a, b)).collect(),
        env_credentials: false,
        supports_default_model: id == "workbuddy",
        remote_refreshed: id == "workbuddy",
        last_refreshed_at: 77,
    }
}

fn catalog() -> Catalog {
    Catalog {
        sources: vec![
            source("workbuddy", &[("auto", "Auto"), ("glm", "GLM"), ("glm", "GLM")]),
            source("raccoon", &[("sn-x", "X"), ("GLM", "other")]),
            source("catpaw", &[]),
            source("raccoon", &[("twice", "Twice")]),
        ],
    }
}

fn account(provider: &str) -> StoredAccount {
    match StoredAccount::from_value(value(&format!(
        r#"{{"id":"{provider}-1","provider":"{provider}","accessToken":"t"}}"#
    ))) {
        Some(a) => a,
        None => panic!("no account"),
    }
}

fn names(list: &[&str]) -> Vec<String> {
    list.iter().map(|s| s.to_string()).collect()
}

fn no_rules() -> shared_rules::ModelRules {
    shared_rules::ModelRules::from_raw(&Object::new())
}

#[test]
fn providers_are_found_by_id_before_name() {
    let c = catalog();
    assert_eq!(c.providers_for_model(" Glm "), names(&["workbuddy", "raccoon"]));
    assert_eq!(c.providers_for_model("x"), names(&["raccoon"]));
    assert_eq!(c.providers_for_model("Auto"), names(&["workbuddy"]));
    assert_eq!(c.providers_for_model("other"), names(&["raccoon"]));
    assert_eq!(c.providers_for_model("twice"), names(&[]));
    assert_eq!(c.providers_for_model("  "), names(&[]));
    assert_eq!(route_for_model(&c, "glm"), names(&["workbuddy", "raccoon"]));
}

#[test]
fn only_signed_in_providers_are_advertised() {
    let mut c = catalog();
    let accounts = vec![account("raccoon")];
    assert_eq!(c.active_manifests(&accounts), vec![1]);
    assert!(!c.provider_available(&accounts, 0));
    c.sources[0].env_credentials = true;
    assert_eq!(c.active_manifests(&accounts), vec![0, 1]);
    assert_eq!(c.active_manifests(&vec![account("catpaw")]), vec![0]);
}

#[test]
fn the_list_for_clients() {
    let c = catalog();
    let accounts = vec![account("workbuddy"), account("raccoon")];
    let raw = match value(
        r#"{"modelRules":{"disabled":["auto"],"hidden":[],"mappings":[{"alias":"best","target":"glm"}]}}"#,
    ) {
        JsonValue::Obj(o) => o,
        _ => panic!(),
    };
    let rules = shared_rules::ModelRules::from_raw(&raw);
    assert_eq!(
        c.models_response(&accounts, &rules).to_text(),
        concat_lines(&[
            r#"{"object":"list","data":["#,
            r#"{"id":"glm","is_default":true,"credits":"1x"},"#,
            r#"{"id":"glm","is_default":true,"credits":"1x"},"#,
            r#"{"id":"sn-x","is_default":true,"credits":"1x"},"#,
            r#"{"id":"best","is_default":false,"credits":"1x"},"#,
            r#"{"id":"best","is_default":false,"credits":"1x"}"#,
            r#"],"meta":{"source":"aggregate","lastRefreshedAt":77}}"#,
        ])
    );
    let shown: Vec<String> = c.session_models(&accounts, &rules).iter().map(|v| v.to_text()).collect();
    assert_eq!(shown.len(), 3);
    assert_eq!(
        shown[2],
        r#"{"id":"sn-x","isDefault":true,"credits":"1x","provider":"raccoon","providerLabel":"<raccoon>"}"#
    );
}

fn concat_lines(lines: &[&str]) -> String {
    lines.join("")
}

#[test]
fn where_the_list_comes_from() {
    let c = catalog();
    assert_eq!(c.aggregate_source(&vec![]), ("none".to_string(), 0));
    assert_eq!(c.aggregate_source(&vec![0]), ("remote".to_string(), 77));
    assert_eq!(c.aggregate_source(&vec![1]), ("builtin".to_string(), 77));
    assert_eq!(c.aggregate_source(&vec![2]), ("builtin".to_string(), 0));
    assert_eq!(c.aggregate_source(&vec![1, 2]), ("aggregate".to_string(), 77));
    assert_eq!(c.aggregate_source(&vec![2, 1]), ("aggregate".to_string(), 0));
}

#[test]
fn managing_shows_all_lists() {
    let c = catalog();
    let accounts = vec![account("workbuddy"), account("raccoon")];
    let mut rules = no_rules();
    rules.set_state("auto", Some(false), Some(true));
    rules.add_mapping("best", "sn-x");
    assert_eq!(
        c.manage_view(&accounts, &rules).to_text(),
        concat_lines(&[
            r#"{"models":["#,
            r#"{"id":"glm","name":"GLM","isDefault":false,"credits":"","provider":"workbuddy","providerLabel":"<workbuddy>","enabled":true,"hidden":false,"aliases":[]},"#,
            r#"{"id":"glm","name":"GLM","isDefault":false,"credits":"","provider":"workbuddy","providerLabel":"<workbuddy>","enabled":true,"hidden":false,"aliases":[]},"#,
            r#"{"id":"auto","name":"Auto","isDefault":false,"credits":"","provider":"workbuddy","providerLabel":"<workbuddy>","enabled":false,"hidden":true,"aliases":[]},"#,
            r#"{"id":"sn-x","name":"X","isDefault":false,"credits":"","provider":"raccoon","providerLabel":"<raccoon>","enabled":true,"hidden":false,"aliases":["best"]},"#,
            r#"{"id":"GLM","name":"other","isDefault":false,"credits":"","provider":"raccoon","providerLabel":"<raccoon>","enabled":true,"hidden":false,"aliases":[]}"#,
            r#"],"mappings":[{"alias":"best","target":"sn-x"}]}"#,
        ])
    );
    assert_eq!(c.provider_label_of("nobody"), "nobody");
}

#[test]
fn default_models() {
    let c = catalog();
    let mut rules = no_rules();
    assert!(c.default_model_usable(&rules, "AUTO"));
    assert!(!c.default_model_usable(&rules, "sn-x"));
    assert!(!c.default_model_usable(&rules, ""));
    let all: Vec<String> = c.default_model_catalog(&rules).iter().map(|e| e.id.clone()).collect();
    assert_eq!(all, names(&["auto", "glm"]));
    rules.set_state("auto", Some(false), None);
    assert!(!c.default_model_usable(&rules, "auto"));
    assert_eq!(c.aggregated_model_ids(), names(&["auto", "glm", "sn-x"]));
}

#[test]
fn a_request_goes_to_native_providers_first() {
    let c = catalog();
    let mut rules = ModelRules::new();
    rules.add_mapping("glm", "sn-x", Some("raccoon"));
    rules.add_mapping("nick", "glm", None);
    rules.add_mapping("nick", "kimi", Some("catpaw"));
    rules.add_mapping("nick", "kimi", Some("unknown"));
    assert_eq!(route_for_forward(&c, &rules, "glm"), names(&["workbuddy", "raccoon"]));
    assert_eq!(route_for_forward(&c, &rules, "nick"), names(&["workbuddy", "raccoon", "catpaw"]));
}

#[test]
fn providers_that_are_switched_off_are_left_out() {
    let c = catalog();
    let mut rules = ModelRules::new();
    rules.set_state(Some("workbuddy"), "glm", Some(false), None, &vec![]);
    assert_eq!(route_for_forward(&c, &rules, "glm"), names(&["raccoon"]));
    rules.add_mapping("nick", "glm", Some("workbuddy"));
    assert!(has_any_carrier(&c, &rules, "nick"));
    assert_eq!(route_for_forward(&c, &rules, "nick"), names(&[]));
}

#[test]
fn unknown_models_go_to_the_default_provider() {
    let c = catalog();
    let rules = ModelRules::new();
    assert!(!has_any_carrier(&c, &rules, "nobody-has-it"));
    assert_eq!(route_for_forward(&c, &rules, "nobody-has-it"), names(&["workbuddy"]));
    let empty = Catalog { sources: vec![] };
    assert_eq!(route_for_forward(&empty, &rules, "x"), names(&[]));
}
