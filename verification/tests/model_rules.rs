use agent2api_core::json::{JsonValue, Object};
use agent2api_core::model_rules::{alias_valid, ModelRules};
use agent2api_core::model_seeds::{
    extra_alias_key, is_opaque_raccoon_id, seed_qoder_defaults, seed_raccoon_defaults,
    seed_workbuddy_defaults,
};
use agent2api_core::shared_rules;

fn object(text: &str) -> Object {
    match JsonValue::from_text(text) {
        Ok(JsonValue::Obj(o)) => o,
        _ => panic!("no object: {text}"),
    }
}

fn ids(names: &[&str]) -> Vec<String> {
    names.iter().map(|n| n.to_string()).collect()
}

#[test]
fn rules_are_read_leniently() {
    let raw = object(
        r#"{"modelRules":{"disabled":["  A ",{"provider":"p1","id":"b"},{"id":""},7],
            "hidden":[{"id":"c","provider":" "}],
            "mappings":[{"alias":"x","target":"a"},{"alias":"","target":"a"},{"alias":"x","target":"b","provider":"p1"}],
            "seeded":["p1:b"," "]}}"#,
    );
    let rules = ModelRules::from_raw(&raw);
    assert_eq!(
        rules.to_value().to_text(),
        r#"{"disabled":["A",{"provider":"p1","id":"b"}],"hidden":["c"],"mappings":[{"alias":"x","target":"a","provider":null},{"alias":"x","target":"b","provider":"p1"}],"seeded":["p1:b"]}"#
    );
    assert!(rules.is_disabled("anyone", "a"));
    assert!(rules.is_disabled("P1", "B"));
    assert!(!rules.is_disabled("p2", "b"));
    assert!(rules.is_hidden("p2", "C"));
    assert!(rules.is_blocked("p2", "c"));
    assert!(rules.is_seeded("p1", "B"));
    assert!(!rules.is_seeded("p2", "b"));
    assert_eq!(rules.mappings_of("X").len(), 2);
    assert!(rules.has_alias("X"));
    assert_eq!(rules.aliases_of("p2", "a"), vec!["x".to_string()]);
    assert_eq!(rules.aliases_of("p2", "b"), Vec::<String>::new());
    assert_eq!(rules.aliases_of("p1", "b"), vec!["x".to_string()]);
    assert_eq!(rules.aliases_of_any("b"), vec!["x".to_string()]);
}

#[test]
fn written_rules_are_read_back() {
    let mut rules = ModelRules::new();
    rules.set_state(Some("p1"), "m", Some(false), Some(true), &ids(&["p1", "p2"]));
    assert!(rules.add_mapping("short", "m", Some("p1")));
    let mut raw = Object::new();
    raw.insert("modelRules", rules.to_value());
    let again = ModelRules::from_raw(&raw);
    assert_eq!(again.to_value().to_text(), rules.to_value().to_text());
}

#[test]
fn a_model_is_switched_for_one_provider() {
    let mut rules = ModelRules::new();
    rules.set_state(None, "m", Some(false), None, &ids(&["p2", "p3"]));
    assert!(rules.is_disabled("p1", "m") && rules.is_disabled("p2", "m"));
    rules.set_state(Some("p1"), "M", Some(true), None, &ids(&["p2", "p3"]));
    assert!(!rules.is_disabled("p1", "m"));
    assert!(rules.is_disabled("p2", "m") && rules.is_disabled("p3", "m"));
    rules.set_state(Some("p1"), "m", Some(false), None, &ids(&["p2", "p3"]));
    assert!(rules.is_disabled("p1", "m"));
}

#[test]
fn a_mapping_is_added_once() {
    let mut rules = ModelRules::new();
    assert!(rules.add_mapping("a", "t", Some("p1")));
    assert!(!rules.add_mapping("A", "T", Some("P1")));
    assert!(rules.add_mapping("a", "t", Some("p2")));
    assert_eq!(rules.mappings_of("a").len(), 2);
    assert!(rules.remove_mapping("a", "t", Some("p1"), &ids(&["p2"])));
    assert!(!rules.remove_mapping("a", "t", Some("p1"), &ids(&["p2"])));
    assert_eq!(rules.mappings_of("a").len(), 1);
}

#[test]
fn names_for_models_are_checked() {
    assert!(alias_valid("gpt-4o_mini.1/x:y"));
    assert!(!alias_valid(""));
    assert!(!alias_valid("a b"));
    assert!(!alias_valid("模型"));
    assert!(alias_valid(&"a".repeat(128)));
    assert!(!alias_valid(&"a".repeat(129)));
}

#[test]
fn internal_names_are_recognised() {
    assert!(is_opaque_raccoon_id("raccoon-8c4485"));
    assert!(is_opaque_raccoon_id("raccoon-ABCDEF01"));
    assert!(!is_opaque_raccoon_id("raccoon-abcdef012"));
    assert!(!is_opaque_raccoon_id("raccoon-"));
    assert!(!is_opaque_raccoon_id("raccoon-chat-ml-5-5"));
    assert!(!is_opaque_raccoon_id("other-8c4485"));
}

#[test]
fn raccoon_models_get_their_rules() {
    let mut rules = ModelRules::new();
    let list = ids(&["raccoon-8c4485", "sn-glm-5-3", "sn-taken", "taken", " "]);
    let out = seed_raccoon_defaults(&mut rules, &list);
    assert!(out.changed);
    assert_eq!(
        out.summary.as_deref(),
        Some("🧩 小浣熊模型默认规则: 默认禁用内部模型 [raccoon-8c4485]；默认新增映射 [glm-5-3 → sn-glm-5-3]")
    );
    assert!(rules.is_disabled("raccoon", "raccoon-8c4485"));
    assert!(rules.has_alias("glm-5-3"));
    assert!(!rules.has_alias("taken"));
    assert!(rules.is_seeded("raccoon", "sn-taken"));
}

#[test]
fn default_rules_come_once() {
    let mut rules = ModelRules::new();
    let list = ids(&["raccoon-8c4485", "sn-glm-5-3"]);
    seed_raccoon_defaults(&mut rules, &list);
    rules.set_state(Some("raccoon"), "raccoon-8c4485", Some(true), None, &ids(&[]));
    rules.remove_mapping("glm-5-3", "sn-glm-5-3", Some("raccoon"), &ids(&[]));
    let before = rules.to_value().to_text();
    let out = seed_raccoon_defaults(&mut rules, &list);
    assert!(!out.changed);
    assert_eq!(out.summary, None);
    assert_eq!(rules.to_value().to_text(), before);
}

#[test]
fn a_further_name_is_given() {
    let mut rules = ModelRules::new();
    let out = seed_raccoon_defaults(&mut rules, &ids(&["sn-deepseek-v4-1-flash"]));
    assert_eq!(
        out.summary.as_deref(),
        Some("🧩 小浣熊模型默认规则: 默认新增映射 [deepseek-v4.1-flash → sn-deepseek-v4-1-flash, deepseek-v4-1-flash → sn-deepseek-v4-1-flash]")
    );
    assert_eq!(
        extra_alias_key("raccoon", "sn-deepseek-v4-1-flash", "deepseek-v4.1-flash"),
        "raccoon:sn-deepseek-v4-1-flash#alias:deepseek-v4.1-flash"
    );
    assert_eq!(rules.seeded.len(), 2);
}

#[test]
fn white_listed_models_stay_on() {
    let mut rules = ModelRules::new();
    let out = seed_workbuddy_defaults(&mut rules, &ids(&["HY3", "auto", "glm"]));
    assert!(out.changed);
    assert_eq!(
        out.summary.as_deref(),
        Some("🧩 WorkBuddy模型默认规则: 默认只启用 [hy3, hy4-preview-f, deepseek-v4.1-flash]；默认禁用 2 个 [auto, glm]")
    );
    assert!(!rules.is_disabled("workbuddy", "hy3"));
    assert!(rules.is_disabled("workbuddy", "auto"));
    assert!(!rules.is_disabled("raccoon", "auto"));
    let again = seed_workbuddy_defaults(&mut rules, &ids(&["hy4-preview-f"]));
    assert!(again.changed);
    assert_eq!(again.summary, None);
}

#[test]
fn qoder_models_get_their_rules() {
    let mut rules = ModelRules::new();
    let out = seed_qoder_defaults(&mut rules, &ids(&["qwen3.8-flash", "other"]));
    assert_eq!(
        out.summary.as_deref(),
        Some("🧩 Qoder模型默认规则: 默认只启用 [Qwen3.8-Flash]；默认禁用 1 个 [other]")
    );
    assert!(rules.is_disabled("qoder", "other"));
}

#[test]
fn shared_rules_hold_for_everybody() {
    let raw = object(
        r#"{"modelRules":{"disabled":[" a "],"hidden":["b"],"mappings":[{"alias":"x","target":"t"}],"seeded":[]}}"#,
    );
    let mut rules = shared_rules::ModelRules::from_raw(&raw);
    assert!(rules.is_disabled("A") && rules.is_hidden("B"));
    assert!(rules.is_blocked("a") && rules.is_blocked("b") && !rules.is_blocked("c"));
    assert_eq!(rules.resolve_alias("X"), Some("t"));
    assert_eq!(rules.resolve_alias("y"), None);
    rules.add_mapping("X", "u");
    assert_eq!(rules.resolve_alias("x"), Some("u"));
    assert_eq!(rules.mappings.len(), 1);
    assert_eq!(rules.aliases_of("U"), vec!["X".to_string()]);
    rules.set_state("a", Some(true), Some(true));
    assert!(!rules.is_disabled("a") && rules.is_hidden("a"));
    assert!(rules.remove_mapping("x"));
    assert!(!rules.remove_mapping("x"));
    assert_eq!(
        rules.to_value().to_text(),
        r#"{"disabled":[],"hidden":["b","a"],"mappings":[],"seeded":[]}"#
    );
}

#[test]
fn shared_default_rules_come_once() {
    let mut rules = shared_rules::ModelRules::from_raw(&Object::new());
    let out = rules.seed_raccoon_defaults(&ids(&["raccoon-19b265", "sn-x", "x"]));
    assert_eq!(
        out.summary.as_deref(),
        Some("🧩 小浣熊模型默认规则: 默认禁用内部模型 [raccoon-19b265]")
    );
    assert_eq!(rules.seeded.len(), 3);
    rules.set_state("raccoon-19b265", Some(true), None);
    let out = rules.seed_raccoon_defaults(&ids(&["raccoon-19b265", "sn-x", "x"]));
    assert!(!out.changed && out.summary.is_none());
    assert!(!rules.is_disabled("raccoon-19b265"));
    let out = rules.seed_workbuddy_defaults(&ids(&["hy3", "m"]));
    assert_eq!(
        out.summary.as_deref(),
        Some("🧩 WorkBuddy模型默认规则: 默认只启用 [hy3, hy4-preview-f, deepseek-v4.1-flash]；默认禁用 1 个 [m]")
    );
}
