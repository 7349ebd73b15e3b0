use agent2api_core::js::{
    json_number, js_string, js_truthy, number_or, object_or_empty, pick_token, token_tail_of,
    value_or, value_or_nullish,
};
use agent2api_core::json::{read_number, JsonValue, Object};
use agent2api_core::number::{round_to_double, Number};
use agent2api_core::order::{best_of, order_of, SortKey};
use agent2api_core::text::{
    char_count, contains, decimal_i64, ends_with, eq_ignore_case, js_trim, last_chars, parse_i64,
    starts_with, trim, truncate_chars, write_numeral,
};

fn value(text: &str) -> JsonValue {
    match JsonValue::from_text(text) {
        Ok(v) => v,
        Err(e) => panic!("{e}: {text}"),
    }
}

fn number(text: &str) -> Number {
    match value(text) {
        JsonValue::Num(n) => n,
        _ => panic!("no number"),
    }
}

#[test]
fn texts_are_trimmed() {
    assert_eq!(trim(" \u{3000}a b\t\n"), "a b");
    assert_eq!(trim("\u{feff}a"), "\u{feff}a");
    assert_eq!(js_trim("\u{feff} a\u{a0}"), "a");
    assert_eq!(trim(" \u{200b} "), "\u{200b}");
    assert_eq!(js_trim(&js_trim("  x ")), js_trim("  x "));
    assert_eq!(trim("\u{1c}x"), "\u{1c}x".trim());
    assert_eq!(trim("\u{85}x\u{2028}"), "x");
}

#[test]
fn parts_of_texts() {
    assert_eq!(truncate_chars("模型名", 2), "模型");
    assert_eq!(last_chars("模型名", 2), "型名");
    assert_eq!(char_count("模型a"), 3);
    assert!(starts_with("abc", "ab") && !starts_with("ab", "abc"));
    assert!(ends_with("abc", "bc") && ends_with("abc", ""));
    assert!(contains("hello", "ell") && contains("x", "") && !contains("hello", "elo"));
    assert!(eq_ignore_case("GPT-4ß", "gpt-4ß") && !eq_ignore_case("É", "é"));
}

#[test]
fn numerals() {
    assert_eq!(decimal_i64(i64::MIN), i64::MIN.to_string());
    assert_eq!(decimal_i64(0), "0");
    assert_eq!(write_numeral(255, 16), "ff");
    assert_eq!(parse_i64("-9223372036854775808"), Some(i64::MIN));
    assert_eq!(parse_i64("9223372036854775808"), None);
    assert_eq!(parse_i64("+7"), Some(7));
    assert_eq!(parse_i64("7x"), None);
    assert_eq!(parse_i64(""), None);
    assert_eq!(parse_i64("-"), None);
}

#[test]
fn json_texts_are_read_back() {
    let text = r#"{"b":1,"a":[null,true,-2,1.5,"x\n\"",{}],"z":18446744073709551615}"#;
    assert_eq!(value(text).to_text(), text);
    assert!(value(text).same(&value(&value(text).to_text())));
    assert!(JsonValue::from_text("{").is_err());
    assert_eq!(value("1e3").to_text(), "1000.0");
    assert_eq!(value(r#"{"a":1,"a":2}"#).to_text(), r#"{"a":2}"#);
}

#[test]
fn objects_keep_their_order() {
    let mut o = Object::new();
    o.insert("b", JsonValue::integer(1));
    o.insert("a", JsonValue::integer(2));
    o.insert("b", JsonValue::integer(3));
    assert_eq!(JsonValue::Obj(o.dup()).to_text(), r#"{"b":3,"a":2}"#);
    o.remove("b");
    assert_eq!(o.len(), 1);
    assert_eq!(o.get("a").and_then(|v| v.as_i64()), Some(2));
    assert!(o.get("b").is_none());
}

#[test]
fn numbers_are_read_as_doubles() {
    assert_eq!(number("2.5").rounded(), 3);
    assert_eq!(number("-2.5").rounded(), -3);
    assert_eq!(number("-2.4").rounded(), -2);
    assert_eq!(number("2.9").truncated(), 2);
    assert_eq!(number("1e300").to_i64(), i64::MAX);
    assert_eq!(number("-1e300").to_i64(), i64::MIN);
    assert_eq!(number("18446744073709551615").to_i64(), i64::MAX);
    assert!(number("0.1").is_positive() && !number("0").is_positive() && !number("-1").is_positive());
    assert!(number("9.5").exceeds(9) && !number("9").exceeds(9) && number("-1.5").below(-1));
    assert_eq!(number("1.0").as_i64(), None);
    assert_eq!(number("-3").as_i64(), Some(-3));
    for n in [0u64, 1, (1 << 53) - 1, 1 << 53, (1 << 53) + 1, (1 << 53) + 3, u64::MAX, u64::MAX / 3] {
        assert_eq!(round_to_double(n), n as f64 as u128);
    }
}

#[test]
fn numbers_agree_with_floats() {
    for x in [0.0f64, 0.49999999999999994, 0.5, 1.5, 2.5, -0.5, 4503599627370497.5, 1e18, -1e19, 123456789.75, 5e-324] {
        let n = number(&format!("{x:?}"));
        assert_eq!(n.rounded(), x.round() as i64, "round {x}");
        assert_eq!(n.truncated(), x as i64, "truncate {x}");
        for limit in [0i64, 1, -1, 2, i64::MAX, i64::MIN] {
            assert_eq!(n.exceeds(limit), x > limit as f64, "{x} > {limit}");
            assert_eq!(n.below(limit), x < limit as f64, "{x} < {limit}");
        }
    }
}

#[test]
fn numbers_in_texts() {
    let read = |text: &str| read_number(Some(&value(text))).map(|n| n.truncated());
    assert_eq!(read(r#"" 12.7 ""#), Some(12));
    assert_eq!(read(r#""abc""#), None);
    assert_eq!(read(r#""inf""#), None);
    assert_eq!(read("3"), Some(3));
    assert_eq!(read("true"), None);
}

#[test]
fn values_as_scripts_see_them() {
    for (text, expected) in [("0", false), ("\"\"", false), ("null", false), ("false", false), ("0.0", false), ("[]", true), ("{}", true), ("\"0\"", true), ("-1", true)] {
        assert_eq!(js_truthy(&value(text)), expected, "{text}");
    }
    assert_eq!(js_string(&value("\"a\"")), "a");
    assert_eq!(js_string(&value("[1]")), "[1]");
    assert_eq!(value_or(Some(&value("0")), JsonValue::integer(9)).to_text(), "9");
    assert_eq!(value_or_nullish(Some(&value("0")), JsonValue::integer(9)).to_text(), "0");
    assert_eq!(value_or_nullish(Some(&value("null")), JsonValue::integer(9)).to_text(), "9");
    assert_eq!(number_or(Some(&value("\"5\"")), JsonValue::Null).to_text(), "5");
    assert_eq!(number_or(Some(&value("0")), JsonValue::Null).to_text(), "null");
    assert_eq!(json_number(&number("5.0")).to_text(), "5");
    assert_eq!(json_number(&number("5.5")).to_text(), "5.5");
    assert_eq!(object_or_empty(Some(&value("[]"))).len(), 0);
    assert_eq!(token_tail_of("abcdefgh"), "efgh");
}

#[test]
fn tokens_are_picked() {
    let a = object_or_empty(Some(&value(r#"{"x":"","y":"2"}"#)));
    let b = object_or_empty(Some(&value(r#"{"x":"1"}"#)));
    assert_eq!(pick_token(&a, &b, &vec!["x", "y"]), "2");
    assert_eq!(pick_token(&a, &b, &vec!["x"]), "1");
    assert_eq!(pick_token(&a, &b, &vec!["z"]), "");
}

#[test]
fn order_is_stable() {
    let key = |rank: u64, major: i64, minor: i64| SortKey { rank, major, minor };
    let keys = vec![key(0, 2, 0), key(0, 1, 5), key(0, 2, 0), key(0, 1, 4), key(1, -9, 0)];
    assert_eq!(order_of(&keys), vec![3, 1, 0, 2, 4]);
    assert_eq!(best_of(&vec![true, false, true, false, true], &keys), Some(0));
    assert_eq!(best_of(&vec![false; 5], &keys), None);
}
