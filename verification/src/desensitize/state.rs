//! What of the settings is kept between runs, and how it is read back.
use vstd::prelude::*;
use crate::desensitize::engine::{clean, normalize_terms};
use crate::js::{json_number, plain_number};
use crate::json::{
    double_of_text, field, json_of_text, list_view, number_view, or_null, parse_double, parse_json,
    push_value, readable, DEEPEST, seen, Json, JsonValue, Object,
};
use crate::number::{int_number, number_below, Number, NumberView};
use crate::protocol::responses::owned;
use crate::text::{trim, trimmed};
use crate::words::words;

verus! {

/// What was kept. A setting that was not kept, or not in a form that can be read, is not there.
pub struct PersistedState {
    pub enabled: Option<bool>,
    pub terms: Option<Vec<String>>,
    pub roles: Option<JsonValue>,
    pub providers: Option<JsonValue>,
    pub defaults_version: Number,
}

/// The plain value of a [`PersistedState`].
pub struct PersistedView {
    pub enabled: Option<bool>,
    pub terms: Option<Seq<Seq<char>>>,
    pub roles: Option<Json>,
    pub providers: Option<Json>,
    pub version: NumberView,
}

pub open spec fn terms_view(terms: Option<Vec<String>>) -> Option<Seq<Seq<char>>> {
    match terms {
        Some(t) => Some(words(t@)),
        None => None,
    }
}

impl View for PersistedState {
    type V = PersistedView;

    open spec fn view(&self) -> PersistedView {
        PersistedView {
            enabled: self.enabled,
            terms: terms_view(self.terms),
            roles: owned(self.roles),
            providers: owned(self.providers),
            version: self.defaults_version@,
        }
    }
}

/// The texts among some JSON values.
pub open spec fn texts_in(items: Seq<Json>) -> Seq<Seq<char>>
    decreases items.len(),
{
    if items.len() == 0 {
        Seq::empty()
    } else {
        let before = texts_in(items.drop_last());
        match items.last() {
            Json::Str(s) => before.push(s),
            _ => before,
        }
    }
}

/// [`texts_in`].
pub fn string_list(items: &Vec<JsonValue>) -> (out: Vec<String>)
    ensures
        words(out@) == texts_in(list_view(*items)),
{
    let ghost all = list_view(*items);
    let mut out: Vec<String> = Vec::new();
    assert(words(out@) =~= texts_in(all.take(0)));
    for i in 0..items.len()
        invariant
            all == list_view(*items),
            words(out@) == texts_in(all.take(i as int)),
    {
        assert(all.take(i + 1).drop_last() =~= all.take(i as int));
        assert(all.take(i + 1).last() == items@[i as int]@);
        if let JsonValue::Str(s) = &items[i] {
            let ghost before = out@;
            out.push(s.clone());
            assert(words(out@) =~= words(before).push(out@.last()@));
        }
    }
    assert(all.take(all.len() as int) =~= all);
    out
}

/// `Number(v)`: of a truth value zero or one, of a blank text zero. A text that denotes no finite
/// number is none.
pub open spec fn js_number_of(v: Json) -> Option<NumberView> {
    match v {
        Json::Num(n) => Some(n),
        Json::Bool(b) => Some(
            int_number(
                if b {
                    1
                } else {
                    0
                },
            ),
        ),
        Json::Str(s) => if trimmed(s).len() == 0 {
            Some(int_number(0))
        } else {
            match double_of_text(trimmed(s)) {
                Some(d) => Some(NumberView::Float(d.0, d.1)),
                None => None,
            }
        },
        _ => None,
    }
}

/// [`js_number_of`].
pub fn js_number(v: &JsonValue) -> (r: Option<Number>)
    ensures
        number_view(r) == js_number_of(v@),
{
    match v {
        JsonValue::Num(n) => Some(n.dup()),
        JsonValue::Bool(b) => Some(Number::from_i64(if *b { 1 } else { 0 })),
        JsonValue::Str(s) => {
            let text = trim(s.as_str());
            if text.as_str().is_empty() {
                Some(Number::from_i64(0))
            } else {
                match parse_double(text.as_str()) {
                    Some(d) => Some(Number::Float(d)),
                    None => None,
                }
            }
        },
        _ => None,
    }
}

/// The version of the default terms that was merged last: the first, unless a later one is kept.
pub open spec fn version_of(doc: Json) -> NumberView {
    match js_number_of(or_null(field(doc, "defaultsVersion"@))) {
        Some(n) => if number_below(n, 1) {
            int_number(1)
        } else {
            n
        },
        None => int_number(1),
    }
}

/// What a document says of the settings.
pub open spec fn persisted_in(doc: Json) -> PersistedView {
    PersistedView {
        enabled: match field(doc, "enabled"@) {
            Some(Json::Bool(b)) => Some(b),
            _ => None,
        },
        terms: match field(doc, "terms"@) {
            Some(Json::Arr(items)) => Some(clean(texts_in(items))),
            _ => None,
        },
        roles: field(doc, "roles"@),
        providers: field(doc, "providers"@),
        version: version_of(doc),
    }
}

fn dup_optional(v: Option<&JsonValue>) -> (r: Option<JsonValue>)
    ensures
        owned(r) == seen(v),
{
    match v {
        Some(x) => Some(x.dup()),
        None => None,
    }
}

/// What a text says of the settings, or why it is no document.
pub fn parse_state(text: &str) -> (r: Result<PersistedState, String>)
    ensures
        match json_of_text(text@) {
            Ok(doc) => r is Ok && r->Ok_0@ == persisted_in(doc),
            Err(e) => r is Err && r->Err_0@ == e,
        },
{
    let doc = match parse_json(text) {
        Ok(doc) => doc,
        Err(e) => {
            return Err(e);
        },
    };
    Ok(state_of_document(&doc))
}

/// [`persisted_in`].
pub fn state_of_document(doc: &JsonValue) -> (out: PersistedState)
    ensures
        out@ == persisted_in(doc@),
{
    let enabled = match doc.get("enabled") {
        Some(JsonValue::Bool(b)) => Some(*b),
        _ => None,
    };
    let terms = match doc.get("terms") {
        Some(JsonValue::Arr(items)) => Some(normalize_terms(&string_list(items))),
        _ => None,
    };
    let first = Number::from_i64(1);
    let kept = match doc.get("defaultsVersion") {
        Some(v) => js_number(v),
        None => js_number(&JsonValue::Null),
    };
    let defaults_version = match kept {
        Some(n) => if n.below(1) {
            first
        } else {
            n
        },
        None => first,
    };
    PersistedState {
        enabled,
        terms,
        roles: dup_optional(doc.get("roles")),
        providers: dup_optional(doc.get("providers")),
        defaults_version,
    }
}

/// Some texts as a JSON list.
pub open spec fn json_words(v: Seq<Seq<char>>) -> Json {
    Json::Arr(v.map_values(|s: Seq<char>| Json::Str(s)))
}

/// [`json_words`].
pub fn words_value(v: &Vec<String>) -> (out: JsonValue)
    ensures
        out@ == json_words(words(v@)),
{
    let mut items: Vec<JsonValue> = Vec::new();
    let ghost all = words(v@).map_values(|s: Seq<char>| Json::Str(s));
    assert(list_view(items) =~= all.take(0));
    for i in 0..v.len()
        invariant
            all == words(v@).map_values(|s: Seq<char>| Json::Str(s)),
            list_view(items) == all.take(i as int),
    {
        push_value(&mut items, JsonValue::text(v[i].as_str()));
        assert(list_view(items) =~= all.take(i + 1));
    }
    assert(all.take(all.len() as int) =~= all);
    JsonValue::Arr(items)
}

/// What is kept of the settings.
pub open spec fn kept_document(
    enabled: bool,
    terms: Seq<Seq<char>>,
    roles: Seq<Seq<char>>,
    providers: Seq<Seq<char>>,
    version: NumberView,
) -> Json {
    Json::Obj(
        seq![
            ("enabled"@, Json::Bool(enabled)),
            ("terms"@, json_words(terms)),
            ("roles"@, json_words(roles)),
            ("providers"@, json_words(providers)),
            ("defaultsVersion"@, plain_number(version)),
        ],
    )
}

/// What is kept can be read: it is nested twice at most, and names no key twice.
pub proof fn kept_document_is_readable(
    enabled: bool,
    terms: Seq<Seq<char>>,
    roles: Seq<Seq<char>>,
    providers: Seq<Seq<char>>,
    version: NumberView,
)
    requires
        readable(plain_number(version), 0),
    ensures
        readable(kept_document(enabled, terms, roles, providers, version), DEEPEST as nat),
{
    reveal_strlit("enabled");
    reveal_strlit("terms");
    reveal_strlit("roles");
    reveal_strlit("providers");
    reveal_strlit("defaultsVersion");
    assert("enabled"@.len() == 7 && "terms"@.len() == 5 && "roles"@.len() == 5 && "providers"@.len()
        == 9 && "defaultsVersion"@.len() == 15);
    assert("terms"@[0] == 't' && "roles"@[0] == 'r');
    lemma_words_are_readable(terms);
    lemma_words_are_readable(roles);
    lemma_words_are_readable(providers);
    match plain_number(version) {
        Json::Num(n) => {
            assert(readable(Json::Num(n), 126));
        },
        _ => {},
    }
    let o = kept_document(enabled, terms, roles, providers, version)->Obj_0;
    assert forall|i: int| 0 <= i < o.len() implies readable((#[trigger] o[i]).1, 126) by {}
    assert forall|i: int, j: int| 0 <= i < j < o.len() implies (#[trigger] o[i]).0 != (
    #[trigger] o[j]).0 by {}
}

proof fn lemma_words_are_readable(v: Seq<Seq<char>>)
    ensures
        readable(json_words(v), 126),
{
    let items = v.map_values(|s: Seq<char>| Json::Str(s));
    assert forall|i: int| 0 <= i < items.len() implies readable(#[trigger] items[i], 125) by {}
}

/// [`kept_document`].
pub fn state_value(
    enabled: bool,
    terms: &Vec<String>,
    roles: &Vec<String>,
    providers: &Vec<String>,
    version: &Number,
) -> (out: JsonValue)
    ensures
        out@ == kept_document(enabled, words(terms@), words(roles@), words(providers@), version@),
{
    let mut o = Object::new();
    o.push("enabled", JsonValue::Bool(enabled));
    o.push("terms", words_value(terms));
    o.push("roles", words_value(roles));
    o.push("providers", words_value(providers));
    o.push("defaultsVersion", json_number(version));
    assert(o@ =~= kept_document(
        enabled,
        words(terms@),
        words(roles@),
        words(providers@),
        version@,
    )->Obj_0);
    JsonValue::Obj(o)
}

proof fn lemma_texts_of_words(v: Seq<Seq<char>>)
    ensures
        texts_in(v.map_values(|s: Seq<char>| Json::Str(s))) == v,
    decreases v.len(),
{
    let items = v.map_values(|s: Seq<char>| Json::Str(s));
    if v.len() > 0 {
        lemma_texts_of_words(v.drop_last());
        assert(items.drop_last() =~= v.drop_last().map_values(|s: Seq<char>| Json::Str(s)));
        assert(texts_in(items) =~= v);
    } else {
        assert(texts_in(items) =~= v);
    }
}

/// What was kept is read back, where the terms are clean and the version is an integer.
pub proof fn kept_settings_read_back(
    enabled: bool,
    terms: Seq<Seq<char>>,
    roles: Seq<Seq<char>>,
    providers: Seq<Seq<char>>,
    version: u32,
)
    requires
        crate::desensitize::engine::is_clean(terms),
        version >= 1,
    ensures
        ({
            let doc = kept_document(enabled, terms, roles, providers, int_number(version as int));
            persisted_in(doc) == (PersistedView {
                enabled: Some(enabled),
                terms: Some(terms),
                roles: Some(json_words(roles)),
                providers: Some(json_words(providers)),
                version: int_number(version as int),
            })
        }),
{
    let n = int_number(version as int);
    let doc = kept_document(enabled, terms, roles, providers, n);
    let o = doc->Obj_0;
    reveal_strlit("enabled");
    reveal_strlit("terms");
    reveal_strlit("roles");
    reveal_strlit("providers");
    reveal_strlit("defaultsVersion");
    assert("enabled"@.len() == 7 && "terms"@.len() == 5 && "roles"@.len() == 5 && "providers"@.len()
        == 9 && "defaultsVersion"@.len() == 15);
    assert("terms"@[0] == 't' && "roles"@[0] == 'r');
    let o4 = o.drop_last();
    let o3 = o4.drop_last();
    let o2 = o3.drop_last();
    let o1 = o2.drop_last();
    assert(o4.last() == o[3]);
    assert(o3.last() == o[2]);
    assert(o2.last() == o[1]);
    assert(o1.last() == o[0]);
    assert(crate::json::find(o, "defaultsVersion"@) == Some(plain_number(n)));
    assert(crate::json::find(o4, "providers"@) == Some(json_words(providers)));
    assert(crate::json::find(o3, "roles"@) == Some(json_words(roles)));
    assert(crate::json::find(o2, "terms"@) == Some(json_words(terms)));
    assert(crate::json::find(o1, "enabled"@) == Some(Json::Bool(enabled)));
    assert(crate::json::find(o, "providers"@) == crate::json::find(o4, "providers"@));
    assert(crate::json::find(o4, "roles"@) == crate::json::find(o3, "roles"@));
    assert(crate::json::find(o4, "terms"@) == crate::json::find(o3, "terms"@));
    assert(crate::json::find(o3, "terms"@) == crate::json::find(o2, "terms"@));
    assert(crate::json::find(o4, "enabled"@) == crate::json::find(o3, "enabled"@));
    assert(crate::json::find(o3, "enabled"@) == crate::json::find(o2, "enabled"@));
    assert(crate::json::find(o2, "enabled"@) == crate::json::find(o1, "enabled"@));
    lemma_texts_of_words(terms);
    crate::desensitize::engine::clean_keeps_clean(terms);
    crate::number::small_integers_are_doubles(version as int);
    crate::number::small_integers_are_doubles(1);
}

} // verus!
