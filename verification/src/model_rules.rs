//! Which models are offered: switched off, hidden, or offered under other names, each per provider.
//!
//! A rule without a provider is one for all providers. Names are compared without regard to ASCII
//! case throughout.
use vstd::prelude::*;
use crate::desensitize::state::{json_words, words_value};
use crate::json::{
    dup_or_null, field, find, list_view, or_null, push_value, seen, text_in, text_or_empty,
    text_seen, text_view, Fields, Json, JsonValue, Object,
};
use crate::text::{chars_of, concat3, eq_ignore_case, same, same_ignoring_case, trim, trimmed};
use crate::words::{push_word, words};

verus! {

// ─── Rules ───────────────────────────────────────────────────

/// A model of one provider, or of all.
pub struct RuleEntry {
    pub provider: Option<String>,
    pub id: String,
}

/// The plain value of a [`RuleEntry`].
pub struct RuleView {
    pub provider: Option<Seq<char>>,
    pub id: Seq<char>,
}

impl View for RuleEntry {
    type V = RuleView;

    open spec fn view(&self) -> RuleView {
        RuleView { provider: text_view(self.provider), id: self.id@ }
    }
}

/// A model (`target`) that is offered under another name (`alias`).
pub struct Mapping {
    pub alias: String,
    pub target: String,
    pub provider: Option<String>,
}

/// The plain value of a [`Mapping`].
pub struct MappingView {
    pub alias: Seq<char>,
    pub target: Seq<char>,
    pub provider: Option<Seq<char>>,
}

impl View for Mapping {
    type V = MappingView;

    open spec fn view(&self) -> MappingView {
        MappingView {
            alias: self.alias@,
            target: self.target@,
            provider: text_view(self.provider),
        }
    }
}

/// All rules. `seeded` notes which models were given their default rules.
pub struct ModelRules {
    pub disabled: Vec<RuleEntry>,
    pub hidden: Vec<RuleEntry>,
    pub mappings: Vec<Mapping>,
    pub seeded: Vec<String>,
}

/// The plain value of [`ModelRules`].
pub struct ModelRulesView {
    pub disabled: Seq<RuleView>,
    pub hidden: Seq<RuleView>,
    pub mappings: Seq<MappingView>,
    pub seeded: Seq<Seq<char>>,
}

pub open spec fn rules_of(list: Seq<RuleEntry>) -> Seq<RuleView> {
    list.map_values(|e: RuleEntry| e@)
}

pub open spec fn mappings_view(list: Seq<Mapping>) -> Seq<MappingView> {
    list.map_values(|m: Mapping| m@)
}

impl View for ModelRules {
    type V = ModelRulesView;

    open spec fn view(&self) -> ModelRulesView {
        ModelRulesView {
            disabled: rules_of(self.disabled@),
            hidden: rules_of(self.hidden@),
            mappings: mappings_view(self.mappings@),
            seeded: words(self.seeded@),
        }
    }
}

/// The provider is the one meant, where one is meant.
pub open spec fn is_for(provider: Option<Seq<char>>, wanted: Seq<char>) -> bool {
    provider is None || same_ignoring_case(provider->0, wanted)
}

/// The two name the same provider, or neither names one.
pub open spec fn same_provider(a: Option<Seq<char>>, b: Option<Seq<char>>) -> bool {
    match (a, b) {
        (Some(x), Some(y)) => same_ignoring_case(x, y),
        (None, None) => true,
        _ => false,
    }
}

/// The rule is about a model of a provider.
pub open spec fn rule_matches(e: RuleView, provider: Seq<char>, id: Seq<char>) -> bool {
    same_ignoring_case(e.id, id) && is_for(e.provider, provider)
}

/// Some rule of a list is about a model of a provider.
pub open spec fn any_rule(list: Seq<RuleView>, provider: Seq<char>, id: Seq<char>) -> bool {
    exists|i: int| 0 <= i < list.len() && rule_matches(#[trigger] list[i], provider, id)
}

/// The model is neither offered nor forwarded to by the provider.
pub open spec fn blocked(r: ModelRulesView, provider: Seq<char>, id: Seq<char>) -> bool {
    any_rule(r.disabled, provider, id) || any_rule(r.hidden, provider, id)
}

fn provider_fits(provider: &Option<String>, wanted: &str) -> (r: bool)
    ensures
        r == is_for(text_view(*provider), wanted@),
{
    match provider {
        Some(p) => eq_ignore_case(p.as_str(), wanted),
        None => true,
    }
}

fn providers_same(a: &Option<String>, b: Option<&str>) -> (r: bool)
    ensures
        r == same_provider(text_view(*a), text_seen(b)),
{
    match (a, b) {
        (Some(x), Some(y)) => eq_ignore_case(x.as_str(), y),
        (None, None) => true,
        _ => false,
    }
}

fn owned_text(v: Option<&str>) -> (r: Option<String>)
    ensures
        text_view(r) == text_seen(v),
{
    match v {
        Some(s) => Some(s.to_owned()),
        None => None,
    }
}

fn dup_text(v: &Option<String>) -> (r: Option<String>)
    ensures
        text_view(r) == text_view(*v),
{
    match v {
        Some(s) => Some(s.clone()),
        None => None,
    }
}

impl RuleEntry {
    pub fn new(provider: Option<&str>, id: &str) -> (out: RuleEntry)
        ensures
            out@ == (RuleView { provider: text_seen(provider), id: id@ }),
    {
        RuleEntry { provider: owned_text(provider), id: id.to_owned() }
    }

    pub fn dup(&self) -> (out: RuleEntry)
        ensures
            out@ == self@,
    {
        RuleEntry { provider: dup_text(&self.provider), id: self.id.clone() }
    }

    /// [`rule_matches`].
    pub fn matches(&self, provider: &str, id: &str) -> (r: bool)
        ensures
            r == rule_matches(self@, provider@, id@),
    {
        eq_ignore_case(self.id.as_str(), id) && provider_fits(&self.provider, provider)
    }
}

impl Mapping {
    pub fn dup(&self) -> (out: Mapping)
        ensures
            out@ == self@,
    {
        Mapping {
            alias: self.alias.clone(),
            target: self.target.clone(),
            provider: dup_text(&self.provider),
        }
    }
}

fn push_rule(list: &mut Vec<RuleEntry>, e: RuleEntry)
    ensures
        rules_of(final(list)@) == rules_of(old(list)@).push(e@),
{
    let ghost before = list@;
    list.push(e);
    assert(rules_of(list@) =~= rules_of(before).push(e@));
}

fn push_mapping(list: &mut Vec<Mapping>, m: Mapping)
    ensures
        mappings_view(final(list)@) == mappings_view(old(list)@).push(m@),
{
    let ghost before = list@;
    list.push(m);
    assert(mappings_view(list@) =~= mappings_view(before).push(m@));
}

// ─── Reading and writing ─────────────────────────────────────

/// A trimmed text, where it is not empty.
pub open spec fn filled(v: Option<Json>) -> Option<Seq<char>> {
    let t = trimmed(text_or_empty(v));
    if t.len() > 0 {
        Some(t)
    } else {
        None
    }
}

/// The rule that a JSON value stands for: a bare id is one for all providers.
pub open spec fn rule_in(v: Json) -> Option<RuleView> {
    match v {
        Json::Str(_) => match filled(Some(v)) {
            Some(id) => Some(RuleView { provider: None, id }),
            None => None,
        },
        Json::Obj(o) => match filled(find(o, "id"@)) {
            Some(id) => Some(RuleView { provider: filled(find(o, "provider"@)), id }),
            None => None,
        },
        _ => None,
    }
}

pub open spec fn rules_in(items: Seq<Json>) -> Seq<RuleView>
    decreases items.len(),
{
    if items.len() == 0 {
        Seq::empty()
    } else {
        let before = rules_in(items.drop_last());
        match rule_in(items.last()) {
            Some(e) => before.push(e),
            None => before,
        }
    }
}

/// The mapping that a JSON value stands for.
pub open spec fn mapping_in(v: Json) -> Option<MappingView> {
    match (filled(field(v, "alias"@)), filled(field(v, "target"@))) {
        (Some(alias), Some(target)) => Some(
            MappingView { alias, target, provider: filled(field(v, "provider"@)) },
        ),
        _ => None,
    }
}

pub open spec fn mappings_in(items: Seq<Json>) -> Seq<MappingView>
    decreases items.len(),
{
    if items.len() == 0 {
        Seq::empty()
    } else {
        let before = mappings_in(items.drop_last());
        match mapping_in(items.last()) {
            Some(m) => before.push(m),
            None => before,
        }
    }
}

pub open spec fn names_in(items: Seq<Json>) -> Seq<Seq<char>>
    decreases items.len(),
{
    if items.len() == 0 {
        Seq::empty()
    } else {
        let before = names_in(items.drop_last());
        match filled(Some(items.last())) {
            Some(s) => before.push(s),
            None => before,
        }
    }
}

/// The items of a list; none where it is no list.
pub open spec fn items_of(v: Option<Json>) -> Seq<Json> {
    match v {
        Some(Json::Arr(items)) => items,
        _ => Seq::empty(),
    }
}

/// The rules in a configuration.
pub open spec fn rules_in_config(raw: Fields) -> ModelRulesView {
    let o = or_null(find(raw, "modelRules"@));
    ModelRulesView {
        disabled: rules_in(items_of(field(o, "disabled"@))),
        hidden: rules_in(items_of(field(o, "hidden"@))),
        mappings: mappings_in(items_of(field(o, "mappings"@))),
        seeded: names_in(items_of(field(o, "seeded"@))),
    }
}

pub open spec fn rule_json(e: RuleView) -> Json {
    match e.provider {
        Some(p) => Json::Obj(seq![("provider"@, Json::Str(p)), ("id"@, Json::Str(e.id))]),
        None => Json::Str(e.id),
    }
}

pub open spec fn mapping_json(m: MappingView) -> Json {
    Json::Obj(
        seq![
            ("alias"@, Json::Str(m.alias)),
            ("target"@, Json::Str(m.target)),
            (
                "provider"@,
                match m.provider {
                    Some(p) => Json::Str(p),
                    None => Json::Null,
                },
            ),
        ],
    )
}

/// The rules as they are written to the configuration.
pub open spec fn rules_json(r: ModelRulesView) -> Json {
    Json::Obj(
        seq![
            ("disabled"@, Json::Arr(r.disabled.map_values(|e: RuleView| rule_json(e)))),
            ("hidden"@, Json::Arr(r.hidden.map_values(|e: RuleView| rule_json(e)))),
            ("mappings"@, Json::Arr(r.mappings.map_values(|m: MappingView| mapping_json(m)))),
            ("seeded"@, json_words(r.seeded)),
        ],
    )
}

/// A name as it is written: trimmed and not empty.
pub open spec fn tidy(s: Seq<char>) -> bool {
    s.len() > 0 && trimmed(s) == s
}

pub open spec fn tidy_option(s: Option<Seq<char>>) -> bool {
    s is None || tidy(s->0)
}

/// All names of the rules are tidy, as those that were read are.
pub open spec fn tidy_rules(r: ModelRulesView) -> bool {
    &&& forall|i: int|
        0 <= i < r.disabled.len() ==> tidy((#[trigger] r.disabled[i]).id) && tidy_option(
            r.disabled[i].provider,
        )
    &&& forall|i: int|
        0 <= i < r.hidden.len() ==> tidy((#[trigger] r.hidden[i]).id) && tidy_option(
            r.hidden[i].provider,
        )
    &&& forall|i: int|
        0 <= i < r.mappings.len() ==> tidy((#[trigger] r.mappings[i]).alias) && tidy(
            r.mappings[i].target,
        ) && tidy_option(r.mappings[i].provider)
    &&& forall|i: int| 0 <= i < r.seeded.len() ==> tidy(#[trigger] r.seeded[i])
}

proof fn lemma_rule_reads_back(e: RuleView)
    requires
        tidy(e.id),
        tidy_option(e.provider),
    ensures
        rule_in(rule_json(e)) == Some(e),
{
    reveal_strlit("provider");
    reveal_strlit("id");
    assert("provider"@.len() != "id"@.len());
    if e.provider is Some {
        let o = rule_json(e)->Obj_0;
        assert(o.last() == ("id"@, Json::Str(e.id)));
        assert(o.drop_last().last() == ("provider"@, Json::Str(e.provider->0)));
        assert(find(o, "id"@) == Some(Json::Str(e.id)));
        assert(find(o, "provider"@) == find(o.drop_last(), "provider"@));
    }
}

proof fn lemma_rules_read_back(list: Seq<RuleView>)
    requires
        forall|i: int|
            0 <= i < list.len() ==> tidy((#[trigger] list[i]).id) && tidy_option(list[i].provider),
    ensures
        rules_in(list.map_values(|e: RuleView| rule_json(e))) == list,
    decreases list.len(),
{
    let items = list.map_values(|e: RuleView| rule_json(e));
    if list.len() > 0 {
        let short = list.drop_last();
        assert forall|i: int| 0 <= i < short.len() implies tidy((#[trigger] short[i]).id)
            && tidy_option(short[i].provider) by {
            assert(short[i] == list[i]);
        }
        lemma_rules_read_back(short);
        assert(items.drop_last() =~= short.map_values(|e: RuleView| rule_json(e)));
        assert(list[list.len() - 1] == list.last());
        lemma_rule_reads_back(list.last());
        assert(rules_in(items) =~= list);
    } else {
        assert(rules_in(items) =~= list);
    }
}

proof fn lemma_mapping_reads_back(m: MappingView)
    requires
        tidy(m.alias),
        tidy(m.target),
        tidy_option(m.provider),
    ensures
        mapping_in(mapping_json(m)) == Some(m),
{
    reveal_strlit("provider");
    reveal_strlit("alias");
    reveal_strlit("target");
    assert("provider"@.len() == 8 && "alias"@.len() == 5 && "target"@.len() == 6);
    let o = mapping_json(m)->Obj_0;
    assert(o.last().0 == "provider"@);
    assert(o.drop_last().last() == ("target"@, Json::Str(m.target)));
    assert(o.drop_last().drop_last().last() == ("alias"@, Json::Str(m.alias)));
    assert(find(o, "target"@) == find(o.drop_last(), "target"@));
    assert(find(o, "alias"@) == find(o.drop_last(), "alias"@));
    assert(find(o.drop_last(), "alias"@) == find(o.drop_last().drop_last(), "alias"@));
    lemma_trimmed_empty();
}

proof fn lemma_trimmed_empty()
    ensures
        trimmed(Seq::<char>::empty()).len() == 0,
{
}

proof fn lemma_mappings_read_back(list: Seq<MappingView>)
    requires
        forall|i: int|
            0 <= i < list.len() ==> tidy((#[trigger] list[i]).alias) && tidy(list[i].target)
                && tidy_option(list[i].provider),
    ensures
        mappings_in(list.map_values(|m: MappingView| mapping_json(m))) == list,
    decreases list.len(),
{
    let items = list.map_values(|m: MappingView| mapping_json(m));
    if list.len() > 0 {
        let short = list.drop_last();
        assert forall|i: int| 0 <= i < short.len() implies tidy((#[trigger] short[i]).alias)
            && tidy(short[i].target) && tidy_option(short[i].provider) by {
            assert(short[i] == list[i]);
        }
        lemma_mappings_read_back(short);
        assert(items.drop_last() =~= short.map_values(|m: MappingView| mapping_json(m)));
        assert(list[list.len() - 1] == list.last());
        lemma_mapping_reads_back(list.last());
        assert(mappings_in(items) =~= list);
    } else {
        assert(mappings_in(items) =~= list);
    }
}

proof fn lemma_names_read_back(list: Seq<Seq<char>>)
    requires
        forall|i: int| 0 <= i < list.len() ==> tidy(#[trigger] list[i]),
    ensures
        names_in(list.map_values(|s: Seq<char>| Json::Str(s))) == list,
    decreases list.len(),
{
    let items = list.map_values(|s: Seq<char>| Json::Str(s));
    if list.len() > 0 {
        let short = list.drop_last();
        assert forall|i: int| 0 <= i < short.len() implies tidy(#[trigger] short[i]) by {
            assert(short[i] == list[i]);
        }
        lemma_names_read_back(short);
        assert(items.drop_last() =~= short.map_values(|s: Seq<char>| Json::Str(s)));
        assert(list[list.len() - 1] == list.last());
        assert(names_in(items) =~= list);
    } else {
        assert(names_in(items) =~= list);
    }
}

/// Rules that were written to a configuration are read back from it.
pub proof fn rules_read_back(r: ModelRulesView, raw: Fields)
    requires
        tidy_rules(r),
        find(raw, "modelRules"@) == Some(rules_json(r)),
    ensures
        rules_in_config(raw) == r,
{
    let o = rules_json(r)->Obj_0;
    reveal_strlit("disabled");
    reveal_strlit("hidden");
    reveal_strlit("mappings");
    reveal_strlit("seeded");
    assert("disabled"@.len() == 8 && "hidden"@.len() == 6 && "mappings"@.len() == 8
        && "seeded"@.len() == 6);
    assert("disabled"@[0] == 'd' && "mappings"@[0] == 'm' && "hidden"@[0] == 'h' && "seeded"@[0]
        == 's');
    let o3 = o.drop_last();
    let o2 = o3.drop_last();
    let o1 = o2.drop_last();
    assert(o.last() == o[3] && o3.last() == o[2] && o2.last() == o[1] && o1.last() == o[0]);
    assert(find(o, "mappings"@) == find(o3, "mappings"@));
    assert(find(o, "hidden"@) == find(o3, "hidden"@));
    assert(find(o3, "hidden"@) == find(o2, "hidden"@));
    assert(find(o, "disabled"@) == find(o3, "disabled"@));
    assert(find(o3, "disabled"@) == find(o2, "disabled"@));
    assert(find(o2, "disabled"@) == find(o1, "disabled"@));
    lemma_rules_read_back(r.disabled);
    lemma_rules_read_back(r.hidden);
    lemma_mappings_read_back(r.mappings);
    lemma_names_read_back(r.seeded);
}

pub fn filled_in(v: Option<&JsonValue>) -> (r: Option<String>)
    ensures
        text_view(r) == filled(seen(v)),
{
    let t = trim(text_in(v).as_str());
    if t.as_str().is_empty() {
        None
    } else {
        Some(t)
    }
}

fn rule_of(v: &JsonValue) -> (r: Option<RuleEntry>)
    ensures
        match rule_in(v@) {
            Some(e) => r is Some && r->0@ == e,
            None => r is None,
        },
{
    match v {
        JsonValue::Str(_) => match filled_in(Some(v)) {
            Some(id) => Some(RuleEntry { provider: None, id }),
            None => None,
        },
        JsonValue::Obj(o) => match filled_in(o.get("id")) {
            Some(id) => Some(RuleEntry { provider: filled_in(o.get("provider")), id }),
            None => None,
        },
        _ => None,
    }
}

fn entries_from(v: Option<&JsonValue>) -> (out: Vec<RuleEntry>)
    ensures
        rules_of(out@) == rules_in(items_of(seen(v))),
{
    let mut out: Vec<RuleEntry> = Vec::new();
    assert(rules_of(out@) =~= Seq::empty());
    if let Some(JsonValue::Arr(items)) = v {
        let ghost all = list_view(*items);
        assert(all.take(0) =~= Seq::empty());
        for i in 0..items.len()
            invariant
                all == list_view(*items),
                rules_of(out@) == rules_in(all.take(i as int)),
        {
            assert(all.take(i + 1).drop_last() =~= all.take(i as int));
            assert(all.take(i + 1).last() == items@[i as int]@);
            if let Some(e) = rule_of(&items[i]) {
                push_rule(&mut out, e);
            }
        }
        assert(all.take(all.len() as int) =~= all);
    }
    out
}

fn mapping_of(v: &JsonValue) -> (r: Option<Mapping>)
    ensures
        match mapping_in(v@) {
            Some(m) => r is Some && r->0@ == m,
            None => r is None,
        },
{
    match (filled_in(v.get("alias")), filled_in(v.get("target"))) {
        (Some(alias), Some(target)) => Some(
            Mapping { alias, target, provider: filled_in(v.get("provider")) },
        ),
        _ => None,
    }
}

fn mappings_from(v: Option<&JsonValue>) -> (out: Vec<Mapping>)
    ensures
        mappings_view(out@) == mappings_in(items_of(seen(v))),
{
    let mut out: Vec<Mapping> = Vec::new();
    assert(mappings_view(out@) =~= Seq::empty());
    if let Some(JsonValue::Arr(items)) = v {
        let ghost all = list_view(*items);
        assert(all.take(0) =~= Seq::empty());
        for i in 0..items.len()
            invariant
                all == list_view(*items),
                mappings_view(out@) == mappings_in(all.take(i as int)),
        {
            assert(all.take(i + 1).drop_last() =~= all.take(i as int));
            assert(all.take(i + 1).last() == items@[i as int]@);
            if let Some(m) = mapping_of(&items[i]) {
                push_mapping(&mut out, m);
            }
        }
        assert(all.take(all.len() as int) =~= all);
    }
    out
}

pub fn names_from(v: Option<&JsonValue>) -> (out: Vec<String>)
    ensures
        words(out@) == names_in(items_of(seen(v))),
{
    let mut out: Vec<String> = Vec::new();
    assert(words(out@) =~= Seq::empty());
    if let Some(JsonValue::Arr(items)) = v {
        let ghost all = list_view(*items);
        assert(all.take(0) =~= Seq::empty());
        for i in 0..items.len()
            invariant
                all == list_view(*items),
                words(out@) == names_in(all.take(i as int)),
        {
            assert(all.take(i + 1).drop_last() =~= all.take(i as int));
            assert(all.take(i + 1).last() == items@[i as int]@);
            if let Some(s) = filled_in(Some(&items[i])) {
                push_word(&mut out, s);
            }
        }
        assert(all.take(all.len() as int) =~= all);
    }
    out
}

fn rule_value(e: &RuleEntry) -> (out: JsonValue)
    ensures
        out@ == rule_json(e@),
{
    match &e.provider {
        Some(p) => {
            let mut o = Object::new();
            o.push("provider", JsonValue::text(p.as_str()));
            o.push("id", JsonValue::text(e.id.as_str()));
            assert(o@ =~= rule_json(e@)->Obj_0);
            JsonValue::Obj(o)
        },
        None => JsonValue::text(e.id.as_str()),
    }
}

fn rule_values(list: &Vec<RuleEntry>) -> (out: JsonValue)
    ensures
        out@ == Json::Arr(rules_of(list@).map_values(|e: RuleView| rule_json(e))),
{
    let mut items: Vec<JsonValue> = Vec::new();
    let ghost all = rules_of(list@).map_values(|e: RuleView| rule_json(e));
    assert(list_view(items) =~= all.take(0));
    for i in 0..list.len()
        invariant
            all == rules_of(list@).map_values(|e: RuleView| rule_json(e)),
            list_view(items) == all.take(i as int),
    {
        push_value(&mut items, rule_value(&list[i]));
        assert(list_view(items) =~= all.take(i + 1));
    }
    assert(all.take(all.len() as int) =~= all);
    JsonValue::Arr(items)
}

fn mapping_value(m: &Mapping) -> (out: JsonValue)
    ensures
        out@ == mapping_json(m@),
{
    let mut o = Object::new();
    o.push("alias", JsonValue::text(m.alias.as_str()));
    o.push("target", JsonValue::text(m.target.as_str()));
    o.push(
        "provider",
        match &m.provider {
            Some(p) => JsonValue::text(p.as_str()),
            None => JsonValue::Null,
        },
    );
    assert(o@ =~= mapping_json(m@)->Obj_0);
    JsonValue::Obj(o)
}

fn mapping_values(list: &Vec<Mapping>) -> (out: JsonValue)
    ensures
        out@ == Json::Arr(mappings_view(list@).map_values(|m: MappingView| mapping_json(m))),
{
    let mut items: Vec<JsonValue> = Vec::new();
    let ghost all = mappings_view(list@).map_values(|m: MappingView| mapping_json(m));
    assert(list_view(items) =~= all.take(0));
    for i in 0..list.len()
        invariant
            all == mappings_view(list@).map_values(|m: MappingView| mapping_json(m)),
            list_view(items) == all.take(i as int),
    {
        push_value(&mut items, mapping_value(&list[i]));
        assert(list_view(items) =~= all.take(i + 1));
    }
    assert(all.take(all.len() as int) =~= all);
    JsonValue::Arr(items)
}

// ─── Asking ──────────────────────────────────────────────────

/// The mappings of a name, in the order of the configuration.
pub open spec fn mappings_for(list: Seq<MappingView>, model: Seq<char>) -> Seq<MappingView>
    decreases list.len(),
{
    if list.len() == 0 {
        Seq::empty()
    } else {
        let before = mappings_for(list.drop_last(), model);
        if same_ignoring_case(list.last().alias, model) {
            before.push(list.last())
        } else {
            before
        }
    }
}

/// Some mapping has the name.
pub open spec fn name_taken(list: Seq<MappingView>, alias: Seq<char>) -> bool {
    exists|i: int| 0 <= i < list.len() && same_ignoring_case((#[trigger] list[i]).alias, alias)
}

/// The mapping offers a provider's model.
pub open spec fn offers(m: MappingView, provider: Seq<char>, target: Seq<char>) -> bool {
    same_ignoring_case(m.target, target) && is_for(m.provider, provider)
}

/// The other names of a provider's model.
pub open spec fn other_names(list: Seq<MappingView>, provider: Seq<char>, target: Seq<char>) -> Seq<
    Seq<char>,
>
    decreases list.len(),
{
    if list.len() == 0 {
        Seq::empty()
    } else {
        let before = other_names(list.drop_last(), provider, target);
        if offers(list.last(), provider, target) {
            before.push(list.last().alias)
        } else {
            before
        }
    }
}

/// Some name of a list is the same but for case.
pub open spec fn has_name(names: Seq<Seq<char>>, name: Seq<char>) -> bool {
    exists|i: int| 0 <= i < names.len() && same_ignoring_case(#[trigger] names[i], name)
}

/// The other names of a model of whatever provider, each once.
pub open spec fn all_other_names(list: Seq<MappingView>, target: Seq<char>) -> Seq<Seq<char>>
    decreases list.len(),
{
    if list.len() == 0 {
        Seq::empty()
    } else {
        let before = all_other_names(list.drop_last(), target);
        let m = list.last();
        if same_ignoring_case(m.target, target) && !has_name(before, m.alias) {
            before.push(m.alias)
        } else {
            before
        }
    }
}

pub open spec fn seed_key(provider: Seq<char>, id: Seq<char>) -> Seq<char> {
    provider + ":"@ + id
}

/// The model was given its default rules. For two providers a bare id counts too.
pub open spec fn was_seeded(seeded: Seq<Seq<char>>, provider: Seq<char>, id: Seq<char>) -> bool {
    has_name(seeded, seed_key(provider, id)) || ((provider == "workbuddy"@ || provider
        == "raccoon"@) && has_name(seeded, id))
}

/// Decides [`has_name`].
pub fn lists_name(names: &Vec<String>, name: &str) -> (r: bool)
    ensures
        r == has_name(words(names@), name@),
{
    for i in 0..names.len()
        invariant
            forall|k: int|
                0 <= k < i ==> !same_ignoring_case(#[trigger] words(names@)[k], name@),
    {
        assert(words(names@)[i as int] == names@[i as int]@);
        if eq_ignore_case(names[i].as_str(), name) {
            return true;
        }
    }
    false
}

impl ModelRules {
    /// No rules at all.
    pub fn new() -> (out: ModelRules)
        ensures
            out@ == (ModelRulesView {
                disabled: Seq::empty(),
                hidden: Seq::empty(),
                mappings: Seq::empty(),
                seeded: Seq::empty(),
            }),
    {
        let out = ModelRules {
            disabled: Vec::new(),
            hidden: Vec::new(),
            mappings: Vec::new(),
            seeded: Vec::new(),
        };
        assert(rules_of(out.disabled@) =~= Seq::empty());
        assert(rules_of(out.hidden@) =~= Seq::empty());
        assert(mappings_view(out.mappings@) =~= Seq::empty());
        assert(words(out.seeded@) =~= Seq::empty());
        out
    }

    /// [`rules_in_config`].
    pub fn from_raw(raw: &Object) -> (out: ModelRules)
        ensures
            out@ == rules_in_config(raw@),
    {
        let o = dup_or_null(raw.get("modelRules"));
        ModelRules {
            disabled: entries_from(o.get("disabled")),
            hidden: entries_from(o.get("hidden")),
            mappings: mappings_from(o.get("mappings")),
            seeded: names_from(o.get("seeded")),
        }
    }

    /// [`rules_json`].
    pub fn to_value(&self) -> (out: JsonValue)
        ensures
            out@ == rules_json(self@),
    {
        let mut o = Object::new();
        o.push("disabled", rule_values(&self.disabled));
        o.push("hidden", rule_values(&self.hidden));
        o.push("mappings", mapping_values(&self.mappings));
        o.push("seeded", words_value(&self.seeded));
        assert(o@ =~= rules_json(self@)->Obj_0);
        JsonValue::Obj(o)
    }

    /// [`any_rule`].
    pub fn hit(list: &Vec<RuleEntry>, provider: &str, id: &str) -> (r: bool)
        ensures
            r == any_rule(rules_of(list@), provider@, id@),
    {
        for i in 0..list.len()
            invariant
                forall|k: int|
                    0 <= k < i ==> !rule_matches(#[trigger] rules_of(list@)[k], provider@, id@),
        {
            assert(rules_of(list@)[i as int] == list@[i as int]@);
            if list[i].matches(provider, id) {
                return true;
            }
        }
        false
    }

    pub fn is_disabled(&self, provider: &str, id: &str) -> (r: bool)
        ensures
            r == any_rule(self@.disabled, provider@, id@),
    {
        ModelRules::hit(&self.disabled, provider, id)
    }

    pub fn is_hidden(&self, provider: &str, id: &str) -> (r: bool)
        ensures
            r == any_rule(self@.hidden, provider@, id@),
    {
        ModelRules::hit(&self.hidden, provider, id)
    }

    /// [`blocked`].
    pub fn is_blocked(&self, provider: &str, id: &str) -> (r: bool)
        ensures
            r == blocked(self@, provider@, id@),
    {
        self.is_disabled(provider, id) || self.is_hidden(provider, id)
    }

    /// [`mappings_for`].
    pub fn mappings_of(&self, model: &str) -> (out: Vec<Mapping>)
        ensures
            mappings_view(out@) == mappings_for(self@.mappings, model@),
    {
        let ghost all = self@.mappings;
        let mut out: Vec<Mapping> = Vec::new();
        assert(mappings_view(out@) =~= mappings_for(all.take(0), model@));
        for i in 0..self.mappings.len()
            invariant
                all == mappings_view(self.mappings@),
                mappings_view(out@) == mappings_for(all.take(i as int), model@),
        {
            assert(all.take(i + 1).drop_last() =~= all.take(i as int));
            assert(all.take(i + 1).last() == self.mappings@[i as int]@);
            if eq_ignore_case(self.mappings[i].alias.as_str(), model) {
                push_mapping(&mut out, self.mappings[i].dup());
            }
        }
        assert(all.take(all.len() as int) =~= all);
        out
    }

    /// [`name_taken`].
    pub fn has_alias(&self, alias: &str) -> (r: bool)
        ensures
            r == name_taken(self@.mappings, alias@),
    {
        for i in 0..self.mappings.len()
            invariant
                forall|k: int|
                    0 <= k < i ==> !same_ignoring_case(
                        (#[trigger] self@.mappings[k]).alias,
                        alias@,
                    ),
        {
            assert(self@.mappings[i as int] == self.mappings@[i as int]@);
            if eq_ignore_case(self.mappings[i].alias.as_str(), alias) {
                return true;
            }
        }
        false
    }

    /// [`other_names`].
    pub fn aliases_of(&self, provider: &str, target: &str) -> (out: Vec<String>)
        ensures
            words(out@) == other_names(self@.mappings, provider@, target@),
    {
        let ghost all = self@.mappings;
        let mut out: Vec<String> = Vec::new();
        assert(words(out@) =~= other_names(all.take(0), provider@, target@));
        for i in 0..self.mappings.len()
            invariant
                all == mappings_view(self.mappings@),
                words(out@) == other_names(all.take(i as int), provider@, target@),
        {
            assert(all.take(i + 1).drop_last() =~= all.take(i as int));
            assert(all.take(i + 1).last() == self.mappings@[i as int]@);
            if eq_ignore_case(self.mappings[i].target.as_str(), target) && provider_fits(
                &self.mappings[i].provider,
                provider,
            ) {
                push_word(&mut out, self.mappings[i].alias.clone());
            }
        }
        assert(all.take(all.len() as int) =~= all);
        out
    }

    /// [`all_other_names`].
    pub fn aliases_of_any(&self, target: &str) -> (out: Vec<String>)
        ensures
            words(out@) == all_other_names(self@.mappings, target@),
    {
        let ghost all = self@.mappings;
        let mut out: Vec<String> = Vec::new();
        assert(words(out@) =~= all_other_names(all.take(0), target@));
        for i in 0..self.mappings.len()
            invariant
                all == mappings_view(self.mappings@),
                words(out@) == all_other_names(all.take(i as int), target@),
        {
            assert(all.take(i + 1).drop_last() =~= all.take(i as int));
            assert(all.take(i + 1).last() == self.mappings@[i as int]@);
            if eq_ignore_case(self.mappings[i].target.as_str(), target) && !lists_name(
                &out,
                self.mappings[i].alias.as_str(),
            ) {
                push_word(&mut out, self.mappings[i].alias.clone());
            }
        }
        assert(all.take(all.len() as int) =~= all);
        out
    }

    /// [`was_seeded`].
    pub fn is_seeded(&self, provider: &str, id: &str) -> (r: bool)
        ensures
            r == was_seeded(self@.seeded, provider@, id@),
    {
        let key = concat3(provider, ":", id);
        if lists_name(&self.seeded, key.as_str()) {
            return true;
        }
        if !same(provider, "workbuddy") && !same(provider, "raccoon") {
            return false;
        }
        lists_name(&self.seeded, id)
    }
}

// ─── Switching on and off ────────────────────────────────────

/// The rules but for those about a provider's model.
pub open spec fn rules_without(list: Seq<RuleView>, provider: Seq<char>, id: Seq<char>) -> Seq<RuleView>
    decreases list.len(),
{
    if list.len() == 0 {
        Seq::empty()
    } else {
        let before = rules_without(list.drop_last(), provider, id);
        if rule_matches(list.last(), provider, id) {
            before
        } else {
            before.push(list.last())
        }
    }
}

/// Some rule is about a model of all providers.
pub open spec fn any_global(list: Seq<RuleView>, id: Seq<char>) -> bool {
    exists|i: int|
        0 <= i < list.len() && (#[trigger] list[i]).provider is None && same_ignoring_case(
            list[i].id,
            id,
        )
}

/// The first `n` of some other providers each get a rule of their own, unless they have one.
pub open spec fn with_others(
    list: Seq<RuleView>,
    provider: Seq<char>,
    id: Seq<char>,
    others: Seq<Seq<char>>,
    n: nat,
) -> Seq<RuleView>
    decreases n,
{
    if n == 0 {
        list
    } else {
        let before = with_others(list, provider, id, others, (n - 1) as nat);
        let other = others[n - 1];
        if same_ignoring_case(other, provider) || any_rule(before, other, id) {
            before
        } else {
            before.push(RuleView { provider: Some(other), id })
        }
    }
}

/// The rule about a provider's model is lifted. A rule for all providers is replaced by one for
/// each of the others.
pub open spec fn rule_lifted(
    list: Seq<RuleView>,
    provider: Seq<char>,
    id: Seq<char>,
    others: Seq<Seq<char>>,
) -> Seq<RuleView> {
    let rest = rules_without(list, provider, id);
    if any_global(list, id) {
        with_others(rest, provider, id, others, others.len())
    } else {
        rest
    }
}

/// The rules but for the one of just this provider, or of all, about a model.
pub open spec fn rules_but(
    list: Seq<RuleView>,
    provider: Option<Seq<char>>,
    id: Seq<char>,
) -> Seq<RuleView>
    decreases list.len(),
{
    if list.len() == 0 {
        Seq::empty()
    } else {
        let before = rules_but(list.drop_last(), provider, id);
        if same_provider(list.last().provider, provider) && same_ignoring_case(
            list.last().id,
            id,
        ) {
            before
        } else {
            before.push(list.last())
        }
    }
}

/// The rule is made.
pub open spec fn rule_made(
    list: Seq<RuleView>,
    provider: Option<Seq<char>>,
    id: Seq<char>,
) -> Seq<RuleView> {
    rules_but(list, provider, id).push(RuleView { provider, id })
}

pub open spec fn provider_or_empty(provider: Option<Seq<char>>) -> Seq<char> {
    match provider {
        Some(p) => p,
        None => Seq::empty(),
    }
}

/// A list of rules after a model's state was set; unchanged where nothing was said.
pub open spec fn list_set(
    list: Seq<RuleView>,
    provider: Option<Seq<char>>,
    id: Seq<char>,
    on: Option<bool>,
    others: Seq<Seq<char>>,
) -> Seq<RuleView> {
    match on {
        Some(true) => rule_made(list, provider, id),
        Some(false) => rule_lifted(list, provider_or_empty(provider), id, others),
        None => list,
    }
}

pub open spec fn negated(b: Option<bool>) -> Option<bool> {
    match b {
        Some(x) => Some(!x),
        None => None,
    }
}

/// The rules after a model was switched on or off, hidden or shown.
pub open spec fn state_set(
    r: ModelRulesView,
    provider: Option<Seq<char>>,
    id: Seq<char>,
    enabled: Option<bool>,
    hidden: Option<bool>,
    others: Seq<Seq<char>>,
) -> ModelRulesView {
    ModelRulesView {
        disabled: list_set(r.disabled, provider, id, negated(enabled), others),
        hidden: list_set(r.hidden, provider, id, hidden, others),
        ..r
    }
}

proof fn lemma_rules_without(list: Seq<RuleView>, provider: Seq<char>, id: Seq<char>)
    ensures
        !any_rule(rules_without(list, provider, id), provider, id),
        forall|q: Seq<char>|
            !any_global(list, id) && !same_ignoring_case(q, provider) ==> (#[trigger] any_rule(
                rules_without(list, provider, id),
                q,
                id,
            ) == any_rule(list, q, id)),
        forall|i: int|
            0 <= i < rules_without(list, provider, id).len() ==> !rule_matches(
                #[trigger] rules_without(list, provider, id)[i],
                provider,
                id,
            ),
    decreases list.len(),
{
    if list.len() > 0 {
        let short = list.drop_last();
        let last = list.last();
        lemma_rules_without(short, provider, id);
        let before = rules_without(short, provider, id);
        let r = rules_without(list, provider, id);
        assert forall|i: int| 0 <= i < r.len() implies !rule_matches(
            #[trigger] r[i],
            provider,
            id,
        ) by {
            if i < before.len() {
                assert(r[i] == before[i]);
            }
        }
        assert forall|q: Seq<char>|
            !any_global(list, id) && !same_ignoring_case(q, provider) implies (#[trigger] any_rule(
            r,
            q,
            id,
        ) == any_rule(list, q, id)) by {
            assert(!any_global(short, id)) by {
                if any_global(short, id) {
                    let i = choose|i: int|
                        0 <= i < short.len() && (#[trigger] short[i]).provider is None
                            && same_ignoring_case(short[i].id, id);
                    assert(list[i] == short[i]);
                }
            }
            assert(any_rule(before, q, id) == any_rule(short, q, id));
            lemma_any_rule_push(short, last, q, id);
            assert(short.push(last) =~= list);
            if rule_matches(last, provider, id) {
                assert(list[list.len() - 1] == last);
                assert(last.provider is Some);
                if rule_matches(last, q, id) {
                    crate::text::ignoring_case_is_equivalence(q, last.provider->0, provider);
                    crate::text::ignoring_case_is_equivalence(last.provider->0, q, provider);
                }
            } else {
                lemma_any_rule_push(before, last, q, id);
            }
        }
    }
}

proof fn lemma_any_rule_push(list: Seq<RuleView>, e: RuleView, provider: Seq<char>, id: Seq<char>)
    ensures
        any_rule(list.push(e), provider, id) == (any_rule(list, provider, id) || rule_matches(
            e,
            provider,
            id,
        )),
{
    let r = list.push(e);
    if any_rule(list, provider, id) {
        let i = choose|i: int| 0 <= i < list.len() && rule_matches(#[trigger] list[i], provider, id);
        assert(r[i] == list[i]);
    }
    if rule_matches(e, provider, id) {
        assert(r[list.len() as int] == e);
    }
    if any_rule(r, provider, id) && !rule_matches(e, provider, id) {
        let i = choose|i: int| 0 <= i < r.len() && rule_matches(#[trigger] r[i], provider, id);
        assert(r[i] == list[i]);
    }
}

proof fn lemma_with_others(
    list: Seq<RuleView>,
    provider: Seq<char>,
    id: Seq<char>,
    others: Seq<Seq<char>>,
    n: nat,
)
    requires
        n <= others.len(),
        !any_rule(list, provider, id),
    ensures
        !any_rule(with_others(list, provider, id, others, n), provider, id),
        forall|k: int|
            0 <= k < n && !same_ignoring_case(#[trigger] others[k], provider) ==> any_rule(
                with_others(list, provider, id, others, n),
                others[k],
                id,
            ),
        forall|q: Seq<char>| #[trigger]
            any_rule(list, q, id) ==> any_rule(with_others(list, provider, id, others, n), q, id),
    decreases n,
{
    if n > 0 {
        let m = (n - 1) as nat;
        lemma_with_others(list, provider, id, others, m);
        let before = with_others(list, provider, id, others, m);
        let other = others[m as int];
        let e = RuleView { provider: Some(other), id };
        let r = with_others(list, provider, id, others, n);
        crate::text::ignoring_case_is_equivalence(id, id, id);
        crate::text::ignoring_case_is_equivalence(other, other, other);
        assert(rule_matches(e, other, id));
        lemma_any_rule_push(before, e, provider, id);
        lemma_any_rule_push(before, e, other, id);
        assert forall|k: int| 0 <= k < n && !same_ignoring_case(
            #[trigger] others[k],
            provider,
        ) implies any_rule(r, others[k], id) by {
            if k < m {
                lemma_any_rule_push(before, e, others[k], id);
            }
        }
        assert forall|q: Seq<char>| #[trigger] any_rule(list, q, id) implies any_rule(r, q, id) by {
            lemma_any_rule_push(before, e, q, id);
        }
    }
}

/// Lifting a rule frees the model for that provider.
pub proof fn lifting_frees(list: Seq<RuleView>, provider: Seq<char>, id: Seq<char>, others: Seq<Seq<char>>)
    ensures
        !any_rule(rule_lifted(list, provider, id, others), provider, id),
{
    lemma_rules_without(list, provider, id);
    lemma_with_others(rules_without(list, provider, id), provider, id, others, others.len());
}

/// Lifting a rule for one provider leaves every other provider of the model as it was. The others
/// are those that have the model.
pub proof fn lifting_leaves_others(
    list: Seq<RuleView>,
    provider: Seq<char>,
    id: Seq<char>,
    others: Seq<Seq<char>>,
    k: int,
)
    requires
        0 <= k < others.len(),
        !same_ignoring_case(others[k], provider),
    ensures
        any_rule(rule_lifted(list, provider, id, others), others[k], id) == any_rule(
            list,
            others[k],
            id,
        ),
{
    lemma_rules_without(list, provider, id);
    let rest = rules_without(list, provider, id);
    let q = others[k];
    if any_global(list, id) {
        lemma_with_others(rest, provider, id, others, others.len());
        let i = choose|i: int|
            0 <= i < list.len() && (#[trigger] list[i]).provider is None && same_ignoring_case(
                list[i].id,
                id,
            );
        assert(rule_matches(list[i], q, id));
    } else {
        assert(any_rule(rest, q, id) == any_rule(list, q, id));
    }
}

/// A rule that is made blocks the model.
pub proof fn making_blocks(list: Seq<RuleView>, provider: Seq<char>, id: Seq<char>)
    ensures
        any_rule(rule_made(list, Some(provider), id), provider, id),
{
    let e = RuleView { provider: Some(provider), id };
    crate::text::ignoring_case_is_equivalence(id, id, id);
    crate::text::ignoring_case_is_equivalence(provider, provider, provider);
    lemma_any_rule_push(rules_but(list, Some(provider), id), e, provider, id);
}

fn enable_on(list: &Vec<RuleEntry>, provider: &str, id: &str, others: &Vec<String>) -> (out: Vec<
    RuleEntry,
>)
    ensures
        rules_of(out@) == rule_lifted(rules_of(list@), provider@, id@, words(others@)),
{
    let ghost all = rules_of(list@);
    let mut had_global = false;
    let mut out: Vec<RuleEntry> = Vec::new();
    assert(rules_of(out@) =~= rules_without(all.take(0), provider@, id@));
    for i in 0..list.len()
        invariant
            all == rules_of(list@),
            rules_of(out@) == rules_without(all.take(i as int), provider@, id@),
            had_global == exists|k: int|
                0 <= k < i && (#[trigger] all[k]).provider is None && same_ignoring_case(
                    all[k].id,
                    id@,
                ),
    {
        assert(all.take(i + 1).drop_last() =~= all.take(i as int));
        assert(all.take(i + 1).last() == list@[i as int]@);
        assert(all[i as int] == list@[i as int]@);
        if list[i].provider.is_none() && eq_ignore_case(list[i].id.as_str(), id) {
            had_global = true;
        }
        if !list[i].matches(provider, id) {
            push_rule(&mut out, list[i].dup());
        }
    }
    assert(all.take(all.len() as int) =~= all);
    assert(had_global == any_global(all, id@));
    if had_global {
        let ghost rest = rules_of(out@);
        let ghost names = words(others@);
        for n in 0..others.len()
            invariant
                names == words(others@),
                rules_of(out@) == with_others(rest, provider@, id@, names, n as nat),
        {
            assert(names[n as int] == others@[n as int]@);
            let other = others[n].as_str();
            if !eq_ignore_case(other, provider) && !ModelRules::hit(&out, other, id) {
                push_rule(&mut out, RuleEntry::new(Some(other), id));
            }
        }
    }
    out
}

fn set_membership(list: &Vec<RuleEntry>, provider: Option<&str>, id: &str) -> (out: Vec<RuleEntry>)
    ensures
        rules_of(out@) == rule_made(rules_of(list@), text_seen(provider), id@),
{
    let ghost all = rules_of(list@);
    let mut out: Vec<RuleEntry> = Vec::new();
    assert(rules_of(out@) =~= rules_but(all.take(0), text_seen(provider), id@));
    for i in 0..list.len()
        invariant
            all == rules_of(list@),
            rules_of(out@) == rules_but(all.take(i as int), text_seen(provider), id@),
    {
        assert(all.take(i + 1).drop_last() =~= all.take(i as int));
        assert(all.take(i + 1).last() == list@[i as int]@);
        if !(providers_same(&list[i].provider, provider) && eq_ignore_case(
            list[i].id.as_str(),
            id,
        )) {
            push_rule(&mut out, list[i].dup());
        }
    }
    assert(all.take(all.len() as int) =~= all);
    push_rule(&mut out, RuleEntry::new(provider, id));
    out
}

fn set_list(
    list: &Vec<RuleEntry>,
    provider: Option<&str>,
    id: &str,
    on: bool,
    others: &Vec<String>,
) -> (out: Vec<RuleEntry>)
    ensures
        rules_of(out@) == list_set(
            rules_of(list@),
            text_seen(provider),
            id@,
            Some(on),
            words(others@),
        ),
{
    if on {
        set_membership(list, provider, id)
    } else {
        let name = match provider {
            Some(p) => p.to_owned(),
            None => String::new(),
        };
        assert(name@ =~= provider_or_empty(text_seen(provider)));
        enable_on(list, name.as_str(), id, others)
    }
}

// ─── Mappings ────────────────────────────────────────────────

/// What a name may be made of: ASCII letters and digits, and five signs.
pub open spec fn name_char(c: char) -> bool {
    crate::desensitize::engine::word_char(c) || c == '-' || c == '_' || c == '.' || c == '/' || c
        == ':'
}

/// A name that a model may be offered under.
pub open spec fn valid_name(alias: Seq<char>) -> bool {
    0 < alias.len() <= 128 && forall|i: int|
        0 <= i < alias.len() ==> name_char(#[trigger] alias[i])
}

/// Decides [`valid_name`].
pub fn alias_valid(alias: &str) -> (r: bool)
    ensures
        r == valid_name(alias@),
{
    let chars = chars_of(alias);
    if chars.len() == 0 || chars.len() > 128 {
        return false;
    }
    for i in 0..chars.len()
        invariant
            chars@ == alias@,
            forall|k: int| 0 <= k < i ==> name_char(#[trigger] chars@[k]),
    {
        let c = chars[i];
        if !(crate::desensitize::engine::is_ascii_alnum(c) || c == '-' || c == '_' || c == '.' || c
            == '/' || c == ':') {
            return false;
        }
    }
    true
}

/// The two mappings say the same.
pub open spec fn same_mapping(m: MappingView, n: MappingView) -> bool {
    same_ignoring_case(m.alias, n.alias) && same_ignoring_case(m.target, n.target) && same_provider(
        m.provider,
        n.provider,
    )
}

pub open spec fn has_mapping(list: Seq<MappingView>, n: MappingView) -> bool {
    exists|i: int| 0 <= i < list.len() && same_mapping(#[trigger] list[i], n)
}

/// The mappings with one more, unless it is there.
pub open spec fn with_mapping(list: Seq<MappingView>, n: MappingView) -> Seq<MappingView> {
    if has_mapping(list, n) {
        list
    } else {
        list.push(n)
    }
}

/// Adding a mapping again changes nothing.
pub proof fn adding_again_changes_nothing(list: Seq<MappingView>, n: MappingView)
    ensures
        with_mapping(with_mapping(list, n), n) == with_mapping(list, n),
{
    if !has_mapping(list, n) {
        let r = list.push(n);
        crate::text::ignoring_case_is_equivalence(n.alias, n.alias, n.alias);
        crate::text::ignoring_case_is_equivalence(n.target, n.target, n.target);
        if n.provider is Some {
            crate::text::ignoring_case_is_equivalence(
                n.provider->0,
                n.provider->0,
                n.provider->0,
            );
        }
        assert(same_mapping(r[list.len() as int], n));
    }
}

/// The mapping is of a name to a model.
pub open spec fn maps(m: MappingView, alias: Seq<char>, target: Seq<char>) -> bool {
    same_ignoring_case(m.alias, alias) && same_ignoring_case(m.target, target)
}

/// The mapping goes when it is removed for a provider, or for all where none is named. One for
/// all providers goes in any case.
pub open spec fn goes(
    m: MappingView,
    alias: Seq<char>,
    target: Seq<char>,
    provider: Option<Seq<char>>,
) -> bool {
    maps(m, alias, target) && match (m.provider, provider) {
        (Some(stored), Some(given)) => same_ignoring_case(stored, given),
        _ => true,
    }
}

pub open spec fn mappings_without(
    list: Seq<MappingView>,
    alias: Seq<char>,
    target: Seq<char>,
    provider: Option<Seq<char>>,
) -> Seq<MappingView>
    decreases list.len(),
{
    if list.len() == 0 {
        Seq::empty()
    } else {
        let before = mappings_without(list.drop_last(), alias, target, provider);
        if goes(list.last(), alias, target, provider) {
            before
        } else {
            before.push(list.last())
        }
    }
}

pub open spec fn any_goes(
    list: Seq<MappingView>,
    alias: Seq<char>,
    target: Seq<char>,
    provider: Option<Seq<char>>,
) -> bool {
    exists|i: int| 0 <= i < list.len() && goes(#[trigger] list[i], alias, target, provider)
}

/// A mapping for all providers is among those of a name to a model.
pub open spec fn any_global_mapping(list: Seq<MappingView>, alias: Seq<char>, target: Seq<char>) -> bool {
    exists|i: int|
        0 <= i < list.len() && maps(#[trigger] list[i], alias, target) && list[i].provider is None
}

/// The first `n` of some other providers each get the mapping, unless they have it.
pub open spec fn mapped_for_others(
    list: Seq<MappingView>,
    alias: Seq<char>,
    target: Seq<char>,
    owner: Seq<char>,
    others: Seq<Seq<char>>,
    n: nat,
) -> Seq<MappingView>
    decreases n,
{
    if n == 0 {
        list
    } else {
        let before = mapped_for_others(list, alias, target, owner, others, (n - 1) as nat);
        let m = MappingView { alias, target, provider: Some(others[n - 1]) };
        if same_ignoring_case(others[n - 1], owner) || has_mapping(before, m) {
            before
        } else {
            before.push(m)
        }
    }
}

/// The mappings after one was removed. One for all providers that is removed for one of them is
/// replaced by one for each of the others.
pub open spec fn mapping_removed(
    list: Seq<MappingView>,
    alias: Seq<char>,
    target: Seq<char>,
    provider: Option<Seq<char>>,
    others: Seq<Seq<char>>,
) -> Seq<MappingView> {
    let rest = mappings_without(list, alias, target, provider);
    match provider {
        Some(owner) => if any_global_mapping(list, alias, target) {
            mapped_for_others(rest, alias, target, owner, others, others.len())
        } else {
            rest
        },
        None => rest,
    }
}

fn mapping_listed(list: &Vec<Mapping>, alias: &str, target: &str, provider: Option<&str>) -> (r: bool)
    ensures
        r == has_mapping(
            mappings_view(list@),
            MappingView { alias: alias@, target: target@, provider: text_seen(provider) },
        ),
{
    let ghost n = MappingView { alias: alias@, target: target@, provider: text_seen(provider) };
    for i in 0..list.len()
        invariant
            n == (MappingView { alias: alias@, target: target@, provider: text_seen(provider) }),
            forall|k: int| 0 <= k < i ==> !same_mapping(#[trigger] mappings_view(list@)[k], n),
    {
        assert(mappings_view(list@)[i as int] == list@[i as int]@);
        if eq_ignore_case(list[i].alias.as_str(), alias) && eq_ignore_case(
            list[i].target.as_str(),
            target,
        ) && providers_same(&list[i].provider, provider) {
            return true;
        }
    }
    false
}

fn mapping_new(alias: &str, target: &str, provider: Option<&str>) -> (out: Mapping)
    ensures
        out@ == (MappingView { alias: alias@, target: target@, provider: text_seen(provider) }),
{
    Mapping { alias: alias.to_owned(), target: target.to_owned(), provider: owned_text(provider) }
}

impl ModelRules {
    /// [`state_set`].
    pub fn set_state(
        &mut self,
        provider: Option<&str>,
        id: &str,
        enabled: Option<bool>,
        hidden: Option<bool>,
        other_providers: &Vec<String>,
    )
        ensures
            final(self)@ == state_set(
                old(self)@,
                text_seen(provider),
                id@,
                enabled,
                hidden,
                words(other_providers@),
            ),
    {
        if let Some(enabled) = enabled {
            self.disabled = set_list(&self.disabled, provider, id, !enabled, other_providers);
        }
        if let Some(hidden) = hidden {
            self.hidden = set_list(&self.hidden, provider, id, hidden, other_providers);
        }
    }

    /// Adds a mapping; says whether it was not there.
    pub fn add_mapping(&mut self, alias: &str, target: &str, provider: Option<&str>) -> (r: bool)
        ensures
            ({
                let m = MappingView { alias: alias@, target: target@, provider: text_seen(provider) };
                &&& r == !has_mapping(old(self)@.mappings, m)
                &&& final(self)@ == (ModelRulesView {
                    mappings: with_mapping(old(self)@.mappings, m),
                    ..old(self)@
                })
            }),
    {
        if mapping_listed(&self.mappings, alias, target, provider) {
            return false;
        }
        push_mapping(&mut self.mappings, mapping_new(alias, target, provider));
        true
    }

    /// Removes a mapping; says whether it was there.
    pub fn remove_mapping(
        &mut self,
        alias: &str,
        target: &str,
        provider: Option<&str>,
        other_providers: &Vec<String>,
    ) -> (r: bool)
        ensures
            r == any_goes(old(self)@.mappings, alias@, target@, text_seen(provider)),
            final(self)@ == (ModelRulesView {
                mappings: mapping_removed(
                    old(self)@.mappings,
                    alias@,
                    target@,
                    text_seen(provider),
                    words(other_providers@),
                ),
                ..old(self)@
            }),
    {
        let ghost all = self@.mappings;
        let ghost given = text_seen(provider);
        let mut removed = false;
        let mut global_hit = false;
        let mut rest: Vec<Mapping> = Vec::new();
        assert(mappings_view(rest@) =~= mappings_without(all.take(0), alias@, target@, given));
        for i in 0..self.mappings.len()
            invariant
                all == mappings_view(self.mappings@),
                given == text_seen(provider),
                mappings_view(rest@) == mappings_without(
                    all.take(i as int),
                    alias@,
                    target@,
                    given,
                ),
                removed == exists|k: int|
                    0 <= k < i && goes(#[trigger] all[k], alias@, target@, given),
                global_hit == exists|k: int|
                    0 <= k < i && maps(#[trigger] all[k], alias@, target@) && all[k].provider is None,
        {
            assert(all.take(i + 1).drop_last() =~= all.take(i as int));
            assert(all.take(i + 1).last() == self.mappings@[i as int]@);
            assert(all[i as int] == self.mappings@[i as int]@);
            let m = &self.mappings[i];
            let mapped = eq_ignore_case(m.alias.as_str(), alias) && eq_ignore_case(
                m.target.as_str(),
                target,
            );
            let hit = mapped && match (&m.provider, provider) {
                (Some(stored), Some(g)) => eq_ignore_case(stored.as_str(), g),
                _ => true,
            };
            if mapped && m.provider.is_none() {
                global_hit = true;
            }
            if hit {
                removed = true;
            } else {
                push_mapping(&mut rest, m.dup());
            }
        }
        assert(all.take(all.len() as int) =~= all);
        if global_hit {
            if let Some(owner) = provider {
                let ghost base = mappings_view(rest@);
                let ghost names = words(other_providers@);
                for n in 0..other_providers.len()
                    invariant
                        names == words(other_providers@),
                        mappings_view(rest@) == mapped_for_others(
                            base,
                            alias@,
                            target@,
                            owner@,
                            names,
                            n as nat,
                        ),
                {
                    assert(names[n as int] == other_providers@[n as int]@);
                    let other = other_providers[n].as_str();
                    if !eq_ignore_case(other, owner) && !mapping_listed(
                        &rest,
                        alias,
                        target,
                        Some(other),
                    ) {
                        push_mapping(&mut rest, mapping_new(alias, target, Some(other)));
                    }
                }
            }
        }
        self.mappings = rest;
        removed
    }
}

} // verus!
