//! Rules for models that hold for all providers alike.
//!
//! A name leads to one model here: mapping it anew replaces what it led to. Names are compared
//! without regard to ASCII case.
use vstd::prelude::*;
use crate::desensitize::state::{json_words, words_value};
use crate::json::{
    field, find, list_view, or_null, push_value, seen, text_seen, text_view, Fields, Json,
    JsonValue, Object,
};
use crate::model_rules::{
    alias_valid, filled, filled_in, has_name, items_of, lists_name, names_from, names_in, tidy,
    valid_name,
};
use crate::model_seeds::{arrow, is_opaque_raccoon_id, opaque_name, workbuddy_white, SeedOutcome};
use crate::text::{
    begins, chars_of, concat, concat3, decimal, decimal_u64, eq_ignore_case, same_ignoring_case,
    starts_with, text_between, trim, trimmed,
};
use crate::words::{join, joined, push_word, words};

verus! {

// ─── Rules ───────────────────────────────────────────────────

/// A name (`alias`) under which a model (`target`) is offered.
pub struct Mapping {
    pub alias: String,
    pub target: String,
}

/// The plain value of a [`Mapping`].
pub struct LinkView {
    pub alias: Seq<char>,
    pub target: Seq<char>,
}

impl View for Mapping {
    type V = LinkView;

    open spec fn view(&self) -> LinkView {
        LinkView { alias: self.alias@, target: self.target@ }
    }
}

/// All rules. `seeded` notes which models were given their default rules.
pub struct ModelRules {
    pub disabled: Vec<String>,
    pub hidden: Vec<String>,
    pub mappings: Vec<Mapping>,
    pub seeded: Vec<String>,
}

/// The plain value of [`ModelRules`].
pub struct SharedRulesView {
    pub disabled: Seq<Seq<char>>,
    pub hidden: Seq<Seq<char>>,
    pub mappings: Seq<LinkView>,
    pub seeded: Seq<Seq<char>>,
}

pub open spec fn links(list: Seq<Mapping>) -> Seq<LinkView> {
    list.map_values(|m: Mapping| m@)
}

impl View for ModelRules {
    type V = SharedRulesView;

    open spec fn view(&self) -> SharedRulesView {
        SharedRulesView {
            disabled: words(self.disabled@),
            hidden: words(self.hidden@),
            mappings: links(self.mappings@),
            seeded: words(self.seeded@),
        }
    }
}

// ─── Reading and writing ─────────────────────────────────────

/// The mapping that a JSON value stands for.
pub open spec fn link_in(v: Json) -> Option<LinkView> {
    match (filled(field(v, "alias"@)), filled(field(v, "target"@))) {
        (Some(alias), Some(target)) => Some(LinkView { alias, target }),
        _ => None,
    }
}

pub open spec fn links_in(items: Seq<Json>) -> Seq<LinkView>
    decreases items.len(),
{
    if items.len() == 0 {
        Seq::empty()
    } else {
        let before = links_in(items.drop_last());
        match link_in(items.last()) {
            Some(m) => before.push(m),
            None => before,
        }
    }
}

/// The rules in a configuration.
pub open spec fn shared_rules_in(raw: Fields) -> SharedRulesView {
    let o = or_null(find(raw, "modelRules"@));
    SharedRulesView {
        disabled: names_in(items_of(field(o, "disabled"@))),
        hidden: names_in(items_of(field(o, "hidden"@))),
        mappings: links_in(items_of(field(o, "mappings"@))),
        seeded: names_in(items_of(field(o, "seeded"@))),
    }
}

pub open spec fn link_json(m: LinkView) -> Json {
    Json::Obj(seq![("alias"@, Json::Str(m.alias)), ("target"@, Json::Str(m.target))])
}

/// The form in which the rules are kept.
pub open spec fn shared_rules_json(r: SharedRulesView) -> Json {
    Json::Obj(
        seq![
            ("disabled"@, json_words(r.disabled)),
            ("hidden"@, json_words(r.hidden)),
            ("mappings"@, Json::Arr(r.mappings.map_values(|m: LinkView| link_json(m)))),
            ("seeded"@, json_words(r.seeded)),
        ],
    )
}

/// No text is empty or has blanks at its ends.
pub open spec fn tidy_shared(r: SharedRulesView) -> bool {
    &&& forall|i: int| 0 <= i < r.disabled.len() ==> tidy(#[trigger] r.disabled[i])
    &&& forall|i: int| 0 <= i < r.hidden.len() ==> tidy(#[trigger] r.hidden[i])
    &&& forall|i: int| 0 <= i < r.seeded.len() ==> tidy(#[trigger] r.seeded[i])
    &&& forall|i: int|
        0 <= i < r.mappings.len() ==> tidy((#[trigger] r.mappings[i]).alias) && tidy(
            r.mappings[i].target,
        )
}

proof fn lemma_names_back(names: Seq<Seq<char>>)
    requires
        forall|i: int| 0 <= i < names.len() ==> tidy(#[trigger] names[i]),
    ensures
        names_in(names.map_values(|s: Seq<char>| Json::Str(s))) == names,
    decreases names.len(),
{
    let items = names.map_values(|s: Seq<char>| Json::Str(s));
    if names.len() > 0 {
        lemma_names_back(names.drop_last());
        assert(items.drop_last() =~= names.drop_last().map_values(|s: Seq<char>| Json::Str(s)));
        assert(items.last() == Json::Str(names.last()));
        assert(names.drop_last().push(names.last()) =~= names);
    } else {
        assert(names =~= Seq::empty());
    }
}

proof fn lemma_link_back(m: LinkView)
    requires
        tidy(m.alias),
        tidy(m.target),
    ensures
        link_in(link_json(m)) == Some(m),
{
    reveal_strlit("alias");
    reveal_strlit("target");
    assert("alias"@.len() != "target"@.len());
    let o = seq![("alias"@, Json::Str(m.alias)), ("target"@, Json::Str(m.target))];
    assert(o.drop_last() =~= seq![("alias"@, Json::Str(m.alias))]);
    reveal_with_fuel(find, 3);
    assert(find(o, "alias"@) == Some(Json::Str(m.alias)));
    assert(find(o, "target"@) == Some(Json::Str(m.target)));
}

proof fn lemma_links_back(list: Seq<LinkView>)
    requires
        forall|i: int|
            0 <= i < list.len() ==> tidy((#[trigger] list[i]).alias) && tidy(list[i].target),
    ensures
        links_in(list.map_values(|m: LinkView| link_json(m))) == list,
    decreases list.len(),
{
    let items = list.map_values(|m: LinkView| link_json(m));
    if list.len() > 0 {
        lemma_links_back(list.drop_last());
        lemma_link_back(list.last());
        assert(items.drop_last() =~= list.drop_last().map_values(|m: LinkView| link_json(m)));
        assert(list.drop_last().push(list.last()) =~= list);
    } else {
        assert(list =~= Seq::empty());
    }
}

/// Rules that are kept are read back as they were.
pub proof fn shared_rules_read_back(r: SharedRulesView, raw: Fields)
    requires
        tidy_shared(r),
        find(raw, "modelRules"@) == Some(shared_rules_json(r)),
    ensures
        shared_rules_in(raw) == r,
{
    reveal_strlit("disabled");
    reveal_strlit("hidden");
    reveal_strlit("mappings");
    reveal_strlit("seeded");
    assert("disabled"@[0] != "mappings"@[0]);
    assert("hidden"@[0] != "seeded"@[0]);
    let o = shared_rules_json(r)->Obj_0;
    assert(o.drop_last() =~= o.take(3));
    assert(o.take(3).drop_last() =~= o.take(2));
    assert(o.take(2).drop_last() =~= o.take(1));
    reveal_with_fuel(find, 5);
    assert(find(o, "disabled"@) == Some(json_words(r.disabled)));
    assert(find(o, "hidden"@) == Some(json_words(r.hidden)));
    assert(find(o, "seeded"@) == Some(json_words(r.seeded)));
    assert(find(o, "mappings"@) == Some(
        Json::Arr(r.mappings.map_values(|m: LinkView| link_json(m))),
    ));
    lemma_names_back(r.disabled);
    lemma_names_back(r.hidden);
    lemma_names_back(r.seeded);
    lemma_links_back(r.mappings);
}

fn push_link(list: &mut Vec<Mapping>, m: Mapping)
    ensures
        links(final(list)@) == links(old(list)@).push(m@),
{
    let ghost before = list@;
    list.push(m);
    assert(links(list@) =~= links(before).push(m@));
}

fn links_from(v: Option<&JsonValue>) -> (out: Vec<Mapping>)
    ensures
        links(out@) == links_in(items_of(seen(v))),
{
    let mut out: Vec<Mapping> = Vec::new();
    assert(links(out@) =~= Seq::empty());
    if let Some(JsonValue::Arr(items)) = v {
        let ghost all = list_view(*items);
        assert(all.take(0) =~= Seq::empty());
        for i in 0..items.len()
            invariant
                all == list_view(*items),
                links(out@) == links_in(all.take(i as int)),
        {
            assert(all.take(i + 1).drop_last() =~= all.take(i as int));
            assert(all.take(i + 1).last() == items@[i as int]@);
            match (filled_in(items[i].get("alias")), filled_in(items[i].get("target"))) {
                (Some(alias), Some(target)) => push_link(&mut out, Mapping { alias, target }),
                _ => {},
            }
        }
        assert(all.take(all.len() as int) =~= all);
    }
    out
}

pub fn link_values(list: &Vec<Mapping>) -> (out: JsonValue)
    ensures
        out@ == Json::Arr(links(list@).map_values(|m: LinkView| link_json(m))),
{
    let ghost all = links(list@).map_values(|m: LinkView| link_json(m));
    let mut items: Vec<JsonValue> = Vec::new();
    assert(list_view(items) =~= all.take(0));
    for i in 0..list.len()
        invariant
            all == links(list@).map_values(|m: LinkView| link_json(m)),
            list_view(items) == all.take(i as int),
    {
        let mut o = Object::new();
        o.push("alias", JsonValue::text(list[i].alias.as_str()));
        o.push("target", JsonValue::text(list[i].target.as_str()));
        assert(o@ =~= link_json(list@[i as int]@)->Obj_0);
        push_value(&mut items, JsonValue::Obj(o));
        assert(list_view(items) =~= all.take(i + 1));
    }
    assert(all.take(all.len() as int) =~= all);
    JsonValue::Arr(items)
}

// ─── Asking ──────────────────────────────────────────────────

/// Where the first mapping of a name stands.
pub open spec fn led_to(list: Seq<LinkView>, name: Seq<char>) -> Option<Seq<char>>
    decreases list.len(),
{
    if list.len() == 0 {
        None
    } else if same_ignoring_case(list[0].alias, name) {
        Some(list[0].target)
    } else {
        led_to(list.skip(1), name)
    }
}

/// The names that lead to a model, in order.
pub open spec fn names_for(list: Seq<LinkView>, target: Seq<char>) -> Seq<Seq<char>>
    decreases list.len(),
{
    if list.len() == 0 {
        Seq::empty()
    } else {
        let before = names_for(list.drop_last(), target);
        if same_ignoring_case(list.last().target, target) {
            before.push(list.last().alias)
        } else {
            before
        }
    }
}

impl ModelRules {
    /// [`shared_rules_in`].
    pub fn from_raw(raw: &Object) -> (out: ModelRules)
        ensures
            out@ == shared_rules_in(raw@),
    {
        let o = crate::json::dup_or_null(raw.get("modelRules"));
        ModelRules {
            disabled: names_from(o.get("disabled")),
            hidden: names_from(o.get("hidden")),
            mappings: links_from(o.get("mappings")),
            seeded: names_from(o.get("seeded")),
        }
    }

    /// [`shared_rules_json`].
    pub fn to_value(&self) -> (out: JsonValue)
        ensures
            out@ == shared_rules_json(self@),
    {
        let mut o = Object::new();
        o.push("disabled", words_value(&self.disabled));
        o.push("hidden", words_value(&self.hidden));
        o.push("mappings", link_values(&self.mappings));
        o.push("seeded", words_value(&self.seeded));
        assert(o@ =~= shared_rules_json(self@)->Obj_0);
        JsonValue::Obj(o)
    }

    /// The model is switched off.
    pub fn is_disabled(&self, id: &str) -> (r: bool)
        ensures
            r == has_name(self@.disabled, id@),
    {
        lists_name(&self.disabled, id)
    }

    /// The model is hidden.
    pub fn is_hidden(&self, id: &str) -> (r: bool)
        ensures
            r == has_name(self@.hidden, id@),
    {
        lists_name(&self.hidden, id)
    }

    /// The model is switched off or hidden, and not offered.
    pub fn is_blocked(&self, id: &str) -> (r: bool)
        ensures
            r == (has_name(self@.disabled, id@) || has_name(self@.hidden, id@)),
    {
        self.is_disabled(id) || self.is_hidden(id)
    }

    /// [`led_to`].
    pub fn resolve_alias(&self, model: &str) -> (r: Option<&str>)
        ensures
            text_seen(r) == led_to(self@.mappings, model@),
    {
        let ghost all = self@.mappings;
        assert(all.skip(0) =~= all);
        for i in 0..self.mappings.len()
            invariant
                all == links(self.mappings@),
                led_to(all, model@) == led_to(all.skip(i as int), model@),
        {
            assert(all.skip(i as int)[0] == self.mappings@[i as int]@);
            assert(all.skip(i as int).skip(1) =~= all.skip(i + 1));
            if eq_ignore_case(self.mappings[i].alias.as_str(), model) {
                return Some(self.mappings[i].target.as_str());
            }
        }
        None
    }

    /// [`names_for`].
    pub fn aliases_of(&self, target: &str) -> (out: Vec<String>)
        ensures
            words(out@) == names_for(self@.mappings, target@),
    {
        let ghost all = self@.mappings;
        let mut out: Vec<String> = Vec::new();
        assert(words(out@) =~= Seq::empty());
        assert(all.take(0) =~= Seq::empty());
        for i in 0..self.mappings.len()
            invariant
                all == links(self.mappings@),
                words(out@) == names_for(all.take(i as int), target@),
        {
            assert(all.take(i + 1).drop_last() =~= all.take(i as int));
            assert(all.take(i + 1).last() == self.mappings@[i as int]@);
            if eq_ignore_case(self.mappings[i].target.as_str(), target) {
                push_word(&mut out, self.mappings[i].alias.clone());
            }
        }
        assert(all.take(all.len() as int) =~= all);
        out
    }
}

// ─── Changing ────────────────────────────────────────────────

/// The names other than one.
pub open spec fn names_but(list: Seq<Seq<char>>, id: Seq<char>) -> Seq<Seq<char>>
    decreases list.len(),
{
    if list.len() == 0 {
        Seq::empty()
    } else {
        let before = names_but(list.drop_last(), id);
        if same_ignoring_case(list.last(), id) {
            before
        } else {
            before.push(list.last())
        }
    }
}

/// A list with a name in it, or without.
pub open spec fn membership(list: Seq<Seq<char>>, id: Seq<char>, present: bool) -> Seq<Seq<char>> {
    if present {
        names_but(list, id).push(id)
    } else {
        names_but(list, id)
    }
}

/// The mappings of other names.
pub open spec fn links_but(list: Seq<LinkView>, alias: Seq<char>) -> Seq<LinkView>
    decreases list.len(),
{
    if list.len() == 0 {
        Seq::empty()
    } else {
        let before = links_but(list.drop_last(), alias);
        if same_ignoring_case(list.last().alias, alias) {
            before
        } else {
            before.push(list.last())
        }
    }
}

/// A model switched on or off and hidden or shown, each where it is said.
pub open spec fn shared_state_set(
    r: SharedRulesView,
    id: Seq<char>,
    enabled: Option<bool>,
    hidden: Option<bool>,
) -> SharedRulesView {
    SharedRulesView {
        disabled: match enabled {
            Some(on) => membership(r.disabled, id, !on),
            None => r.disabled,
        },
        hidden: match hidden {
            Some(h) => membership(r.hidden, id, h),
            None => r.hidden,
        },
        ..r
    }
}

/// Keeps a list's other names as they are, and drops all forms of one.
proof fn lemma_names_but(list: Seq<Seq<char>>, id: Seq<char>, other: Seq<char>)
    ensures
        !has_name(names_but(list, id), id),
        !same_ignoring_case(id, other) ==> (has_name(names_but(list, id), other) == has_name(
            list,
            other,
        )),
    decreases list.len(),
{
    if list.len() > 0 {
        let before = list.drop_last();
        lemma_names_but(before, id, other);
        let last = list.last();
        assert(list =~= before.push(last));
        lemma_name_pushed(before, last, other);
        lemma_name_pushed(names_but(before, id), last, other);
        lemma_name_pushed(names_but(before, id), last, id);
        if same_ignoring_case(last, id) && same_ignoring_case(last, other) {
            crate::text::ignoring_case_is_equivalence(id, last, other);
            crate::text::ignoring_case_is_equivalence(last, id, other);
        }
    }
}

proof fn lemma_name_pushed(list: Seq<Seq<char>>, last: Seq<char>, name: Seq<char>)
    ensures
        has_name(list.push(last), name) == (has_name(list, name) || same_ignoring_case(last, name)),
{
    let longer = list.push(last);
    if has_name(list, name) {
        let i = choose|i: int| 0 <= i < list.len() && same_ignoring_case(#[trigger] list[i], name);
        assert(longer[i] == list[i]);
    }
    if same_ignoring_case(last, name) {
        assert(longer[list.len() as int] == last);
    }
    if has_name(longer, name) && !same_ignoring_case(last, name) {
        let i = choose|i: int|
            0 <= i < longer.len() && same_ignoring_case(#[trigger] longer[i], name);
        assert(i < list.len());
        assert(list[i] == longer[i]);
    }
}

/// A model is switched as it was said, and no other model is touched.
pub proof fn state_is_set_for_one_model(
    r: SharedRulesView,
    id: Seq<char>,
    other: Seq<char>,
    on: bool,
    hide: bool,
)
    requires
        !same_ignoring_case(id, other),
    ensures
        ({
            let after = shared_state_set(r, id, Some(on), Some(hide));
            &&& has_name(after.disabled, id) == !on
            &&& has_name(after.hidden, id) == hide
            &&& has_name(after.disabled, other) == has_name(r.disabled, other)
            &&& has_name(after.hidden, other) == has_name(r.hidden, other)
        }),
{
    lemma_names_but(r.disabled, id, other);
    lemma_names_but(r.hidden, id, other);
    crate::text::ignoring_case_is_equivalence(id, id, id);
    lemma_name_pushed(names_but(r.disabled, id), id, other);
    lemma_name_pushed(names_but(r.disabled, id), id, id);
    lemma_name_pushed(names_but(r.hidden, id), id, other);
    lemma_name_pushed(names_but(r.hidden, id), id, id);
}

/// The target of a name in a list with one mapping more.
proof fn lemma_led_to_pushed(list: Seq<LinkView>, m: LinkView, name: Seq<char>)
    ensures
        led_to(list.push(m), name) == (match led_to(list, name) {
            Some(t) => Some(t),
            None => if same_ignoring_case(m.alias, name) {
                Some(m.target)
            } else {
                None
            },
        }),
    decreases list.len(),
{
    let longer = list.push(m);
    if list.len() == 0 {
        assert(longer.skip(1) =~= Seq::empty());
        assert(led_to(longer.skip(1), name) is None);
    } else {
        assert(longer.skip(1) =~= list.skip(1).push(m));
        lemma_led_to_pushed(list.skip(1), m, name);
    }
}

proof fn lemma_links_but(list: Seq<LinkView>, alias: Seq<char>, name: Seq<char>)
    ensures
        led_to(links_but(list, alias), name) == (if same_ignoring_case(alias, name) {
            None
        } else {
            led_to(list, name)
        }),
    decreases list.len(),
{
    if list.len() > 0 {
        let before = list.drop_last();
        let last = list.last();
        lemma_links_but(before, alias, name);
        assert(list =~= before.push(last));
        lemma_led_to_pushed(before, last, name);
        lemma_led_to_pushed(links_but(before, alias), last, name);
        crate::text::ignoring_case_is_equivalence(alias, last.alias, name);
        crate::text::ignoring_case_is_equivalence(last.alias, alias, name);
        crate::text::ignoring_case_is_equivalence(last.alias, name, alias);
        crate::text::ignoring_case_is_equivalence(alias, name, last.alias);
    }
}

/// A name leads to the model it was mapped to last; other names lead where they led.
pub proof fn name_leads_to_last_target(r: Seq<LinkView>, m: LinkView, name: Seq<char>)
    ensures
        led_to(links_but(r, m.alias).push(m), name) == (if same_ignoring_case(m.alias, name) {
            Some(m.target)
        } else {
            led_to(r, name)
        }),
{
    lemma_links_but(r, m.alias, name);
    lemma_led_to_pushed(links_but(r, m.alias), m, name);
}

/// A name whose mapping was removed leads nowhere; other names lead where they led.
pub proof fn removed_name_leads_nowhere(r: Seq<LinkView>, alias: Seq<char>, name: Seq<char>)
    ensures
        led_to(links_but(r, alias), name) == (if same_ignoring_case(alias, name) {
            None
        } else {
            led_to(r, name)
        }),
{
    lemma_links_but(r, alias, name);
}

fn set_membership(list: &Vec<String>, id: &str, present: bool) -> (out: Vec<String>)
    ensures
        words(out@) == membership(words(list@), id@, present),
{
    let ghost all = words(list@);
    let mut out: Vec<String> = Vec::new();
    assert(words(out@) =~= Seq::empty());
    assert(all.take(0) =~= Seq::empty());
    for i in 0..list.len()
        invariant
            all == words(list@),
            words(out@) == names_but(all.take(i as int), id@),
    {
        assert(all.take(i + 1).drop_last() =~= all.take(i as int));
        assert(all.take(i + 1).last() == list@[i as int]@);
        if !eq_ignore_case(list[i].as_str(), id) {
            push_word(&mut out, list[i].clone());
        }
    }
    assert(all.take(all.len() as int) =~= all);
    if present {
        push_word(&mut out, id.to_owned());
    }
    out
}

fn without_alias(list: &Vec<Mapping>, alias: &str) -> (out: Vec<Mapping>)
    ensures
        links(out@) == links_but(links(list@), alias@),
{
    let ghost all = links(list@);
    let mut out: Vec<Mapping> = Vec::new();
    assert(links(out@) =~= Seq::empty());
    assert(all.take(0) =~= Seq::empty());
    for i in 0..list.len()
        invariant
            all == links(list@),
            links(out@) == links_but(all.take(i as int), alias@),
    {
        assert(all.take(i + 1).drop_last() =~= all.take(i as int));
        assert(all.take(i + 1).last() == list@[i as int]@);
        if !eq_ignore_case(list[i].alias.as_str(), alias) {
            push_link(
                &mut out,
                Mapping { alias: list[i].alias.clone(), target: list[i].target.clone() },
            );
        }
    }
    assert(all.take(all.len() as int) =~= all);
    out
}

impl ModelRules {
    /// [`shared_state_set`].
    pub fn set_state(&mut self, id: &str, enabled: Option<bool>, hidden: Option<bool>)
        ensures
            final(self)@ == shared_state_set(old(self)@, id@, enabled, hidden),
    {
        if let Some(on) = enabled {
            self.disabled = set_membership(&self.disabled, id, !on);
        }
        if let Some(h) = hidden {
            self.hidden = set_membership(&self.hidden, id, h);
        }
    }

    /// Maps a name to a model, in place of what it led to.
    pub fn add_mapping(&mut self, alias: &str, target: &str)
        ensures
            final(self)@ == (SharedRulesView {
                mappings: links_but(old(self)@.mappings, alias@).push(
                    LinkView { alias: alias@, target: target@ },
                ),
                ..old(self)@
            }),
    {
        let mut list = without_alias(&self.mappings, alias);
        push_link(&mut list, Mapping { alias: alias.to_owned(), target: target.to_owned() });
        self.mappings = list;
    }

    /// Removes the mappings of a name. The result tells whether there was any.
    pub fn remove_mapping(&mut self, alias: &str) -> (removed: bool)
        ensures
            final(self)@ == (SharedRulesView {
                mappings: links_but(old(self)@.mappings, alias@),
                ..old(self)@
            }),
            removed == (led_to(old(self)@.mappings, alias@) is Some),
    {
        let removed = self.resolve_alias(alias).is_some();
        self.mappings = without_alias(&self.mappings, alias);
        removed
    }
}

// ─── Default rules ───────────────────────────────────────────

/// Rules on their way through a list of models, with what was done.
pub struct SharedSeeding {
    pub rules: SharedRulesView,
    pub disabled: Seq<Seq<char>>,
    pub mapped: Seq<Seq<char>>,
}

pub open spec fn start_of(r: SharedRulesView) -> SharedSeeding {
    SharedSeeding { rules: r, disabled: Seq::empty(), mapped: Seq::empty() }
}

pub open spec fn with_note(s: SharedSeeding, id: Seq<char>) -> SharedSeeding {
    SharedSeeding {
        rules: SharedRulesView { seeded: s.rules.seeded.push(id), ..s.rules },
        ..s
    }
}

/// A model switched off, unless it is off.
pub open spec fn turned_off(s: SharedSeeding, id: Seq<char>) -> SharedSeeding {
    if has_name(s.rules.disabled, id) {
        s
    } else {
        SharedSeeding {
            rules: SharedRulesView {
                disabled: membership(s.rules.disabled, id, true),
                ..s.rules
            },
            disabled: s.disabled.push(id),
            ..s
        }
    }
}

/// One model of a raccoon list: an internal one is switched off, one with a prefix is offered
/// without it too, unless that name is taken.
pub open spec fn shared_raccoon_step(
    s: SharedSeeding,
    raw: Seq<char>,
    ids: Seq<Seq<char>>,
) -> SharedSeeding {
    let id = trimmed(raw);
    let alias = id.skip(3);
    if id.len() == 0 || has_name(s.rules.seeded, id) {
        s
    } else if opaque_name(id) {
        turned_off(with_note(s, id), id)
    } else if begins(id, "sn-"@) && valid_name(alias) && led_to(s.rules.mappings, alias) is None
        && !has_name(ids, alias) {
        let s = with_note(s, id);
        SharedSeeding {
            rules: SharedRulesView {
                mappings: s.rules.mappings.push(LinkView { alias, target: id }),
                ..s.rules
            },
            mapped: s.mapped.push(arrow(alias, id)),
            ..s
        }
    } else {
        with_note(s, id)
    }
}

/// One model of the default provider's list: those that are not on the white list are switched
/// off.
pub open spec fn shared_whitelist_step(s: SharedSeeding, raw: Seq<char>) -> SharedSeeding {
    let id = trimmed(raw);
    if id.len() == 0 || has_name(s.rules.seeded, id) {
        s
    } else if has_name(workbuddy_white(), id) {
        with_note(s, id)
    } else {
        turned_off(with_note(s, id), id)
    }
}

/// The first `n` models of a raccoon list.
pub open spec fn shared_raccoon_seeded(r: SharedRulesView, ids: Seq<Seq<char>>, n: nat) -> SharedSeeding
    decreases n,
{
    if n == 0 {
        start_of(r)
    } else {
        shared_raccoon_step(shared_raccoon_seeded(r, ids, (n - 1) as nat), ids[n - 1], ids)
    }
}

/// The first `n` models of the default provider's list.
pub open spec fn shared_whitelist_seeded(r: SharedRulesView, ids: Seq<Seq<char>>, n: nat) -> SharedSeeding
    decreases n,
{
    if n == 0 {
        start_of(r)
    } else {
        shared_whitelist_step(shared_whitelist_seeded(r, ids, (n - 1) as nat), ids[n - 1])
    }
}

/// All models of a list are noted.
pub open spec fn all_noted(seeded: Seq<Seq<char>>, ids: Seq<Seq<char>>, n: nat) -> bool {
    forall|k: int|
        0 <= k < n && trimmed(#[trigger] ids[k]).len() > 0 ==> has_name(seeded, trimmed(ids[k]))
}

proof fn lemma_notes_of_one_more(seeded: Seq<Seq<char>>, ids: Seq<Seq<char>>, m: nat, after: Seq<Seq<char>>)
    requires
        m < ids.len(),
        all_noted(seeded, ids, m),
        ({
            let id = trimmed(ids[m as int]);
            if id.len() == 0 || has_name(seeded, id) {
                after == seeded
            } else {
                after == seeded.push(id)
            }
        }),
    ensures
        all_noted(after, ids, m + 1),
{
    let id = trimmed(ids[m as int]);
    crate::text::ignoring_case_is_equivalence(id, id, id);
    lemma_name_pushed(seeded, id, id);
    assert forall|k: int| 0 <= k < m + 1 && trimmed(#[trigger] ids[k]).len() > 0 implies has_name(
        after,
        trimmed(ids[k]),
    ) by {
        lemma_name_pushed(seeded, id, trimmed(ids[k]));
    }
}

proof fn lemma_raccoon_notes(r: SharedRulesView, ids: Seq<Seq<char>>, n: nat)
    requires
        n <= ids.len(),
    ensures
        all_noted(shared_raccoon_seeded(r, ids, n).rules.seeded, ids, n),
    decreases n,
{
    if n > 0 {
        let m = (n - 1) as nat;
        lemma_raccoon_notes(r, ids, m);
        lemma_notes_of_one_more(
            shared_raccoon_seeded(r, ids, m).rules.seeded,
            ids,
            m,
            shared_raccoon_seeded(r, ids, n).rules.seeded,
        );
    }
}

proof fn lemma_whitelist_notes(r: SharedRulesView, ids: Seq<Seq<char>>, n: nat)
    requires
        n <= ids.len(),
    ensures
        all_noted(shared_whitelist_seeded(r, ids, n).rules.seeded, ids, n),
    decreases n,
{
    if n > 0 {
        let m = (n - 1) as nat;
        lemma_whitelist_notes(r, ids, m);
        lemma_notes_of_one_more(
            shared_whitelist_seeded(r, ids, m).rules.seeded,
            ids,
            m,
            shared_whitelist_seeded(r, ids, n).rules.seeded,
        );
    }
}

proof fn lemma_nothing_new(r: SharedRulesView, ids: Seq<Seq<char>>, n: nat)
    requires
        n <= ids.len(),
        all_noted(r.seeded, ids, ids.len()),
    ensures
        shared_raccoon_seeded(r, ids, n) == start_of(r),
        shared_whitelist_seeded(r, ids, n) == start_of(r),
    decreases n,
{
    if n > 0 {
        lemma_nothing_new(r, ids, (n - 1) as nat);
        assert(trimmed(ids[n - 1]).len() > 0 ==> has_name(r.seeded, trimmed(ids[n - 1])));
    }
}

/// Models that got their default rules keep whatever was changed since.
pub proof fn shared_default_rules_are_given_once(
    r: SharedRulesView,
    changed: SharedRulesView,
    ids: Seq<Seq<char>>,
)
    ensures
        changed.seeded == shared_raccoon_seeded(r, ids, ids.len()).rules.seeded
            ==> shared_raccoon_seeded(changed, ids, ids.len()).rules == changed,
        changed.seeded == shared_whitelist_seeded(r, ids, ids.len()).rules.seeded
            ==> shared_whitelist_seeded(changed, ids, ids.len()).rules == changed,
{
    lemma_raccoon_notes(r, ids, ids.len());
    lemma_whitelist_notes(r, ids, ids.len());
    if all_noted(changed.seeded, ids, ids.len()) {
        lemma_nothing_new(changed, ids, ids.len());
    }
}

/// What is told of the default rules of a raccoon list.
pub open spec fn shared_raccoon_summary(s: SharedSeeding) -> Option<Seq<char>> {
    let off = "默认禁用内部模型 ["@ + joined(s.disabled, ", "@) + "]"@;
    let on = "默认新增映射 ["@ + joined(s.mapped, ", "@) + "]"@;
    if s.disabled.len() == 0 && s.mapped.len() == 0 {
        None
    } else if s.mapped.len() == 0 {
        Some("🧩 小浣熊模型默认规则: "@ + off)
    } else if s.disabled.len() == 0 {
        Some("🧩 小浣熊模型默认规则: "@ + on)
    } else {
        Some("🧩 小浣熊模型默认规则: "@ + (off + "；"@ + on))
    }
}

/// What is told of the default rules of the default provider's list.
pub open spec fn shared_whitelist_summary(s: SharedSeeding) -> Option<Seq<char>> {
    if s.disabled.len() == 0 {
        None
    } else {
        Some(
            "🧩 WorkBuddy模型默认规则: 默认只启用 ["@ + joined(workbuddy_white(), ", "@)
                + "]；默认禁用 "@ + decimal(s.disabled.len() as int) + " 个 ["@ + joined(
                s.disabled,
                ", "@,
            ) + "]"@,
        )
    }
}

pub open spec fn shared_seeding(
    rules: ModelRules,
    disabled: Seq<String>,
    mapped: Seq<String>,
) -> SharedSeeding {
    SharedSeeding { rules: rules@, disabled: words(disabled), mapped: words(mapped) }
}

fn turn_off(rules: &mut ModelRules, disabled: &mut Vec<String>, id: &str)
    ensures
        forall|m: Seq<String>| #[trigger]
            shared_seeding(*final(rules), final(disabled)@, m) == turned_off(
                shared_seeding(*old(rules), old(disabled)@, m),
                id@,
            ),
{
    if !rules.is_disabled(id) {
        rules.disabled = set_membership(&rules.disabled, id, true);
        push_word(disabled, id.to_owned());
    }
}

fn step_raccoon(
    rules: &mut ModelRules,
    disabled: &mut Vec<String>,
    mapped: &mut Vec<String>,
    raw: &str,
    ids: &Vec<String>,
)
    ensures
        shared_seeding(*final(rules), final(disabled)@, final(mapped)@) == shared_raccoon_step(
            shared_seeding(*old(rules), old(disabled)@, old(mapped)@),
            raw@,
            words(ids@),
        ),
{
    let id = trim(raw);
    if id.as_str().is_empty() || lists_name(&rules.seeded, id.as_str()) {
        return ;
    }
    push_word(&mut rules.seeded, id.clone());
    if is_opaque_raccoon_id(id.as_str()) {
        let ghost s = shared_seeding(*rules, disabled@, mapped@);
        turn_off(rules, disabled, id.as_str());
        assert(shared_seeding(*rules, disabled@, mapped@) == turned_off(s, id@));
    } else if starts_with(id.as_str(), "sn-") {
        proof {
            reveal_strlit("sn-");
        }
        let chars = chars_of(id.as_str());
        assert(chars@.subrange(3, chars@.len() as int) =~= id@.skip(3));
        let alias = text_between(&chars, 3, chars.len());
        if alias_valid(alias.as_str()) && rules.resolve_alias(alias.as_str()).is_none()
            && !lists_name(ids, alias.as_str()) {
            push_word(mapped, concat3(alias.as_str(), " → ", id.as_str()));
            push_link(&mut rules.mappings, Mapping { alias, target: id });
        }
    }
}

fn step_whitelist(
    rules: &mut ModelRules,
    disabled: &mut Vec<String>,
    raw: &str,
    white: &Vec<String>,
)
    requires
        words(white@) == workbuddy_white(),
    ensures
        forall|m: Seq<String>| #[trigger]
            shared_seeding(*final(rules), final(disabled)@, m) == shared_whitelist_step(
                shared_seeding(*old(rules), old(disabled)@, m),
                raw@,
            ),
{
    let id = trim(raw);
    if id.as_str().is_empty() || lists_name(&rules.seeded, id.as_str()) {
        return ;
    }
    push_word(&mut rules.seeded, id.clone());
    if !lists_name(white, id.as_str()) {
        turn_off(rules, disabled, id.as_str());
    }
}

impl ModelRules {
    /// Gives the models of a raccoon list their default rules.
    pub fn seed_raccoon_defaults(&mut self, ids: &Vec<String>) -> (out: SeedOutcome)
        ensures
            ({
                let s = shared_raccoon_seeded(old(self)@, words(ids@), ids@.len());
                &&& final(self)@ == s.rules
                &&& out.changed == (s.rules.seeded.len() != old(self)@.seeded.len())
                &&& text_view(out.summary) == shared_raccoon_summary(s)
            }),
    {
        let ghost start = self@;
        let ghost all = words(ids@);
        let before: usize = self.seeded.len();
        let mut disabled: Vec<String> = Vec::new();
        let mut mapped: Vec<String> = Vec::new();
        assert(words(disabled@) =~= Seq::empty());
        assert(words(mapped@) =~= Seq::empty());
        for n in 0..ids.len()
            invariant
                all == words(ids@),
                shared_seeding(*self, disabled@, mapped@) == shared_raccoon_seeded(
                    start,
                    all,
                    n as nat,
                ),
        {
            assert(all[n as int] == ids@[n as int]@);
            step_raccoon(self, &mut disabled, &mut mapped, ids[n].as_str(), ids);
        }
        assert(self@.seeded.len() == self.seeded@.len());
        assert(words(disabled@).len() == disabled@.len());
        assert(words(mapped@).len() == mapped@.len());
        let off = concat3("默认禁用内部模型 [", join(&disabled, ", ").as_str(), "]");
        let on = concat3("默认新增映射 [", join(&mapped, ", ").as_str(), "]");
        let summary = if disabled.len() == 0 && mapped.len() == 0 {
            None
        } else if mapped.len() == 0 {
            Some(concat("🧩 小浣熊模型默认规则: ", off.as_str()))
        } else if disabled.len() == 0 {
            Some(concat("🧩 小浣熊模型默认规则: ", on.as_str()))
        } else {
            let both = concat3(off.as_str(), "；", on.as_str());
            Some(concat("🧩 小浣熊模型默认规则: ", both.as_str()))
        };
        SeedOutcome { changed: self.seeded.len() != before, summary }
    }

    /// Gives the models of the default provider's list their default rules.
    pub fn seed_workbuddy_defaults(&mut self, ids: &Vec<String>) -> (out: SeedOutcome)
        ensures
            ({
                let s = shared_whitelist_seeded(old(self)@, words(ids@), ids@.len());
                &&& final(self)@ == s.rules
                &&& out.changed == (s.rules.seeded.len() != old(self)@.seeded.len())
                &&& text_view(out.summary) == shared_whitelist_summary(s)
            }),
    {
        let ghost start = self@;
        let ghost all = words(ids@);
        let before: usize = self.seeded.len();
        let mut white: Vec<String> = Vec::new();
        white.push("hy3".to_owned());
        white.push("hy4-preview-f".to_owned());
        white.push("deepseek-v4.1-flash".to_owned());
        assert(words(white@) =~= workbuddy_white());
        let mut disabled: Vec<String> = Vec::new();
        let ghost none = Seq::<String>::empty();
        assert(words(disabled@) =~= Seq::empty());
        assert(words(none) =~= Seq::empty());
        for n in 0..ids.len()
            invariant
                all == words(ids@),
                words(white@) == workbuddy_white(),
                shared_seeding(*self, disabled@, none) == shared_whitelist_seeded(
                    start,
                    all,
                    n as nat,
                ),
        {
            assert(all[n as int] == ids@[n as int]@);
            let ghost s = shared_seeding(*self, disabled@, none);
            step_whitelist(self, &mut disabled, ids[n].as_str(), &white);
            assert(shared_seeding(*self, disabled@, none) == shared_whitelist_step(
                s,
                all[n as int],
            ));
        }
        assert(self@.seeded.len() == self.seeded@.len());
        assert(words(disabled@).len() == disabled@.len());
        let summary = if disabled.len() == 0 {
            None
        } else {
            let mut text = concat("🧩 WorkBuddy模型默认规则: 默认只启用 [", join(
                &white,
                ", ",
            ).as_str());
            text.append("]；默认禁用 ");
            text.append(decimal_u64(disabled.len() as u64).as_str());
            text.append(" 个 [");
            text.append(join(&disabled, ", ").as_str());
            text.append("]");
            Some(text)
        };
        SeedOutcome { changed: self.seeded.len() != before, summary }
    }
}

} // verus!
