//! What the rules about models say after each operation, model by model.
use vstd::prelude::*;
use crate::json::{Fields, Json};
use crate::protocol::stream_laws::{part_of, said};
use crate::model_rules::{
    any_rule, has_mapping, has_name, lifting_frees, making_blocks, mapped_for_others, mapping_in,
    mapping_removed, mappings_for, mappings_in, mappings_without, maps, other_names, rule_in,
    rule_lifted, rule_made, rule_matches, rules_but, rules_in, rules_in_config, rules_without,
    same_mapping, state_set, valid_name, was_seeded, with_mapping, with_others, MappingView,
    ModelRulesView, RuleView,
};
use crate::model_seeds::{
    alias_key, alias_served, extra_given, opaque_name, qoder_white, raccoon_rules, serves_alias,
    whitelist_step, workbuddy_white, ExtraAlias, Seeding,
};
use crate::shared_rules::{
    led_to, links_but, names_but, names_for, shared_raccoon_step, shared_whitelist_step, LinkView,
    SharedSeeding,
};
use crate::text::{begins, ignoring_case_is_equivalence, same_ignoring_case, trimmed};

verus! {

// ─── Switching and hiding ────────────────────────────────────

proof fn lemma_pushed(list: Seq<RuleView>, e: RuleView, provider: Seq<char>, id: Seq<char>)
    ensures
        any_rule(list.push(e), provider, id) == (any_rule(list, provider, id) || rule_matches(
            e,
            provider,
            id,
        )),
{
    let all = list.push(e);
    if any_rule(list, provider, id) {
        let i = choose|i: int| 0 <= i < list.len() && rule_matches(#[trigger] list[i], provider, id);
        assert(all[i] == list[i]);
    }
    if rule_matches(e, provider, id) {
        assert(all[list.len() as int] == e);
    }
    if any_rule(all, provider, id) && !rule_matches(e, provider, id) {
        let i = choose|i: int| 0 <= i < all.len() && rule_matches(#[trigger] all[i], provider, id);
        assert(list[i] == all[i]);
    }
}

proof fn lemma_last(list: Seq<RuleView>, provider: Seq<char>, id: Seq<char>)
    requires
        list.len() > 0,
    ensures
        any_rule(list, provider, id) == (any_rule(list.drop_last(), provider, id) || rule_matches(
            list.last(),
            provider,
            id,
        )),
{
    assert(list.drop_last().push(list.last()) =~= list);
    lemma_pushed(list.drop_last(), list.last(), provider, id);
}

/// Rules on another model.
proof fn lemma_other_model(e: RuleView, q: Seq<char>, id: Seq<char>, other: Seq<char>)
    requires
        !same_ignoring_case(id, other),
        same_ignoring_case(e.id, id),
    ensures
        !rule_matches(e, q, other),
{
    ignoring_case_is_equivalence(e.id, id, other);
    ignoring_case_is_equivalence(id, e.id, other);
}

proof fn lemma_rules_but(
    list: Seq<RuleView>,
    provider: Option<Seq<char>>,
    id: Seq<char>,
    q: Seq<char>,
    other: Seq<char>,
)
    requires
        !same_ignoring_case(id, other),
    ensures
        any_rule(rules_but(list, provider, id), q, other) == any_rule(list, q, other),
    decreases list.len(),
{
    if list.len() > 0 {
        lemma_rules_but(list.drop_last(), provider, id, q, other);
        lemma_last(list, q, other);
        if same_ignoring_case(list.last().id, id) {
            lemma_other_model(list.last(), q, id, other);
        }
        lemma_pushed(rules_but(list.drop_last(), provider, id), list.last(), q, other);
    }
}

proof fn lemma_rules_without(
    list: Seq<RuleView>,
    provider: Seq<char>,
    id: Seq<char>,
    q: Seq<char>,
    other: Seq<char>,
)
    requires
        !same_ignoring_case(id, other),
    ensures
        any_rule(rules_without(list, provider, id), q, other) == any_rule(list, q, other),
    decreases list.len(),
{
    if list.len() > 0 {
        lemma_rules_without(list.drop_last(), provider, id, q, other);
        lemma_last(list, q, other);
        if same_ignoring_case(list.last().id, id) {
            lemma_other_model(list.last(), q, id, other);
        }
        lemma_pushed(rules_without(list.drop_last(), provider, id), list.last(), q, other);
    }
}

proof fn lemma_with_others(
    list: Seq<RuleView>,
    provider: Seq<char>,
    id: Seq<char>,
    others: Seq<Seq<char>>,
    n: nat,
    q: Seq<char>,
    other: Seq<char>,
)
    requires
        !same_ignoring_case(id, other),
        n <= others.len(),
    ensures
        any_rule(with_others(list, provider, id, others, n), q, other) == any_rule(list, q, other),
    decreases n,
{
    if n > 0 {
        lemma_with_others(list, provider, id, others, (n - 1) as nat, q, other);
        let e = RuleView { provider: Some(others[n - 1]), id };
        ignoring_case_is_equivalence(id, id, id);
        lemma_other_model(e, q, id, other);
        lemma_pushed(with_others(list, provider, id, others, (n - 1) as nat), e, q, other);
    }
}

/// Switched off, a model of a provider is off, and switched on it is on; hidden it is hidden, and
/// shown it is shown. What was not said stays, and so does every other model.
pub proof fn model_is_switched_as_said(
    r: ModelRulesView,
    provider: Seq<char>,
    id: Seq<char>,
    enabled: Option<bool>,
    hidden: Option<bool>,
    others: Seq<Seq<char>>,
    q: Seq<char>,
    other: Seq<char>,
)
    requires
        !same_ignoring_case(id, other),
    ensures
        ({
            let after = state_set(r, Some(provider), id, enabled, hidden, others);
            &&& enabled is Some ==> any_rule(after.disabled, provider, id) == !enabled->0
            &&& enabled is None ==> after.disabled == r.disabled
            &&& hidden is Some ==> any_rule(after.hidden, provider, id) == hidden->0
            &&& hidden is None ==> after.hidden == r.hidden
            &&& any_rule(after.disabled, q, other) == any_rule(r.disabled, q, other)
            &&& any_rule(after.hidden, q, other) == any_rule(r.hidden, q, other)
            &&& after.mappings == r.mappings
            &&& after.seeded == r.seeded
        }),
{
    lemma_list_set(r.disabled, provider, id, others, q, other);
    lemma_list_set(r.hidden, provider, id, others, q, other);
}

proof fn lemma_list_set(
    list: Seq<RuleView>,
    provider: Seq<char>,
    id: Seq<char>,
    others: Seq<Seq<char>>,
    q: Seq<char>,
    other: Seq<char>,
)
    requires
        !same_ignoring_case(id, other),
    ensures
        any_rule(rule_made(list, Some(provider), id), provider, id),
        !any_rule(rule_lifted(list, provider, id, others), provider, id),
        any_rule(rule_made(list, Some(provider), id), q, other) == any_rule(list, q, other),
        any_rule(rule_lifted(list, provider, id, others), q, other) == any_rule(list, q, other),
{
    making_blocks(list, provider, id);
    lifting_frees(list, provider, id, others);
    let e = RuleView { provider: Some(provider), id };
    ignoring_case_is_equivalence(id, id, id);
    lemma_other_model(e, q, id, other);
    lemma_rules_but(list, Some(provider), id, q, other);
    lemma_pushed(rules_but(list, Some(provider), id), e, q, other);
    lemma_rules_without(list, provider, id, q, other);
    lemma_with_others(
        rules_without(list, provider, id),
        provider,
        id,
        others,
        others.len(),
        q,
        other,
    );
}

// ─── Mappings ────────────────────────────────────────────────

/// A name leads to a model of a provider.
pub open spec fn leads(
    list: Seq<MappingView>,
    alias: Seq<char>,
    target: Seq<char>,
    provider: Seq<char>,
) -> bool {
    exists|i: int|
        0 <= i < list.len() && leads_by(#[trigger] list[i], alias, target, provider)
}

pub open spec fn leads_by(
    m: MappingView,
    alias: Seq<char>,
    target: Seq<char>,
    provider: Seq<char>,
) -> bool {
    same_ignoring_case(m.alias, alias) && same_ignoring_case(m.target, target) && (m.provider
        is None || same_ignoring_case(m.provider->0, provider))
}

proof fn lemma_leads_pushed(
    list: Seq<MappingView>,
    m: MappingView,
    alias: Seq<char>,
    target: Seq<char>,
    q: Seq<char>,
)
    ensures
        leads(list.push(m), alias, target, q) == (leads(list, alias, target, q) || leads_by(
            m,
            alias,
            target,
            q,
        )),
{
    let all = list.push(m);
    if leads(list, alias, target, q) {
        let i = choose|i: int|
            0 <= i < list.len() && leads_by(#[trigger] list[i], alias, target, q);
        assert(all[i] == list[i]);
    }
    if leads_by(m, alias, target, q) {
        assert(all[list.len() as int] == m);
    }
    if leads(all, alias, target, q) && !leads_by(m, alias, target, q) {
        let i = choose|i: int| 0 <= i < all.len() && leads_by(#[trigger] all[i], alias, target, q);
        assert(list[i] == all[i]);
    }
}

/// A mapping that is added leads its name to its model for its provider, and changes nothing for
/// other names.
pub proof fn added_name_leads_to_its_model(
    list: Seq<MappingView>,
    n: MappingView,
    q: Seq<char>,
    alias: Seq<char>,
    target: Seq<char>,
)
    requires
        n.provider is None || same_ignoring_case(n.provider->0, q),
    ensures
        leads(with_mapping(list, n), n.alias, n.target, q),
        !same_ignoring_case(n.alias, alias) || !same_ignoring_case(n.target, target) ==> leads(
            with_mapping(list, n),
            alias,
            target,
            q,
        ) == leads(list, alias, target, q),
{
    ignoring_case_is_equivalence(n.alias, n.alias, n.alias);
    ignoring_case_is_equivalence(n.target, n.target, n.target);
    lemma_leads_pushed(list, n, n.alias, n.target, q);
    lemma_leads_pushed(list, n, alias, target, q);
    if has_mapping(list, n) {
        let i = choose|i: int| 0 <= i < list.len() && same_mapping(#[trigger] list[i], n);
        if n.provider is Some {
            ignoring_case_is_equivalence(list[i].provider->0, n.provider->0, q);
        }
        assert(leads_by(list[i], n.alias, n.target, q));
    }
}

/// What is left of the mappings: those that do not go, in their order.
pub proof fn removal_is_a_filter(
    list: Seq<MappingView>,
    alias: Seq<char>,
    target: Seq<char>,
    provider: Option<Seq<char>>,
)
    ensures
        mappings_without(list, alias, target, provider) == list.filter(
            |m: MappingView|
                !(same_ignoring_case(m.alias, alias) && same_ignoring_case(m.target, target) && (
                m.provider is None || provider is None || same_ignoring_case(
                    m.provider->0,
                    provider->0,
                ))),
        ),
    decreases list.len(),
{
    reveal(Seq::filter);
    if list.len() > 0 {
        removal_is_a_filter(list.drop_last(), alias, target, provider);
    }
}

proof fn lemma_without_leads(
    list: Seq<MappingView>,
    alias: Seq<char>,
    target: Seq<char>,
    provider: Option<Seq<char>>,
    a: Seq<char>,
    t: Seq<char>,
    q: Seq<char>,
)
    ensures
        provider is None || same_ignoring_case(provider->0, q) ==> !leads(
            mappings_without(list, alias, target, provider),
            alias,
            target,
            q,
        ),
        !same_ignoring_case(alias, a) || !same_ignoring_case(target, t) ==> leads(
            mappings_without(list, alias, target, provider),
            a,
            t,
            q,
        ) == leads(list, a, t, q),
    decreases list.len(),
{
    if list.len() > 0 {
        let short = list.drop_last();
        let m = list.last();
        lemma_without_leads(short, alias, target, provider, a, t, q);
        assert(short.push(m) =~= list);
        let rest = mappings_without(short, alias, target, provider);
        lemma_leads_pushed(short, m, a, t, q);
        lemma_leads_pushed(rest, m, a, t, q);
        lemma_leads_pushed(rest, m, alias, target, q);
        ignoring_case_is_equivalence(alias, m.alias, a);
        ignoring_case_is_equivalence(m.alias, alias, a);
        ignoring_case_is_equivalence(target, m.target, t);
        ignoring_case_is_equivalence(m.target, target, t);
        if m.provider is Some && provider is Some {
            ignoring_case_is_equivalence(m.provider->0, q, provider->0);
            ignoring_case_is_equivalence(provider->0, q, m.provider->0);
        }
    }
}

proof fn lemma_mapped_for_others(
    list: Seq<MappingView>,
    alias: Seq<char>,
    target: Seq<char>,
    owner: Seq<char>,
    others: Seq<Seq<char>>,
    n: nat,
    a: Seq<char>,
    t: Seq<char>,
    q: Seq<char>,
)
    requires
        n <= others.len(),
    ensures
        ({
            let r = mapped_for_others(list, alias, target, owner, others, n);
            &&& same_ignoring_case(owner, q) ==> leads(r, alias, target, q) == leads(
                list,
                alias,
                target,
                q,
            )
            &&& leads(list, alias, target, q) ==> leads(r, alias, target, q)
            &&& !same_ignoring_case(owner, q) && (exists|k: int|
                0 <= k < n && #[trigger] others[k] == q) ==> leads(
                r,
                alias,
                target,
                q,
            )
            &&& !same_ignoring_case(alias, a) || !same_ignoring_case(target, t) ==> leads(
                r,
                a,
                t,
                q,
            ) == leads(list, a, t, q)
        }),
    decreases n,
{
    if n > 0 {
        lemma_mapped_for_others(list, alias, target, owner, others, (n - 1) as nat, a, t, q);
        let before = mapped_for_others(list, alias, target, owner, others, (n - 1) as nat);
        let m = MappingView { alias, target, provider: Some(others[n - 1]) };
        lemma_leads_pushed(before, m, alias, target, q);
        lemma_leads_pushed(before, m, a, t, q);
        ignoring_case_is_equivalence(alias, alias, a);
        ignoring_case_is_equivalence(target, target, t);
        ignoring_case_is_equivalence(others[n - 1], q, owner);
        ignoring_case_is_equivalence(owner, q, others[n - 1]);
        ignoring_case_is_equivalence(q, q, q);
        if has_mapping(before, m) {
            let i = choose|i: int| 0 <= i < before.len() && same_mapping(#[trigger] before[i], m);
            if others[n - 1] == q {
                assert(leads_by(before[i], alias, target, q));
            }
        }
    }
}

/// A mapping that is removed for a provider leads nowhere for it, and where it was for all, still
/// leads to the model for each of the others. Other names lead where they led.
pub proof fn removed_name_is_gone_for_its_provider(
    list: Seq<MappingView>,
    alias: Seq<char>,
    target: Seq<char>,
    owner: Seq<char>,
    others: Seq<Seq<char>>,
    a: Seq<char>,
    t: Seq<char>,
    q: Seq<char>,
)
    ensures
        ({
            let r = mapping_removed(list, alias, target, Some(owner), others);
            &&& !leads(r, alias, target, owner)
            &&& others.contains(q) && !same_ignoring_case(owner, q) && (exists|i: int|
                0 <= i < list.len() && maps(#[trigger] list[i], alias, target) && list[i].provider
                    is None) ==> leads(r, alias, target, q)
            &&& !same_ignoring_case(alias, a) || !same_ignoring_case(target, t) ==> leads(
                r,
                a,
                t,
                q,
            ) == leads(list, a, t, q)
            &&& !leads(mapping_removed(list, alias, target, None, others), alias, target, q)
        }),
{
    ignoring_case_is_equivalence(owner, owner, owner);
    lemma_without_leads(list, alias, target, Some(owner), a, t, q);
    lemma_without_leads(list, alias, target, Some(owner), a, t, owner);
    lemma_without_leads(list, alias, target, None, a, t, q);
    let rest = mappings_without(list, alias, target, Some(owner));
    lemma_mapped_for_others(rest, alias, target, owner, others, others.len(), a, t, q);
    lemma_mapped_for_others(rest, alias, target, owner, others, others.len(), a, t, owner);
    if others.contains(q) {
        let k = choose|k: int| 0 <= k < others.len() && others[k] == q;
        assert(others[k] == q);
    }
}

/// The mappings of a name are all that have it, in their order, and the other names of a model
/// are all that lead to it.
pub proof fn names_are_found(list: Seq<MappingView>, model: Seq<char>, provider: Seq<char>)
    ensures
        mappings_for(list, model) == list.filter(
            |m: MappingView| same_ignoring_case(m.alias, model),
        ),
        other_names(list, provider, model) == list.filter(
            |m: MappingView|
                same_ignoring_case(m.target, model) && (m.provider is None || same_ignoring_case(
                    m.provider->0,
                    provider,
                )),
        ).map_values(|m: MappingView| m.alias),
    decreases list.len(),
{
    reveal(Seq::filter);
    if list.len() > 0 {
        names_are_found(list.drop_last(), model, provider);
    }
    assert(other_names(list, provider, model) =~= list.filter(
        |m: MappingView|
            same_ignoring_case(m.target, model) && (m.provider is None || same_ignoring_case(
                m.provider->0,
                provider,
            )),
    ).map_values(|m: MappingView| m.alias));
}

/// The same of the rules that all providers share: a name leads to the model of its first
/// mapping, and the names of a model are all that lead to it.
pub proof fn shared_names_are_found(list: Seq<LinkView>, name: Seq<char>)
    ensures
        names_for(list, name) == list.filter(
            |m: LinkView| same_ignoring_case(m.target, name),
        ).map_values(|m: LinkView| m.alias),
        links_but(list, name) == list.filter(|m: LinkView| !same_ignoring_case(m.alias, name)),
    decreases list.len(),
{
    reveal(Seq::filter);
    if list.len() > 0 {
        shared_names_are_found(list.drop_last(), name);
    }
    assert(names_for(list, name) =~= list.filter(
        |m: LinkView| same_ignoring_case(m.target, name),
    ).map_values(|m: LinkView| m.alias));
}

/// A shared name leads to the model of its first mapping.
pub proof fn shared_name_leads_to_first(list: Seq<LinkView>, name: Seq<char>, i: int)
    requires
        0 <= i < list.len(),
        same_ignoring_case(list[i].alias, name),
        forall|j: int| 0 <= j < i ==> !same_ignoring_case((#[trigger] list[j]).alias, name),
    ensures
        led_to(list, name) == Some(list[i].target),
    decreases list.len(),
{
    if i > 0 {
        assert(!same_ignoring_case(list[0].alias, name));
        let rest = list.skip(1);
        assert forall|j: int| 0 <= j < i - 1 implies !same_ignoring_case(
            (#[trigger] rest[j]).alias,
            name,
        ) by {
            assert(rest[j] == list[j + 1]);
        }
        shared_name_leads_to_first(rest, name, i - 1);
    }
}

// ─── Default rules ───────────────────────────────────────────

/// The models of two providers that start switched on.
pub proof fn models_that_start_switched_on(id: Seq<char>)
    ensures
        has_name(workbuddy_white(), id) <==> same_ignoring_case("hy3"@, id) || same_ignoring_case(
            "hy4-preview-f"@,
            id,
        ) || same_ignoring_case("deepseek-v4.1-flash"@, id),
        has_name(qoder_white(), id) <==> same_ignoring_case("Qwen3.8-Flash"@, id),
{
    let w = workbuddy_white();
    assert(w[0] == "hy3"@ && w[1] == "hy4-preview-f"@ && w[2] == "deepseek-v4.1-flash"@);
    let q = qoder_white();
    assert(q[0] == "Qwen3.8-Flash"@);
}

/// A model that comes up for the first time starts switched off unless it is on the white list,
/// and is noted; one that came up before is left as it is.
pub proof fn new_models_start_by_the_white_list(
    s: Seeding,
    raw: Seq<char>,
    provider: Seq<char>,
    white: Seq<Seq<char>>,
)
    ensures
        ({
            let t = whitelist_step(s, raw, provider, white);
            let id = trimmed(raw);
            let known = id.len() == 0 || was_seeded(s.rules.seeded, provider, id);
            &&& known ==> t == s
            &&& !known && !has_name(white, id) ==> any_rule(t.rules.disabled, provider, id)
            &&& !known && has_name(white, id) ==> t.rules.disabled == s.rules.disabled
            &&& !known ==> was_seeded(t.rules.seeded, provider, id)
            &&& t.rules.hidden == s.rules.hidden
            &&& t.rules.mappings == s.rules.mappings
        }),
{
    let id = trimmed(raw);
    making_blocks(s.rules.disabled, provider, id);
    let key = crate::model_rules::seed_key(provider, id);
    ignoring_case_is_equivalence(key, key, key);
    let noted = s.rules.seeded.push(key);
    assert(noted[s.rules.seeded.len() as int] == key);
    assert(has_name(noted, key));
}

/// The same where the rules are shared by all providers.
pub proof fn shared_models_start_by_the_white_list(s: SharedSeeding, raw: Seq<char>)
    ensures
        ({
            let t = shared_whitelist_step(s, raw);
            let id = trimmed(raw);
            let known = id.len() == 0 || has_name(s.rules.seeded, id);
            &&& known ==> t == s
            &&& !known && !has_name(workbuddy_white(), id) ==> has_name(t.rules.disabled, id)
            &&& !known && has_name(workbuddy_white(), id) ==> t.rules.disabled == s.rules.disabled
            &&& !known ==> has_name(t.rules.seeded, id)
            &&& t.rules.hidden == s.rules.hidden
            &&& t.rules.mappings == s.rules.mappings
        }),
{
    let id = trimmed(raw);
    ignoring_case_is_equivalence(id, id, id);
    let noted = s.rules.seeded.push(id);
    assert(noted[s.rules.seeded.len() as int] == id);
    let off = names_but(s.rules.disabled, id).push(id);
    assert(off[off.len() - 1] == id);
}

/// An internal model starts switched off. One with the prefix can be called without it too, where
/// that name is free.
pub proof fn raccoon_models_start_so(s: Seeding, id: Seq<char>, ids: Seq<Seq<char>>)
    ensures
        ({
            let t = raccoon_rules(s, id, ids);
            let short = id.skip(3);
            &&& opaque_name(id) ==> any_rule(t.rules.disabled, "raccoon"@, id) && t.rules.mappings
                == s.rules.mappings
            &&& !opaque_name(id) ==> t.rules.disabled == s.rules.disabled
            &&& !opaque_name(id) && begins(id, "sn-"@) && valid_name(short) && !has_name(ids, short)
                && (forall|i: int|
                0 <= i < s.rules.mappings.len() ==> !same_ignoring_case(
                    (#[trigger] s.rules.mappings[i]).alias,
                    short,
                )) ==> leads(t.rules.mappings, short, id, "raccoon"@)
            &&& !opaque_name(id) && !begins(id, "sn-"@) ==> t == s
        }),
{
    making_blocks(s.rules.disabled, "raccoon"@, id);
    let short = id.skip(3);
    let m = MappingView { alias: short, target: id, provider: Some("raccoon"@) };
    ignoring_case_is_equivalence(short, short, short);
    ignoring_case_is_equivalence(id, id, id);
    ignoring_case_is_equivalence("raccoon"@, "raccoon"@, "raccoon"@);
    lemma_leads_pushed(s.rules.mappings, m, short, id, "raccoon"@);
}

// ─── Rules of the configuration ──────────────────────────────

proof fn lemma_rule_read(items: Seq<Json>, i: int, e: RuleView)
    requires
        0 <= i < items.len(),
        rule_in(items[i]) == Some(e),
    ensures
        rules_in(items).contains(e),
    decreases items.len(),
{
    let all = rules_in(items);
    let short = items.drop_last();
    if i < short.len() {
        lemma_rule_read(short, i, e);
        let before = rules_in(short);
        let k = choose|k: int| 0 <= k < before.len() && before[k] == e;
        assert(all[k] == e);
    } else {
        assert(all[all.len() - 1] == e);
    }
}

proof fn lemma_mapping_read(items: Seq<Json>, i: int, m: MappingView)
    requires
        0 <= i < items.len(),
        mapping_in(items[i]) == Some(m),
    ensures
        mappings_in(items).contains(m),
    decreases items.len(),
{
    let all = mappings_in(items);
    let short = items.drop_last();
    if i < short.len() {
        lemma_mapping_read(short, i, m);
        let before = mappings_in(short);
        let k = choose|k: int| 0 <= k < before.len() && before[k] == m;
        assert(all[k] == m);
    } else {
        assert(all[all.len() - 1] == m);
    }
}

/// The text of a value without the blanks around it.
pub open spec fn tidied(v: Json) -> Seq<char> {
    trimmed(said(v))
}

/// A rule of the configuration counts: a bare id for every provider, one with a provider for that
/// provider.
pub proof fn configured_rule_counts(
    raw: Fields,
    items: Seq<Json>,
    i: int,
    key: Seq<char>,
    q: Seq<char>,
)
    requires
        key == "disabled"@ || key == "hidden"@,
        part_of(part_of(Json::Obj(raw), "modelRules"@), key) == Json::Arr(items),
        0 <= i < items.len(),
    ensures
        ({
            let r = rules_in_config(raw);
            let list = if key == "disabled"@ {
                r.disabled
            } else {
                r.hidden
            };
            let id = part_of(items[i], "id"@);
            let provider = part_of(items[i], "provider"@);
            &&& items[i] is Str && tidied(items[i]).len() > 0 ==> any_rule(list, q, tidied(items[i]))
            &&& items[i] is Obj && id is Str && tidied(id).len() > 0 && provider is Str && tidied(
                provider,
            ).len() > 0 ==> any_rule(list, tidied(provider), tidied(id))
            &&& items[i] is Obj && id is Str && tidied(id).len() > 0 && provider == Json::Null
                ==> any_rule(list, q, tidied(id))
        }),
{
    reveal_strlit("disabled");
    reveal_strlit("hidden");
    assert("disabled"@.len() == 8 && "hidden"@.len() == 6);
    assert(trimmed(Seq::<char>::empty()).len() == 0);
    if rule_in(items[i]) is Some {
        let e = rule_in(items[i])->0;
        lemma_rule_read(items, i, e);
        let list = rules_in(items);
        let k = choose|k: int| 0 <= k < list.len() && list[k] == e;
        ignoring_case_is_equivalence(e.id, e.id, e.id);
        if e.provider is Some {
            ignoring_case_is_equivalence(e.provider->0, e.provider->0, e.provider->0);
        }
        assert(rule_matches(list[k], q, e.id) || e.provider is Some);
        if e.provider is Some {
            assert(rule_matches(list[k], e.provider->0, e.id));
        }
    }
}

/// A mapping of the configuration leads its name to its model, for its provider or for all.
pub proof fn configured_mapping_leads(raw: Fields, items: Seq<Json>, i: int, q: Seq<char>)
    requires
        part_of(part_of(Json::Obj(raw), "modelRules"@), "mappings"@) == Json::Arr(items),
        0 <= i < items.len(),
        part_of(items[i], "alias"@) is Str,
        tidied(part_of(items[i], "alias"@)).len() > 0,
        part_of(items[i], "target"@) is Str,
        tidied(part_of(items[i], "target"@)).len() > 0,
        part_of(items[i], "provider"@) == Json::Null || (part_of(items[i], "provider"@) is Str
            && tidied(part_of(items[i], "provider"@)) == q && q.len() > 0),
    ensures
        leads(
            rules_in_config(raw).mappings,
            tidied(part_of(items[i], "alias"@)),
            tidied(part_of(items[i], "target"@)),
            q,
        ),
{
    assert(trimmed(Seq::<char>::empty()).len() == 0);
    let m = mapping_in(items[i])->0;
    lemma_mapping_read(items, i, m);
    let list = mappings_in(items);
    let k = choose|k: int| 0 <= k < list.len() && list[k] == m;
    ignoring_case_is_equivalence(m.alias, m.alias, m.alias);
    ignoring_case_is_equivalence(m.target, m.target, m.target);
    ignoring_case_is_equivalence(q, q, q);
    assert(leads_by(list[k], m.alias, m.target, q));
}

/// A name for a model has at most 128 characters, each a letter or a digit of ASCII or one of
/// five signs.
pub proof fn names_are_made_of(alias: Seq<char>)
    ensures
        valid_name(alias) <==> 0 < alias.len() <= 128 && forall|i: int|
            0 <= i < alias.len() ==> {
                let c = #[trigger] alias[i];
                ||| 'a' <= c <= 'z'
                ||| 'A' <= c <= 'Z'
                ||| '0' <= c <= '9'
                ||| c == '-' || c == '_' || c == '.' || c == '/' || c == ':'
            },
{
    if valid_name(alias) {
        assert forall|i: int| 0 <= i < alias.len() implies {
            let c = #[trigger] alias[i];
            ||| 'a' <= c <= 'z'
            ||| 'A' <= c <= 'Z'
            ||| '0' <= c <= '9'
            ||| c == '-' || c == '_' || c == '.' || c == '/' || c == ':'
        } by {
            assert(crate::model_rules::name_char(alias[i]));
        }
    }
}

/// The same of raccoon models where the rules are shared by all providers.
pub proof fn shared_raccoon_models_start_so(s: SharedSeeding, raw: Seq<char>, ids: Seq<Seq<char>>)
    ensures
        ({
            let t = shared_raccoon_step(s, raw, ids);
            let id = trimmed(raw);
            let short = id.skip(3);
            let known = id.len() == 0 || has_name(s.rules.seeded, id);
            &&& known ==> t == s
            &&& !known ==> has_name(t.rules.seeded, id)
            &&& !known && opaque_name(id) ==> has_name(t.rules.disabled, id)
            &&& !known && !opaque_name(id) ==> t.rules.disabled == s.rules.disabled
            &&& !known && !opaque_name(id) && begins(id, "sn-"@) && valid_name(short) && led_to(
                s.rules.mappings,
                short,
            ) is None && !has_name(ids, short) ==> t.rules.mappings == s.rules.mappings.push(
                LinkView { alias: short, target: id },
            )
            &&& !known && !begins(id, "sn-"@) ==> t.rules.mappings == s.rules.mappings
        }),
{
    let id = trimmed(raw);
    ignoring_case_is_equivalence(id, id, id);
    let noted = s.rules.seeded.push(id);
    assert(noted[s.rules.seeded.len() as int] == id);
    let off = names_but(s.rules.disabled, id).push(id);
    assert(off[off.len() - 1] == id);
    reveal_strlit("raccoon-");
    reveal_strlit("sn-");
    assert("raccoon-"@[0] == 'r' && "sn-"@[0] == 's');
    assert("raccoon-"@.len() == 8 && "sn-"@.len() == 3);
    if opaque_name(id) {
        assert(id.take(8)[0] == id[0]);
        if begins(id, "sn-"@) {
            assert(id.take(3)[0] == id[0]);
        }
    }
}

/// A further name of a model is given once: where no model has it, it leads to the model.
pub proof fn further_name_is_given(
    s: Seeding,
    e: ExtraAlias,
    provider: Seq<char>,
    id: Seq<char>,
    ids: Seq<Seq<char>>,
)
    requires
        same_ignoring_case(e.owner, provider),
        same_ignoring_case(e.target, id),
        !has_name(s.rules.seeded, alias_key(provider, id, e.alias)),
        !has_name(ids, e.alias),
    ensures
        leads(extra_given(s, e, provider, id, ids).rules.mappings, e.alias, id, provider),
        extra_given(s, e, provider, id, ids).rules.disabled == s.rules.disabled,
{
    ignoring_case_is_equivalence(e.alias, e.alias, e.alias);
    ignoring_case_is_equivalence(id, id, id);
    ignoring_case_is_equivalence(provider, provider, provider);
    let m = MappingView { alias: e.alias, target: id, provider: Some(provider) };
    lemma_leads_pushed(s.rules.mappings, m, e.alias, id, provider);
    if alias_served(s.rules.mappings, e.alias, e.target, provider) {
        let list = s.rules.mappings;
        let i = choose|i: int|
            0 <= i < list.len() && serves_alias(#[trigger] list[i], e.alias, e.target, provider);
        ignoring_case_is_equivalence(list[i].target, e.target, id);
        assert(leads_by(list[i], e.alias, id, provider));
    }
}

} // verus!
