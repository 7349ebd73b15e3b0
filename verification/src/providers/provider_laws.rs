//! Which providers get a request, which models are advertised, and what a balance says.
use vstd::prelude::*;
use crate::account_store::store::serves;
use crate::json::{field, find, find_of_put, json_int, lemma_find_at, lemma_find_none, Fields, Json};
use crate::model_rules::{blocked, has_name, mappings_for, MappingView, ModelRulesView};
use crate::number::NumberView;
use crate::protocol::stream_laws::{part_of, said};
use crate::providers::catalog::{
    active, active_sources, alias_items, all_ids, available, carriers, claimed_by, default_entries,
    default_step, defaults, enabled_first, entries_with, first_of_its_id, ids_of, label_of,
    lists_id, managed_entry, merged, models_json, new_ids, offered, offers_of, providers_of,
    registered, renamed, session_list, shown_entry, takes, usable_default, wanted, withheld,
    Defaults, EntryView, Offer, SourceView,
};
use crate::providers::catpaw_balance::{
    asked_account, balance_token, balance_uid, cookie_of, headers_of, reply_meaning, usage_of,
    wallet, BalanceFault,
};
use crate::providers::router::{chain_with, enabled_for, joined_chain, led_by, route};
use crate::shared_rules::{names_for, LinkView, SharedRulesView};
use crate::text::{lowered, same_ignoring_case, stands_at, trimmed};

verus! {

// ─── Who has a model ─────────────────────────────────────────

/// The list has an entry with the id, whatever the case.
pub open spec fn has_id(s: SourceView, target: Seq<char>) -> bool {
    exists|k: int| 0 <= k < s.manifest.len() && lowered((#[trigger] s.manifest[k]).id) == target
}

proof fn lemma_carriers(list: Seq<SourceView>, target: Seq<char>, n: nat, i: int)
    requires
        0 <= i < n <= list.len(),
        first_of_its_id(list, i),
        has_id(list[i], target),
    ensures
        carriers(list, target, false, n).contains(list[i].id),
        (forall|j: int| 0 <= j < i ==> !has_id(#[trigger] list[j], target)) ==> carriers(
            list,
            target,
            false,
            n,
        )[0] == list[i].id,
    decreases n,
{
    let all = carriers(list, target, false, n);
    let before = carriers(list, target, false, (n - 1) as nat);
    let s = list[n - 1];
    assert(lists_id(s.manifest, target) == has_id(s, target));
    if i < n - 1 {
        lemma_carriers(list, target, (n - 1) as nat, i);
        let k = choose|k: int| 0 <= k < before.len() && before[k] == list[i].id;
        assert(all[k] == list[i].id);
    } else {
        assert(all[all.len() - 1] == list[i].id);
        if forall|j: int| 0 <= j < i ==> !has_id(#[trigger] list[j], target) {
            lemma_no_carrier(list, target, (n - 1) as nat);
        }
    }
}

proof fn lemma_no_carrier(list: Seq<SourceView>, target: Seq<char>, n: nat)
    requires
        n <= list.len(),
        forall|j: int| 0 <= j < n ==> !has_id(#[trigger] list[j], target),
    ensures
        carriers(list, target, false, n).len() == 0,
    decreases n,
{
    if n > 0 {
        lemma_no_carrier(list, target, (n - 1) as nat);
        let s = list[n - 1];
        assert(lists_id(s.manifest, target) == has_id(s, target));
    }
}

/// Every provider whose list has the model is among those that can serve it, and the first of the
/// registry comes first.
pub proof fn carrier_can_serve(list: Seq<SourceView>, model: Seq<char>, i: int)
    requires
        0 <= i < list.len(),
        first_of_its_id(list, i),
        lowered(trimmed(model)).len() > 0,
        has_id(list[i], lowered(trimmed(model))),
    ensures
        providers_of(list, model).contains(list[i].id),
        (forall|j: int| 0 <= j < i ==> !has_id(#[trigger] list[j], lowered(trimmed(model))))
            ==> providers_of(list, model)[0] == list[i].id,
{
    lemma_carriers(list, lowered(trimmed(model)), list.len(), i);
}

// ─── Where a request goes ────────────────────────────────────

proof fn lemma_enabled_for(
    providers: Seq<Seq<char>>,
    name: Seq<char>,
    r: ModelRulesView,
    p: Seq<char>,
)
    requires
        providers.contains(p),
        !blocked(r, p, name),
    ensures
        enabled_for(providers, name, r).contains(p),
    decreases providers.len(),
{
    let all = enabled_for(providers, name, r);
    let short = providers.drop_last();
    let before = enabled_for(short, name, r);
    let k = choose|k: int| 0 <= k < providers.len() && providers[k] == p;
    if k < short.len() {
        assert(short[k] == p);
        lemma_enabled_for(short, name, r, p);
        let j = choose|j: int| 0 <= j < before.len() && before[j] == p;
        assert(all[j] == p);
    } else {
        assert(all[all.len() - 1] == p);
    }
}

proof fn lemma_joined(chain: Seq<Seq<char>>, more: Seq<Seq<char>>, p: Seq<char>)
    requires
        chain.contains(p) || more.contains(p),
    ensures
        joined_chain(chain, more).contains(p),
    decreases more.len(),
{
    let all = joined_chain(chain, more);
    if more.len() > 0 {
        let short = more.drop_last();
        let before = joined_chain(chain, short);
        if more.contains(p) {
            let k = choose|k: int| 0 <= k < more.len() && more[k] == p;
            if k < short.len() {
                assert(short[k] == p);
            }
        }
        if chain.contains(p) || short.contains(p) {
            lemma_joined(chain, short, p);
            let j = choose|j: int| 0 <= j < before.len() && before[j] == p;
            assert(all[j] == p);
        } else {
            assert(more.last() == p);
            if before.contains(p) {
                let j = choose|j: int| 0 <= j < before.len() && before[j] == p;
                assert(all[j] == p);
            } else {
                assert(all[all.len() - 1] == p);
            }
        }
    }
}

proof fn lemma_chain_keeps(
    list: Seq<SourceView>,
    r: ModelRulesView,
    model: Seq<char>,
    m: nat,
    n: nat,
    p: Seq<char>,
)
    requires
        m <= n <= mappings_for(r.mappings, model).len(),
        chain_with(list, r, model, m).contains(p),
    ensures
        chain_with(list, r, model, n).contains(p),
    decreases n,
{
    if m < n {
        lemma_chain_keeps(list, r, model, m, (n - 1) as nat, p);
        let e = mappings_for(r.mappings, model)[n - 1];
        lemma_joined(
            chain_with(list, r, model, (n - 1) as nat),
            enabled_for(led_by(list, e), e.target, r),
            p,
        );
    }
}

/// A request reaches every provider that has the model and is not switched off for it.
pub proof fn request_reaches_every_carrier(
    list: Seq<SourceView>,
    r: ModelRulesView,
    model: Seq<char>,
    p: Seq<char>,
)
    requires
        providers_of(list, model).contains(p),
        !blocked(r, p, model),
    ensures
        route(list, r, model).contains(p),
{
    lemma_enabled_for(providers_of(list, model), model, r, p);
    let n = mappings_for(r.mappings, model).len();
    lemma_chain_keeps(list, r, model, 0, n, p);
}

proof fn lemma_mapping_listed(list: Seq<MappingView>, model: Seq<char>, k: int)
    requires
        0 <= k < list.len(),
        same_ignoring_case(list[k].alias, model),
    ensures
        mappings_for(list, model).contains(list[k]),
    decreases list.len(),
{
    let all = mappings_for(list, model);
    let short = list.drop_last();
    if k < short.len() {
        lemma_mapping_listed(short, model, k);
        let before = mappings_for(short, model);
        let j = choose|j: int| 0 <= j < before.len() && before[j] == list[k];
        assert(all[j] == list[k]);
    } else {
        assert(all[all.len() - 1] == list[k]);
    }
}

/// A request for a mapped name reaches the provider that the mapping names, and where it names
/// none, every provider that has the target, each unless it is switched off for the target.
pub proof fn request_follows_the_mapping(
    list: Seq<SourceView>,
    r: ModelRulesView,
    model: Seq<char>,
    k: int,
    p: Seq<char>,
)
    requires
        0 <= k < r.mappings.len(),
        same_ignoring_case(r.mappings[k].alias, model),
        match r.mappings[k].provider {
            Some(q) => p == q && registered(list, q),
            None => providers_of(list, r.mappings[k].target).contains(p),
        },
        !blocked(r, p, r.mappings[k].target),
    ensures
        route(list, r, model).contains(p),
{
    let m = r.mappings[k];
    lemma_mapping_listed(r.mappings, model, k);
    let all = mappings_for(r.mappings, model);
    let i = choose|i: int| 0 <= i < all.len() && all[i] == m;
    let led = led_by(list, m);
    assert(led.contains(p)) by {
        if m.provider is Some {
            assert(led[0] == p);
        }
    }
    lemma_enabled_for(led, m.target, r, p);
    lemma_joined(
        chain_with(list, r, model, i as nat),
        enabled_for(led, m.target, r),
        p,
    );
    assert(chain_with(list, r, model, (i + 1) as nat).contains(p));
    lemma_chain_keeps(list, r, model, (i + 1) as nat, all.len(), p);
}

// ─── What is advertised ──────────────────────────────────────

/// What is advertised are the offers that are neither switched off nor hidden, in their order.
pub proof fn offers_are_let_through(offers: Seq<Offer>, r: SharedRulesView)
    ensures
        offered(offers, r) == offers.filter(
            |o: Offer| !has_name(r.disabled, o.entry.id) && !has_name(r.hidden, o.entry.id),
        ),
    decreases offers.len(),
{
    reveal(Seq::filter);
    if offers.len() > 0 {
        offers_are_let_through(offers.drop_last(), r);
    }
}

proof fn lemma_offers_of(claimed: Seq<Seq<char>>, s: SourceView, n: nat, k: int)
    requires
        0 <= k < n <= s.manifest.len(),
        takes(claimed, s.manifest[k]),
    ensures
        offers_of(claimed, s, n).contains(Offer { provider: s.id, entry: s.manifest[k] }),
    decreases n,
{
    let all = offers_of(claimed, s, n);
    let o = Offer { provider: s.id, entry: s.manifest[k] };
    if k < n - 1 {
        lemma_offers_of(claimed, s, (n - 1) as nat, k);
        let before = offers_of(claimed, s, (n - 1) as nat);
        let j = choose|j: int| 0 <= j < before.len() && before[j] == o;
        assert(all[j] == o);
    } else {
        assert(all[all.len() - 1] == o);
    }
}

proof fn lemma_unclaimed(list: Seq<SourceView>, n: nat, id: Seq<char>)
    requires
        n <= list.len(),
        forall|j: int| 0 <= j < n ==> !has_id(#[trigger] list[j], id),
    ensures
        !claimed_by(list, n).contains(id),
    decreases n,
{
    if n > 0 {
        lemma_unclaimed(list, (n - 1) as nat, id);
        let before = claimed_by(list, (n - 1) as nat);
        let ids = ids_of(list[n - 1].manifest);
        let all = claimed_by(list, n);
        if all.contains(id) {
            let k = choose|k: int| 0 <= k < all.len() && all[k] == id;
            if k < before.len() {
                assert(before[k] == id);
            } else {
                let j = k - before.len();
                assert(ids[j] == id);
                assert(lowered(list[n - 1].manifest[j].id) == id);
                assert(has_id(list[n - 1], id));
            }
        }
    }
}

/// Every model of a provider is advertised as that provider's, where no earlier provider has it.
pub proof fn own_models_are_merged(list: Seq<SourceView>, n: nat, i: int, k: int)
    requires
        0 <= i < n <= list.len(),
        0 <= k < list[i].manifest.len(),
        forall|j: int| 0 <= j < i ==> !has_id(#[trigger] list[j], lowered(list[i].manifest[k].id)),
    ensures
        merged(list, n).contains(Offer { provider: list[i].id, entry: list[i].manifest[k] }),
    decreases n,
{
    let o = Offer { provider: list[i].id, entry: list[i].manifest[k] };
    let all = merged(list, n);
    let before = merged(list, (n - 1) as nat);
    if i < n - 1 {
        own_models_are_merged(list, (n - 1) as nat, i, k);
        let j = choose|j: int| 0 <= j < before.len() && before[j] == o;
        assert(all[j] == o);
    } else {
        lemma_unclaimed(list, (n - 1) as nat, lowered(o.entry.id));
        let s = list[i];
        let claimed = claimed_by(list, (n - 1) as nat);
        lemma_offers_of(claimed, s, s.manifest.len(), k);
        let more = offers_of(claimed, s, s.manifest.len());
        let j = choose|j: int| 0 <= j < more.len() && more[j] == o;
        assert(all[before.len() + j] == o);
    }
}

/// A provider takes part that has a list and something to sign in with, the environment or an
/// account of its own that is enabled.
pub proof fn provider_with_credentials_takes_part(
    list: Seq<SourceView>,
    accounts: Seq<Fields>,
    n: nat,
    i: int,
    k: int,
)
    requires
        0 <= i < n <= list.len(),
        first_of_its_id(list, i),
        list[i].manifest.len() > 0,
        list[i].env_credentials || (0 <= k < accounts.len() && serves(accounts[k], list[i].id)),
    ensures
        active_sources(list, accounts, n).contains(list[i]),
    decreases n,
{
    let all = active_sources(list, accounts, n);
    if i < n - 1 {
        provider_with_credentials_takes_part(list, accounts, (n - 1) as nat, i, k);
        let before = active_sources(list, accounts, (n - 1) as nat);
        let j = choose|j: int| 0 <= j < before.len() && before[j] == list[i];
        assert(all[j] == list[i]);
    } else {
        assert(active(list, accounts, i));
        assert(all[all.len() - 1] == list[i]);
    }
}

/// A provider without credentials does not take part.
pub proof fn provider_without_credentials_stays_out(
    list: Seq<SourceView>,
    accounts: Seq<Fields>,
    n: nat,
    k: int,
)
    requires
        n <= list.len(),
        0 <= k < active_sources(list, accounts, n).len(),
    ensures
        ({
            let s = active_sources(list, accounts, n)[k];
            &&& list.contains(s)
            &&& s.manifest.len() > 0
            &&& s.env_credentials || exists|i: int|
                0 <= i < accounts.len() && serves(#[trigger] accounts[i], s.id)
        }),
    decreases n,
{
    let before = active_sources(list, accounts, (n - 1) as nat);
    if k < before.len() {
        provider_without_credentials_stays_out(list, accounts, (n - 1) as nat, k);
    } else {
        assert(list[n - 1] == active_sources(list, accounts, n)[k]);
    }
}

proof fn lemma_catalog_words()
    ensures
        "object"@.len() == 6,
        "data"@.len() == 4,
        "meta"@.len() == 4,
        "id"@.len() == 2,
        "is_default"@.len() == 10,
        "name"@.len() == 4,
        "isDefault"@.len() == 9,
        "credits"@.len() == 7,
        "provider"@.len() == 8,
        "providerLabel"@.len() == 13,
        "enabled"@.len() == 7,
        "hidden"@.len() == 6,
        "aliases"@.len() == 7,
        "source"@.len() == 6,
        "lastRefreshedAt"@.len() == 15,
        "object"@ != "hidden"@,
        "object"@ != "source"@,
        "data"@ != "meta"@,
        "data"@ != "name"@,
        "meta"@ != "name"@,
        "credits"@ != "enabled"@,
        "credits"@ != "aliases"@,
        "enabled"@ != "aliases"@,
        "hidden"@ != "source"@,
{
    reveal_strlit("object");
    reveal_strlit("data");
    reveal_strlit("meta");
    reveal_strlit("id");
    reveal_strlit("is_default");
    reveal_strlit("name");
    reveal_strlit("isDefault");
    reveal_strlit("credits");
    reveal_strlit("provider");
    reveal_strlit("providerLabel");
    reveal_strlit("enabled");
    reveal_strlit("hidden");
    reveal_strlit("aliases");
    reveal_strlit("source");
    reveal_strlit("lastRefreshedAt");
    assert("object"@[0] != "hidden"@[0]);
    assert("object"@[0] != "source"@[0]);
    assert("data"@[0] != "meta"@[0]);
    assert("data"@[0] != "name"@[0]);
    assert("meta"@[0] != "name"@[0]);
    assert("credits"@[0] != "enabled"@[0]);
    assert("credits"@[0] != "aliases"@[0]);
    assert("enabled"@[0] != "aliases"@[0]);
    assert("hidden"@[0] != "source"@[0]);
}

/// Under another name a model is what it is, but for its id, and is no default.
pub proof fn renamed_model_is_the_model(o: Fields, alias: Seq<char>, other: Seq<char>)
    requires
        other != "id"@,
        other != "is_default"@,
    ensures
        ({
            let r = renamed(Json::Obj(o), alias);
            &&& part_of(r, "id"@) == Json::Str(alias)
            &&& part_of(r, "is_default"@) == Json::Bool(false)
            &&& part_of(r, other) == part_of(Json::Obj(o), other)
        }),
{
    broadcast use find_of_put;

    lemma_catalog_words();
}

proof fn lemma_name_listed(list: Seq<LinkView>, target: Seq<char>, k: int)
    requires
        0 <= k < list.len(),
        same_ignoring_case(list[k].target, target),
    ensures
        names_for(list, target).contains(list[k].alias),
    decreases list.len(),
{
    let all = names_for(list, target);
    let short = list.drop_last();
    if k < short.len() {
        lemma_name_listed(short, target, k);
        let before = names_for(short, target);
        let j = choose|j: int| 0 <= j < before.len() && before[j] == list[k].alias;
        assert(all[j] == list[k].alias);
    } else {
        assert(all[all.len() - 1] == list[k].alias);
    }
}

proof fn lemma_alias_items(offers: Seq<Offer>, r: SharedRulesView, i: int, k: int)
    requires
        0 <= i < offers.len(),
        0 <= k < r.mappings.len(),
        same_ignoring_case(r.mappings[k].target, offers[i].entry.id),
    ensures
        alias_items(offers, r).contains(renamed(offers[i].entry.item, r.mappings[k].alias)),
    decreases offers.len(),
{
    let all = alias_items(offers, r);
    let short = offers.drop_last();
    let before = alias_items(short, r);
    let x = renamed(offers[i].entry.item, r.mappings[k].alias);
    if i < short.len() {
        lemma_alias_items(short, r, i, k);
        let j = choose|j: int| 0 <= j < before.len() && before[j] == x;
        assert(all[j] == x);
    } else {
        let e = offers.last().entry;
        lemma_name_listed(r.mappings, e.id, k);
        let names = names_for(r.mappings, e.id);
        let j = choose|j: int| 0 <= j < names.len() && names[j] == r.mappings[k].alias;
        assert(all[before.len() + j] == x);
    }
}

/// A client is told every offer that is let through as it is, and under each of its other names.
pub proof fn client_is_told_every_model(
    list: Seq<SourceView>,
    accounts: Seq<Fields>,
    r: SharedRulesView,
    i: int,
    k: int,
)
    requires
        ({
            let live = active_sources(list, accounts, list.len());
            0 <= i < offered(merged(live, live.len()), r).len()
        }),
    ensures
        ({
            let live = active_sources(list, accounts, list.len());
            let e = offered(merged(live, live.len()), r)[i].entry;
            let m = models_json(list, accounts, r);
            &&& part_of(m, "object"@) == Json::Str("list"@)
            &&& part_of(m, "data"@) is Arr
            &&& part_of(m, "data"@)->Arr_0[i] == e.item
            &&& 0 <= k < r.mappings.len() && same_ignoring_case(r.mappings[k].target, e.id)
                ==> part_of(m, "data"@)->Arr_0.contains(renamed(e.item, r.mappings[k].alias))
        }),
{
    lemma_catalog_words();
    let live = active_sources(list, accounts, list.len());
    let offers = offered(merged(live, live.len()), r);
    let o = models_json(list, accounts, r)->Obj_0;
    lemma_find_at(o, "object"@, 0);
    lemma_find_at(o, "data"@, 1);
    let data = o[1].1->Arr_0;
    let own = offers.map_values(|o: Offer| o.entry.item);
    assert(data[i] == own[i]);
    if 0 <= k < r.mappings.len() && same_ignoring_case(r.mappings[k].target, offers[i].entry.id) {
        lemma_alias_items(offers, r, i, k);
        let more = alias_items(offers, r);
        let x = renamed(offers[i].entry.item, r.mappings[k].alias);
        let j = choose|j: int| 0 <= j < more.len() && more[j] == x;
        assert(data[own.len() + j] == x);
    }
}

/// The label of a provider is that of the first with its id.
pub proof fn label_is_the_providers(list: Seq<SourceView>, i: int)
    requires
        0 <= i < list.len(),
        forall|j: int| 0 <= j < i ==> (#[trigger] list[j]).id != list[i].id,
    ensures
        label_of(list, list[i].id) == list[i].label,
    decreases list.len(),
{
    if i > 0 {
        assert(list[0].id != list[i].id);
        let rest = list.skip(1);
        assert forall|j: int| 0 <= j < i - 1 implies (#[trigger] rest[j]).id != rest[i - 1].id by {
            assert(rest[j] == list[j + 1]);
        }
        label_is_the_providers(rest, i - 1);
    }
}

/// What the user interface gets of a model: its id, its name, its price, whose it is, whether it
/// is switched on and shown, and its other names.
pub proof fn managed_model_is_told(
    list: Seq<SourceView>,
    provider: Seq<char>,
    e: EntryView,
    r: SharedRulesView,
)
    ensures
        ({
            let m = managed_entry(list, provider, e, r);
            let s = Json::Obj(shown_entry(list, provider, e.value));
            &&& field(e.value, "id"@) is Some ==> part_of(m, "id"@) == part_of(e.value, "id"@)
                && part_of(s, "id"@) == part_of(e.value, "id"@)
            &&& part_of(m, "name"@) == part_of(e.value, "name"@)
            &&& part_of(s, "name"@) == part_of(e.value, "name"@)
            &&& field(e.value, "credits"@) is Some ==> part_of(s, "credits"@) == part_of(
                e.value,
                "credits"@,
            )
            &&& field(e.value, "is_default"@) is Some ==> part_of(s, "isDefault"@) == part_of(
                e.value,
                "is_default"@,
            )
            &&& part_of(s, "provider"@) == Json::Str(provider)
            &&& part_of(s, "providerLabel"@) == Json::Str(label_of(list, provider))
            &&& part_of(m, "provider"@) == Json::Str(provider)
            &&& part_of(m, "enabled"@) == Json::Bool(!has_name(r.disabled, e.id))
            &&& part_of(m, "hidden"@) == Json::Bool(has_name(r.hidden, e.id))
            &&& part_of(m, "aliases"@) == crate::desensitize::state::json_words(names_for(r.mappings, e.id))
        }),
{
    broadcast use find_of_put;

    lemma_catalog_words();
    let o = shown_entry(list, provider, e.value);
    let n = o.len() as int;
    lemma_find_at(o, "id"@, 0);
    lemma_find_at(o, "isDefault"@, n - 4);
    lemma_find_at(o, "credits"@, n - 3);
    lemma_find_at(o, "provider"@, n - 2);
    lemma_find_at(o, "providerLabel"@, n - 1);
    if n == 6 {
        lemma_find_at(o, "name"@, 1);
    } else {
        lemma_find_none(o, "name"@);
    }
}

proof fn lemma_entries_with(list: Seq<EntryView>, r: SharedRulesView, off: bool, n: nat)
    requires
        n <= list.len(),
    ensures
        entries_with(list, r, off, n) == list.take(n as int).filter(
            |e: EntryView| has_name(r.disabled, e.id) == off,
        ),
    decreases n,
{
    reveal(Seq::filter);
    if n > 0 {
        lemma_entries_with(list, r, off, (n - 1) as nat);
        assert(list.take(n as int).drop_last() =~= list.take(n - 1));
    }
}

/// In the managed list what is switched on comes before what is switched off, each in its order.
pub proof fn switched_on_models_come_first(list: Seq<EntryView>, r: SharedRulesView)
    ensures
        enabled_first(list, r) == list.filter(|e: EntryView| !has_name(r.disabled, e.id))
            + list.filter(|e: EntryView| has_name(r.disabled, e.id)),
{
    lemma_entries_with(list, r, false, list.len());
    lemma_entries_with(list, r, true, list.len());
    assert(list.take(list.len() as int) =~= list);
    lemma_same_filter(list, r);
}

proof fn lemma_same_filter(list: Seq<EntryView>, r: SharedRulesView)
    ensures
        list.filter(|e: EntryView| has_name(r.disabled, e.id) == false) == list.filter(
            |e: EntryView| !has_name(r.disabled, e.id),
        ),
        list.filter(|e: EntryView| has_name(r.disabled, e.id) == true) == list.filter(
            |e: EntryView| has_name(r.disabled, e.id),
        ),
    decreases list.len(),
{
    reveal(Seq::filter);
    if list.len() > 0 {
        lemma_same_filter(list.drop_last(), r);
    }
}

// ─── The balance ─────────────────────────────────────────────

proof fn lemma_balance_words()
    ensures
        "available"@.len() == 9,
        "unit"@.len() == 4,
        "wallets"@.len() == 7,
        "subscription"@.len() == 12,
        "raw"@.len() == 3,
        "balance"@.len() == 7,
        "type"@.len() == 4,
        "displayName"@.len() == 11,
        "unit"@ != "type"@,
        "wallets"@ != "balance"@,
{
    reveal_strlit("available");
    reveal_strlit("unit");
    reveal_strlit("wallets");
    reveal_strlit("subscription");
    reveal_strlit("raw");
    reveal_strlit("balance");
    reveal_strlit("type");
    reveal_strlit("displayName");
    assert("unit"@[0] != "type"@[0]);
    assert("wallets"@[0] != "balance"@[0]);
}

/// The balance is asked with the token of the record, or with the one that an import left behind.
pub proof fn balance_is_asked_with_the_token(record: Fields, token: Seq<char>)
    requires
        trimmed(token).len() > 0,
    ensures
        find(record, "balanceToken"@) == Some(Json::Str(token)) ==> balance_token(record) == Some(
            trimmed(token),
        ),
        find(record, "balanceToken"@) is None && field(
            match find(record, "balanceCookie"@) {
                Some(v) => v,
                None => Json::Null,
            },
            "token2"@,
        ) == Some(Json::Str(token)) ==> balance_token(record) == Some(trimmed(token)),
        balance_token(record) is Some ==> {
            let h = headers_of(record);
            exists|i: int|
                0 <= i < h.len() && (#[trigger] h[i]).0 == "Cookie"@ && stands_at(
                    h[i].1,
                    "token2="@ + balance_token(record)->0 + ";"@,
                    0,
                )
        },
{
    reveal_strlit("token2=");
    reveal_strlit(";");
    reveal_strlit("; mt_c_token=");
    assert(trimmed(Seq::<char>::empty()).len() == 0);
    let h = headers_of(record);
    if balance_token(record) is Some {
        let t = balance_token(record)->0;
        let c = cookie_of(t, balance_uid(record));
        let part = "token2="@ + t + ";"@;
        assert(";"@.len() == 1 && ";"@[0] == ';' && "; mt_c_token="@.len() == 13
            && "; mt_c_token="@[0] == ';' && "token2="@.len() == 7);
        assert(c.subrange(0, part.len() as int) =~= part);
        assert(h[1].0 == "Cookie"@ && h[1].1 == c);
    }
}

/// The line says this number of this kind.
pub open spec fn balance_line(line: Json, kind: Seq<char>, number: Json) -> bool {
    &&& part_of(line, "type"@) == Json::Str(kind)
    &&& part_of(line, "displayName"@) is Str
    &&& part_of(line, "balance"@) == number
}

proof fn lemma_wallet(
    data: Json,
    kind: Seq<char>,
    label: Seq<char>,
    key: Seq<char>,
    bits: u64,
    text: Seq<char>,
)
    requires
        part_of(data, key) == Json::Num(NumberView::Float(bits, text)),
    ensures
        wallet(data, kind, label, key).len() == 1,
        balance_line(wallet(data, kind, label, key)[0], kind, part_of(data, key)),
{
    lemma_balance_words();
    let o = wallet(data, kind, label, key)[0]->Obj_0;
    lemma_find_at(o, "type"@, 0);
    lemma_find_at(o, "displayName"@, 1);
    lemma_find_at(o, "balance"@, 2);
}

/// The balance says what the reply does: the credits that are available, and a line for the
/// total, the available, the frozen and the expired ones.
pub proof fn balance_says_what_the_reply_does(
    data: Json,
    total: (u64, Seq<char>),
    available: (u64, Seq<char>),
    frozen: (u64, Seq<char>),
    expired: (u64, Seq<char>),
)
    requires
        part_of(data, "totalCredits"@) == Json::Num(NumberView::Float(total.0, total.1)),
        part_of(data, "availableCredits"@) == Json::Num(
            NumberView::Float(available.0, available.1),
        ),
        part_of(data, "frozenCredits"@) == Json::Num(NumberView::Float(frozen.0, frozen.1)),
        part_of(data, "expiredCredits"@) == Json::Num(NumberView::Float(expired.0, expired.1)),
    ensures
        ({
            let u = usage_of(data);
            let lines = part_of(u, "wallets"@)->Arr_0;
            &&& part_of(u, "available"@) == part_of(data, "availableCredits"@)
            &&& part_of(u, "unit"@) == Json::Str("credits"@)
            &&& part_of(part_of(u, "raw"@), "balance"@) == data
            &&& part_of(u, "wallets"@) is Arr
            &&& lines.len() == 4
            &&& balance_line(lines[0], "total"@, part_of(data, "totalCredits"@))
            &&& balance_line(lines[1], "available"@, part_of(data, "availableCredits"@))
            &&& balance_line(lines[2], "frozen"@, part_of(data, "frozenCredits"@))
            &&& balance_line(lines[3], "expired"@, part_of(data, "expiredCredits"@))
        }),
{
    lemma_balance_words();
    lemma_wallet(data, "total"@, "总额度"@, "totalCredits"@, total.0, total.1);
    lemma_wallet(data, "available"@, "可用"@, "availableCredits"@, available.0, available.1);
    lemma_wallet(data, "frozen"@, "冻结"@, "frozenCredits"@, frozen.0, frozen.1);
    lemma_wallet(data, "expired"@, "已过期"@, "expiredCredits"@, expired.0, expired.1);
    let o = usage_of(data)->Obj_0;
    lemma_find_at(o, "available"@, 0);
    lemma_find_at(o, "unit"@, 1);
    lemma_find_at(o, "wallets"@, 2);
    lemma_find_at(o, "raw"@, 4);
    lemma_find_at(o[4].1->Obj_0, "balance"@, 0);
}

/// What the reply has no number for has no line.
pub proof fn no_line_without_a_number(
    data: Json,
    kind: Seq<char>,
    label: Seq<char>,
    key: Seq<char>,
)
    requires
        part_of(data, key) == Json::Null,
    ensures
        wallet(data, kind, label, key).len() == 0,
{
}

/// A reply is a balance exactly where its status is one of success, its code is zero and it has
/// data; credentials that have run out are told apart from other failures.
pub proof fn reply_is_read(status: i64, ok: bool, payload: Json, code: i64)
    requires
        part_of(payload, "code"@) == json_int(code as int),
    ensures
        reply_meaning(status, ok, payload) is Ok <==> status != 401 && ok && code == 0 && part_of(
            payload,
            "data"@,
        ) != Json::Null,
        reply_meaning(status, ok, payload) is Ok ==> reply_meaning(status, ok, payload)->Ok_0
            == usage_of(part_of(payload, "data"@)),
        status == 401 || code == 401 ==> (reply_meaning(status, ok, payload) matches Err(
            BalanceFault::Failed(s, _),
        ) && s == 401),
        status != 401 && code != 401 && !(ok && code == 0 && part_of(payload, "data"@)
            != Json::Null) ==> (reply_meaning(status, ok, payload) matches Err(
            BalanceFault::Failed(s, _),
        ) && s == 502),
        status != 401 && code != 401 && code != 0 && ok && said(part_of(payload, "message"@)).len()
            > 0 ==> (reply_meaning(status, ok, payload) matches Err(BalanceFault::Failed(_, m)) && m
            == said(part_of(payload, "message"@))),
{
}

// ─── The default model ───────────────────────────────────────

proof fn lemma_listed_default(list: Seq<EntryView>, e: EntryView, target: Seq<char>)
    requires
        has_entry(list, target),
    ensures
        has_entry(list.push(e), target),
{
    let k = choose|k: int| 0 <= k < list.len() && lowered((#[trigger] list[k]).id) == target;
    assert(list.push(e)[k] == list[k]);
}

/// The entries have one with the id, whatever the case.
pub open spec fn has_entry(list: Seq<EntryView>, target: Seq<char>) -> bool {
    exists|k: int| 0 <= k < list.len() && lowered((#[trigger] list[k]).id) == target
}

/// What is claimed is among the entries.
spec fn claims_are_kept(d: Defaults) -> bool {
    forall|t: Seq<char>| #[trigger] d.claimed.contains(t) ==> has_entry(d.entries, t)
}

proof fn lemma_default_step(d: Defaults, e: EntryView, r: SharedRulesView, target: Seq<char>)
    requires
        claims_are_kept(d),
    ensures
        claims_are_kept(default_step(d, e, r)),
        has_entry(d.entries, target) ==> has_entry(default_step(d, e, r).entries, target),
        e.id.len() > 0 && !withheld(r, e.id) ==> has_entry(
            default_step(d, e, r).entries,
            lowered(e.id),
        ),
{
    let n = default_step(d, e, r);
    if n.entries.len() > d.entries.len() {
        assert(n.entries[d.entries.len() as int] == e);
        if has_entry(d.entries, target) {
            lemma_listed_default(d.entries, e, target);
        }
        assert forall|t: Seq<char>| #[trigger] n.claimed.contains(t) implies has_entry(
            n.entries,
            t,
        ) by {
            let k = choose|k: int| 0 <= k < n.claimed.len() && n.claimed[k] == t;
            if k < d.claimed.len() {
                assert(d.claimed[k] == t);
                assert(d.claimed.contains(t));
                lemma_listed_default(d.entries, e, t);
            } else {
                assert(lowered(n.entries[d.entries.len() as int].id) == t);
            }
        }
    }
}

proof fn lemma_default_entries(
    d: Defaults,
    list: Seq<EntryView>,
    r: SharedRulesView,
    n: nat,
    k: int,
    target: Seq<char>,
)
    requires
        claims_are_kept(d),
        n <= list.len(),
    ensures
        claims_are_kept(default_entries(d, list, r, n)),
        has_entry(d.entries, target) ==> has_entry(default_entries(d, list, r, n).entries, target),
        0 <= k < n && list[k].id.len() > 0 && !withheld(r, list[k].id) ==> has_entry(
            default_entries(d, list, r, n).entries,
            lowered(list[k].id),
        ),
    decreases n,
{
    if n > 0 {
        lemma_default_entries(d, list, r, (n - 1) as nat, k, target);
        let before = default_entries(d, list, r, (n - 1) as nat);
        lemma_default_step(before, list[n - 1], r, target);
        if 0 <= k < n - 1 {
            lemma_default_step(before, list[n - 1], r, lowered(list[k].id));
        }
    }
}

proof fn lemma_defaults(
    list: Seq<SourceView>,
    r: SharedRulesView,
    n: nat,
    i: int,
    k: int,
)
    requires
        n <= list.len(),
    ensures
        claims_are_kept(defaults(list, r, n)),
        0 <= i < n && first_of_its_id(list, i) && list[i].supports_default_model && 0 <= k
            < list[i].manifest.len() && list[i].manifest[k].id.len() > 0 && !withheld(
            r,
            list[i].manifest[k].id,
        ) ==> has_entry(defaults(list, r, n).entries, lowered(list[i].manifest[k].id)),
    decreases n,
{
    if n > 0 {
        lemma_defaults(list, r, (n - 1) as nat, i, k);
        let before = defaults(list, r, (n - 1) as nat);
        let s = list[n - 1];
        if first_of_its_id(list, n - 1) && s.supports_default_model {
            let target = if 0 <= i < n - 1 && 0 <= k < list[i].manifest.len() {
                lowered(list[i].manifest[k].id)
            } else {
                Seq::empty()
            };
            lemma_default_entries(before, s.manifest, r, s.manifest.len(), k, target);
        }
    }
}

/// A model that is neither switched off nor hidden, of a provider that knows what a default is,
/// can be the default.
pub proof fn open_model_can_be_the_default(
    list: Seq<SourceView>,
    r: SharedRulesView,
    model: Seq<char>,
    i: int,
    k: int,
)
    requires
        0 <= i < list.len(),
        first_of_its_id(list, i),
        list[i].supports_default_model,
        0 <= k < list[i].manifest.len(),
        list[i].manifest[k].id.len() > 0,
        !has_name(r.disabled, list[i].manifest[k].id),
        !has_name(r.hidden, list[i].manifest[k].id),
        lowered(trimmed(model)) == lowered(list[i].manifest[k].id),
        lowered(trimmed(model)).len() > 0,
    ensures
        usable_default(list, r, model),
{
    lemma_defaults(list, r, list.len(), i, k);
    let among = defaults(list, r, list.len()).entries;
    assert(lists_id(among, wanted(model)));
}

/// The list says where it comes from: from nobody, from one provider, fetched or built in, or from
/// several together.
pub proof fn list_says_where_it_comes_from(
    list: Seq<SourceView>,
    accounts: Seq<Fields>,
    r: SharedRulesView,
)
    ensures
        ({
            let live = active_sources(list, accounts, list.len());
            let meta = part_of(models_json(list, accounts, r), "meta"@);
            let source = part_of(meta, "source"@);
            &&& live.len() == 0 ==> source == Json::Str("none"@)
            &&& live.len() > 1 ==> source == Json::Str("aggregate"@)
            &&& live.len() == 1 && (live[0].id == "workbuddy"@ || live[0].id == "raccoon"@)
                && live[0].remote_refreshed ==> source == Json::Str("remote"@) && part_of(
                meta,
                "lastRefreshedAt"@,
            ) == json_int(live[0].last_refreshed_at as int)
            &&& live.len() == 1 && !live[0].remote_refreshed ==> source == Json::Str("builtin"@)
        }),
{
    lemma_catalog_words();
    let o = models_json(list, accounts, r)->Obj_0;
    lemma_find_at(o, "meta"@, 2);
    let m = o[2].1->Obj_0;
    lemma_find_at(m, "source"@, 0);
    lemma_find_at(m, "lastRefreshedAt"@, 1);
}

// ─── The user interface ──────────────────────────────────────

/// The user interface gets every advertised model, in order, with its provider.
pub proof fn user_gets_every_model(
    list: Seq<SourceView>,
    accounts: Seq<Fields>,
    r: SharedRulesView,
    i: int,
)
    requires
        ({
            let live = active_sources(list, accounts, list.len());
            0 <= i < offered(merged(live, live.len()), r).len()
        }),
    ensures
        ({
            let live = active_sources(list, accounts, list.len());
            let o = offered(merged(live, live.len()), r);
            &&& session_list(list, accounts, r).len() == o.len()
            &&& session_list(list, accounts, r)[i] == Json::Obj(
                shown_entry(list, o[i].provider, o[i].entry.item),
            )
        }),
{
}

proof fn lemma_new_ids(known: Seq<Seq<char>>, list: Seq<EntryView>, n: nat, k: int, id: Seq<char>)
    requires
        n <= list.len(),
    ensures
        has_name(known, id) ==> has_name(new_ids(known, list, n), id),
        0 <= k < n && list[k].id.len() > 0 ==> has_name(new_ids(known, list, n), list[k].id),
    decreases n,
{
    if n > 0 {
        lemma_new_ids(known, list, (n - 1) as nat, k, id);
        let before = new_ids(known, list, (n - 1) as nat);
        let last = list[n - 1].id;
        let all = new_ids(known, list, n);
        if all != before {
            assert(all == before.push(last));
            if has_name(before, id) {
                lemma_name_stays(before, last, id);
            }
            if 0 <= k < n - 1 && list[k].id.len() > 0 {
                lemma_name_stays(before, last, list[k].id);
            }
            assert(all[before.len() as int] == last);
            crate::text::ignoring_case_is_equivalence(last, last, last);
        }
    }
}

proof fn lemma_name_stays(names: Seq<Seq<char>>, more: Seq<char>, id: Seq<char>)
    requires
        has_name(names, id),
    ensures
        has_name(names.push(more), id),
{
    let k = choose|k: int| 0 <= k < names.len() && same_ignoring_case(#[trigger] names[k], id);
    assert(names.push(more)[k] == names[k]);
}

/// Every id of every provider's list is among all ids.
pub proof fn all_ids_are_listed(list: Seq<SourceView>, n: nat, i: int, k: int)
    requires
        0 <= i < n <= list.len(),
        first_of_its_id(list, i),
        0 <= k < list[i].manifest.len(),
        list[i].manifest[k].id.len() > 0,
    ensures
        has_name(all_ids(list, n), list[i].manifest[k].id),
    decreases n,
{
    let before = all_ids(list, (n - 1) as nat);
    let s = list[n - 1];
    if i < n - 1 {
        all_ids_are_listed(list, (n - 1) as nat, i, k);
        if first_of_its_id(list, n - 1) {
            lemma_new_ids(before, s.manifest, s.manifest.len(), -1, list[i].manifest[k].id);
        }
    } else {
        lemma_new_ids(before, s.manifest, s.manifest.len(), k, s.manifest[k].id);
    }
}

/// A balance is asked of an account that is there and is one of the provider.
pub proof fn balance_is_asked_of_its_account(s: Seq<Fields>, id: Seq<char>)
    ensures
        match asked_account(s, id) {
            Some(i) => 0 <= i < s.len() && find(s[i], "provider"@) == Some(Json::Str("catpaw"@))
                && crate::account_store::state::id_of(s[i]) == id,
            None => true,
        },
{
    crate::account_store::state::index_of_is_first(s, id);
    reveal_strlit("catpaw");
    reveal_strlit("workbuddy");
    assert("catpaw"@.len() == 6 && "workbuddy"@.len() == 9);
}

} // verus!
