//! Which providers a request for a model goes to.
//!
//! First come the providers that have the model under the name that was asked for, in the order
//! of the registry, then those that a mapping of the name leads to. Who is switched off for the
//! name that it would get is left out.
use vstd::prelude::*;
use crate::account_store::default_provider;
use crate::model_rules::{
    blocked, mappings_for, mappings_view, Mapping, MappingView, ModelRules, ModelRulesView,
};
use crate::providers::catalog::{
    providers_are_registered_once, providers_of, registered, Catalog, SourceView,
};
use crate::text::same;
use crate::words::{holds_word, push_word, words};

verus! {

/// The providers that are not switched off for a name.
pub open spec fn enabled_for(
    providers: Seq<Seq<char>>,
    name: Seq<char>,
    r: ModelRulesView,
) -> Seq<Seq<char>>
    decreases providers.len(),
{
    if providers.len() == 0 {
        Seq::empty()
    } else {
        let before = enabled_for(providers.drop_last(), name, r);
        if blocked(r, providers.last(), name) {
            before
        } else {
            before.push(providers.last())
        }
    }
}

/// The providers that a mapping leads to.
pub open spec fn led_by(list: Seq<SourceView>, m: MappingView) -> Seq<Seq<char>> {
    match m.provider {
        Some(p) => if registered(list, p) {
            seq![p]
        } else {
            Seq::empty()
        },
        None => providers_of(list, m.target),
    }
}

/// A chain with what is new of `more` behind it.
pub open spec fn joined_chain(chain: Seq<Seq<char>>, more: Seq<Seq<char>>) -> Seq<Seq<char>>
    decreases more.len(),
{
    if more.len() == 0 {
        chain
    } else {
        let before = joined_chain(chain, more.drop_last());
        if before.contains(more.last()) {
            before
        } else {
            before.push(more.last())
        }
    }
}

/// The providers that have the name themselves.
pub open spec fn native_chain(list: Seq<SourceView>, r: ModelRulesView, model: Seq<char>) -> Seq<Seq<char>> {
    enabled_for(providers_of(list, model), model, r)
}

/// The chain with what the first `n` mappings of the name lead to.
pub open spec fn chain_with(
    list: Seq<SourceView>,
    r: ModelRulesView,
    model: Seq<char>,
    n: nat,
) -> Seq<Seq<char>>
    decreases n,
{
    if n == 0 {
        native_chain(list, r, model)
    } else {
        let m = mappings_for(r.mappings, model)[n - 1];
        joined_chain(
            chain_with(list, r, model, (n - 1) as nat),
            enabled_for(led_by(list, m), m.target, r),
        )
    }
}

/// The whole chain.
pub open spec fn chain_of(list: Seq<SourceView>, r: ModelRulesView, model: Seq<char>) -> Seq<Seq<char>> {
    chain_with(list, r, model, mappings_for(r.mappings, model).len())
}

/// Somebody has the model, by its name or by a mapping, switched off or not.
pub open spec fn carried(list: Seq<SourceView>, r: ModelRulesView, model: Seq<char>) -> bool {
    providers_of(list, model).len() > 0 || exists|i: int|
        0 <= i < mappings_for(r.mappings, model).len() && led_by(
            list,
            #[trigger] mappings_for(r.mappings, model)[i],
        ).len() > 0
}

/// Where a request goes. One for a model that nobody has goes to the default provider, one for
/// a model whose providers are all switched off goes nowhere.
pub open spec fn route(list: Seq<SourceView>, r: ModelRulesView, model: Seq<char>) -> Seq<Seq<char>> {
    let chain = chain_of(list, r, model);
    if chain.len() > 0 {
        chain
    } else if !carried(list, r, model) && registered(list, default_provider()) {
        seq![default_provider()]
    } else {
        Seq::empty()
    }
}

// ─── Laws ────────────────────────────────────────────────────

/// The name under which a provider in a chain gets the model: the one asked for, or the target of
/// one of the first `n` mappings that lead to the provider.
pub open spec fn serves_as(
    list: Seq<SourceView>,
    r: ModelRulesView,
    model: Seq<char>,
    n: nat,
    provider: Seq<char>,
) -> bool {
    (providers_of(list, model).contains(provider) && !blocked(r, provider, model)) || exists|i: int|
        0 <= i < n && led_by(list, #[trigger] mappings_for(r.mappings, model)[i]).contains(provider)
            && !blocked(r, provider, mappings_for(r.mappings, model)[i].target)
}

proof fn lemma_enabled(providers: Seq<Seq<char>>, name: Seq<char>, r: ModelRulesView, k: int)
    requires
        0 <= k < enabled_for(providers, name, r).len(),
    ensures
        !blocked(r, enabled_for(providers, name, r)[k], name),
        providers.contains(enabled_for(providers, name, r)[k]),
    decreases providers.len(),
{
    let before = enabled_for(providers.drop_last(), name, r);
    if k < before.len() {
        lemma_enabled(providers.drop_last(), name, r, k);
        let i = choose|i: int|
            0 <= i < providers.drop_last().len() && providers.drop_last()[i] == before[k];
        assert(providers[i] == before[k]);
    } else {
        assert(providers[providers.len() - 1] == enabled_for(providers, name, r)[k]);
    }
}

proof fn lemma_enabled_once(providers: Seq<Seq<char>>, name: Seq<char>, r: ModelRulesView)
    requires
        providers.no_duplicates(),
    ensures
        enabled_for(providers, name, r).no_duplicates(),
    decreases providers.len(),
{
    if providers.len() > 0 {
        let rest = providers.drop_last();
        let before = enabled_for(rest, name, r);
        lemma_enabled_once(rest, name, r);
        assert forall|k: int| 0 <= k < before.len() implies before[k] != providers.last() by {
            lemma_enabled(rest, name, r, k);
            let i = choose|i: int| 0 <= i < rest.len() && rest[i] == before[k];
            assert(providers[i] == before[k]);
        }
    }
}

proof fn lemma_joined(chain: Seq<Seq<char>>, more: Seq<Seq<char>>)
    requires
        chain.no_duplicates(),
    ensures
        joined_chain(chain, more).no_duplicates(),
        chain.is_prefix_of(joined_chain(chain, more)),
        forall|k: int|
            chain.len() <= k < joined_chain(chain, more).len() ==> more.contains(
                #[trigger] joined_chain(chain, more)[k],
            ),
    decreases more.len(),
{
    if more.len() > 0 {
        let rest = more.drop_last();
        lemma_joined(chain, rest);
        let before = joined_chain(chain, rest);
        let after = joined_chain(chain, more);
        assert forall|k: int| chain.len() <= k < after.len() implies more.contains(
            #[trigger] after[k],
        ) by {
            if k < before.len() {
                assert(rest.contains(before[k]));
                let i = choose|i: int| 0 <= i < rest.len() && rest[i] == before[k];
                assert(more[i] == before[k]);
            } else {
                assert(more[more.len() - 1] == after[k]);
            }
        }
    }
}

proof fn lemma_chain(list: Seq<SourceView>, r: ModelRulesView, model: Seq<char>, n: nat)
    requires
        n <= mappings_for(r.mappings, model).len(),
    ensures
        chain_with(list, r, model, n).no_duplicates(),
        native_chain(list, r, model).is_prefix_of(chain_with(list, r, model, n)),
        forall|k: int|
            0 <= k < chain_with(list, r, model, n).len() ==> serves_as(
                list,
                r,
                model,
                n,
                #[trigger] chain_with(list, r, model, n)[k],
            ),
    decreases n,
{
    let after = chain_with(list, r, model, n);
    if n == 0 {
        providers_are_registered_once(list, model);
        lemma_enabled_once(providers_of(list, model), model, r);
        assert forall|k: int| 0 <= k < after.len() implies serves_as(
            list,
            r,
            model,
            n,
            #[trigger] after[k],
        ) by {
            lemma_enabled(providers_of(list, model), model, r, k);
        }
    } else {
        let m = (n - 1) as nat;
        let before = chain_with(list, r, model, m);
        let mapping = mappings_for(r.mappings, model)[m as int];
        let more = enabled_for(led_by(list, mapping), mapping.target, r);
        lemma_chain(list, r, model, m);
        lemma_joined(before, more);
        assert forall|k: int| 0 <= k < after.len() implies serves_as(
            list,
            r,
            model,
            n,
            #[trigger] after[k],
        ) by {
            if k < before.len() {
                assert(after[k] == before[k]);
                assert(serves_as(list, r, model, m, before[k]));
            } else {
                assert(more.contains(after[k]));
                let i = choose|i: int| 0 <= i < more.len() && more[i] == after[k];
                lemma_enabled(led_by(list, mapping), mapping.target, r, i);
                assert(mappings_for(r.mappings, model)[m as int] == mapping);
            }
        }
    }
}

/// A request goes to each provider at most once, first to those that have the name themselves,
/// and to none that is switched off for the name it would get, unless nobody has the model.
pub proof fn route_is_sound(list: Seq<SourceView>, r: ModelRulesView, model: Seq<char>)
    ensures
        route(list, r, model).no_duplicates(),
        native_chain(list, r, model).is_prefix_of(route(list, r, model)),
        carried(list, r, model) ==> forall|k: int|
            0 <= k < route(list, r, model).len() ==> serves_as(
                list,
                r,
                model,
                mappings_for(r.mappings, model).len(),
                #[trigger] route(list, r, model)[k],
            ),
{
    lemma_chain(list, r, model, mappings_for(r.mappings, model).len());
}

/// A model that nobody has goes to the default provider alone.
pub proof fn unknown_model_goes_to_default(list: Seq<SourceView>, r: ModelRulesView, model: Seq<char>)
    requires
        !carried(list, r, model),
        registered(list, default_provider()),
    ensures
        route(list, r, model) == seq![default_provider()],
{
    let total = mappings_for(r.mappings, model).len();
    lemma_chain(list, r, model, total);
    if chain_of(list, r, model).len() > 0 {
        let first = chain_of(list, r, model)[0];
        assert(serves_as(list, r, model, total, first));
        if !providers_of(list, model).contains(first) {
            let i = choose|i: int|
                0 <= i < total && led_by(
                    list,
                    #[trigger] mappings_for(r.mappings, model)[i],
                ).contains(first) && !blocked(r, first, mappings_for(r.mappings, model)[i].target);
            assert(led_by(list, mappings_for(r.mappings, model)[i]).len() > 0);
        }
    }
}

/// A model whose providers are all switched off goes nowhere, the default provider included.
pub proof fn switched_off_model_goes_nowhere(list: Seq<SourceView>, r: ModelRulesView, model: Seq<char>)
    requires
        carried(list, r, model),
        forall|p: Seq<char>|
            !#[trigger] serves_as(list, r, model, mappings_for(r.mappings, model).len(), p),
    ensures
        route(list, r, model).len() == 0,
{
    let total = mappings_for(r.mappings, model).len();
    lemma_chain(list, r, model, total);
    if chain_of(list, r, model).len() > 0 {
        assert(serves_as(list, r, model, total, chain_of(list, r, model)[0]));
    }
}

// ─── At work ─────────────────────────────────────────────────

fn keep_enabled(providers: &Vec<String>, name: &str, rules: &ModelRules) -> (out: Vec<String>)
    ensures
        words(out@) == enabled_for(words(providers@), name@, rules@),
{
    let ghost all = words(providers@);
    let mut out: Vec<String> = Vec::new();
    assert(words(out@) =~= Seq::empty());
    assert(all.take(0) =~= Seq::empty());
    for i in 0..providers.len()
        invariant
            all == words(providers@),
            words(out@) == enabled_for(all.take(i as int), name@, rules@),
    {
        assert(all.take(i + 1).drop_last() =~= all.take(i as int));
        assert(all.take(i + 1).last() == providers@[i as int]@);
        if !rules.is_blocked(providers[i].as_str(), name) {
            push_word(&mut out, providers[i].clone());
        }
    }
    assert(all.take(all.len() as int) =~= all);
    out
}

fn joholds_word(chain: &mut Vec<String>, more: &Vec<String>)
    ensures
        words(final(chain)@) == joined_chain(words(old(chain)@), words(more@)),
{
    let ghost start = words(chain@);
    let ghost all = words(more@);
    assert(all.take(0) =~= Seq::empty());
    for i in 0..more.len()
        invariant
            all == words(more@),
            words(chain@) == joined_chain(start, all.take(i as int)),
    {
        assert(all.take(i + 1).drop_last() =~= all.take(i as int));
        assert(all.take(i + 1).last() == more@[i as int]@);
        if !holds_word(chain, more[i].as_str()) {
            push_word(chain, more[i].clone());
        }
    }
    assert(all.take(all.len() as int) =~= all);
}

fn led_to_by(catalog: &Catalog, m: &Mapping) -> (out: Vec<String>)
    ensures
        words(out@) == led_by(catalog@, m@),
{
    match &m.provider {
        Some(p) => {
            let mut out: Vec<String> = Vec::new();
            if catalog.is_registered(p.as_str()) {
                out.push(p.clone());
                assert(words(out@) =~= seq![p@]);
            } else {
                assert(words(out@) =~= Seq::empty());
            }
            out
        },
        None => catalog.providers_for_model(m.target.as_str()),
    }
}

/// The providers that have a model, in the order of the registry; none where it is unknown.
pub fn route_for_model(catalog: &Catalog, model: &str) -> (out: Vec<String>)
    ensures
        words(out@) == providers_of(catalog@, model@),
{
    catalog.providers_for_model(model)
}

/// [`carried`].
pub fn has_any_carrier(catalog: &Catalog, rules: &ModelRules, model: &str) -> (r: bool)
    ensures
        r == carried(catalog@, rules@, model@),
{
    let native = catalog.providers_for_model(model);
    assert(words(native@).len() == native@.len());
    if native.len() > 0 {
        return true;
    }
    let mappings = rules.mappings_of(model);
    let ghost all = mappings_for(rules@.mappings, model@);
    for i in 0..mappings.len()
        invariant
            all == mappings_for(rules@.mappings, model@),
            all == mappings_view(mappings@),
            forall|k: int| 0 <= k < i ==> led_by(catalog@, #[trigger] all[k]).len() == 0,
    {
        assert(all[i as int] == mappings@[i as int]@);
        let led = led_to_by(catalog, &mappings[i]);
        assert(words(led@).len() == led@.len());
        if led.len() > 0 {
            return true;
        }
    }
    false
}

/// [`route`].
pub fn route_for_forward(catalog: &Catalog, rules: &ModelRules, model: &str) -> (out: Vec<String>)
    ensures
        words(out@) == route(catalog@, rules@, model@),
{
    let native = route_for_model(catalog, model);
    let mut chain = keep_enabled(&native, model, rules);
    let mappings = rules.mappings_of(model);
    let ghost all = mappings_for(rules@.mappings, model@);
    for n in 0..mappings.len()
        invariant
            all == mappings_for(rules@.mappings, model@),
            all == mappings_view(mappings@),
            words(chain@) == chain_with(catalog@, rules@, model@, n as nat),
    {
        assert(all[n as int] == mappings@[n as int]@);
        let led = led_to_by(catalog, &mappings[n]);
        let more = keep_enabled(&led, mappings[n].target.as_str(), rules);
        joholds_word(&mut chain, &more);
    }
    assert(words(chain@).len() == chain@.len());
    if chain.len() > 0 {
        return chain;
    }
    if !has_any_carrier(catalog, rules, model) && catalog.is_registered("workbuddy") {
        let mut only: Vec<String> = Vec::new();
        only.push("workbuddy".to_owned());
        assert(words(only@) =~= seq![default_provider()]);
        return only;
    }
    assert(words(chain@) =~= Seq::empty());
    chain
}

} // verus!
