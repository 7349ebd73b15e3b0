//! The models of all providers as one list.
//!
//! Each provider has a list of its own. A model can be in several: whether a provider *can* serve
//! a model is decided by its list alone, whether the model is *advertised* also by whether the
//! provider has something to sign in with, and by the rules for models.
use vstd::prelude::*;
use crate::account_store::state::{records, StoredAccount};
use crate::account_store::store::serves;
use crate::desensitize::state::{json_words, words_value};
use crate::json::{
    field, json_int, list_view, push_value, put, seen, Fields, Json, JsonValue, Object,
};
use crate::model_rules::{has_name, lists_name};
use crate::shared_rules::{
    link_json, link_values, names_for, LinkView, ModelRules, SharedRulesView,
};
use crate::text::{lowered, same, to_lower, trim, trimmed};
use crate::words::{holds_word, push_word, words};

verus! {

// ─── Lists ───────────────────────────────────────────────────

/// A model in a provider's list: its id and its shown name, the entry as the provider gives it,
/// and the form in which it is advertised.
pub struct CatalogEntry {
    pub id: String,
    pub name: String,
    pub value: JsonValue,
    pub item: JsonValue,
}

/// The plain value of a [`CatalogEntry`].
pub struct EntryView {
    pub id: Seq<char>,
    pub name: Seq<char>,
    pub value: Json,
    pub item: Json,
}

impl View for CatalogEntry {
    type V = EntryView;

    open spec fn view(&self) -> EntryView {
        EntryView { id: self.id@, name: self.name@, value: self.value@, item: self.item@ }
    }
}

impl CatalogEntry {
    pub fn dup(&self) -> (out: CatalogEntry)
        ensures
            out@ == self@,
    {
        CatalogEntry {
            id: self.id.clone(),
            name: self.name.clone(),
            value: self.value.dup(),
            item: self.item.dup(),
        }
    }
}

/// A provider with its list, and what is known of it apart from its accounts.
pub struct ProviderSource {
    pub id: String,
    pub label: String,
    pub manifest: Vec<CatalogEntry>,
    /// Credentials come from the environment.
    pub env_credentials: bool,
    /// The provider knows what a default model is.
    pub supports_default_model: bool,
    /// The list was fetched, and when it was last.
    pub remote_refreshed: bool,
    pub last_refreshed_at: i64,
}

/// The plain value of a [`ProviderSource`].
pub struct SourceView {
    pub id: Seq<char>,
    pub label: Seq<char>,
    pub manifest: Seq<EntryView>,
    pub env_credentials: bool,
    pub supports_default_model: bool,
    pub remote_refreshed: bool,
    pub last_refreshed_at: i64,
}

pub open spec fn entries_of(list: Seq<CatalogEntry>) -> Seq<EntryView> {
    list.map_values(|e: CatalogEntry| e@)
}

impl View for ProviderSource {
    type V = SourceView;

    open spec fn view(&self) -> SourceView {
        SourceView {
            id: self.id@,
            label: self.label@,
            manifest: entries_of(self.manifest@),
            env_credentials: self.env_credentials,
            supports_default_model: self.supports_default_model,
            remote_refreshed: self.remote_refreshed,
            last_refreshed_at: self.last_refreshed_at,
        }
    }
}

/// All providers, in the order of the registry.
pub struct Catalog {
    pub sources: Vec<ProviderSource>,
}

pub open spec fn sources_of(list: Seq<ProviderSource>) -> Seq<SourceView> {
    list.map_values(|s: ProviderSource| s@)
}

impl View for Catalog {
    type V = Seq<SourceView>;

    open spec fn view(&self) -> Seq<SourceView> {
        sources_of(self.sources@)
    }
}

/// A provider of this id is in the list.
pub open spec fn registered(list: Seq<SourceView>, id: Seq<char>) -> bool {
    exists|i: int| 0 <= i < list.len() && (#[trigger] list[i]).id == id
}

/// No earlier provider has the id of the one at a position.
pub open spec fn first_of_its_id(list: Seq<SourceView>, at: int) -> bool {
    !registered(list.take(at), list[at].id)
}

// ─── Who can serve a model ───────────────────────────────────

/// What a wanted name is compared as.
pub open spec fn wanted(model: Seq<char>) -> Seq<char> {
    lowered(trimmed(model))
}

pub open spec fn lists_id(list: Seq<EntryView>, target: Seq<char>) -> bool {
    exists|i: int| 0 <= i < list.len() && lowered((#[trigger] list[i]).id) == target
}

pub open spec fn lists_shown_name(list: Seq<EntryView>, target: Seq<char>) -> bool {
    exists|i: int| 0 <= i < list.len() && lowered((#[trigger] list[i]).name) == target
}

/// The ids of the first `n` providers whose list has the model, by id or by shown name.
pub open spec fn carriers(list: Seq<SourceView>, target: Seq<char>, by_name: bool, n: nat) -> Seq<Seq<char>>
    decreases n,
{
    if n == 0 {
        Seq::empty()
    } else {
        let before = carriers(list, target, by_name, (n - 1) as nat);
        let s = list[n - 1];
        let has = if by_name {
            lists_shown_name(s.manifest, target)
        } else {
            lists_id(s.manifest, target)
        };
        if first_of_its_id(list, n - 1) && has {
            before.push(s.id)
        } else {
            before
        }
    }
}

/// The providers that can serve a model, in order. Shown names count only where no id does.
pub open spec fn providers_of(list: Seq<SourceView>, model: Seq<char>) -> Seq<Seq<char>> {
    let target = wanted(model);
    let by_id = carriers(list, target, false, list.len());
    if target.len() == 0 {
        Seq::empty()
    } else if by_id.len() > 0 {
        by_id
    } else {
        carriers(list, target, true, list.len())
    }
}

proof fn lemma_carriers(list: Seq<SourceView>, target: Seq<char>, by_name: bool, n: nat)
    requires
        n <= list.len(),
    ensures
        carriers(list, target, by_name, n).no_duplicates(),
        forall|k: int|
            0 <= k < carriers(list, target, by_name, n).len() ==> registered(
                list.take(n as int),
                #[trigger] carriers(list, target, by_name, n)[k],
            ),
    decreases n,
{
    if n > 0 {
        let m = (n - 1) as nat;
        lemma_carriers(list, target, by_name, m);
        let before = carriers(list, target, by_name, m);
        let after = carriers(list, target, by_name, n);
        let id = list[n - 1].id;
        assert forall|k: int| 0 <= k < after.len() implies registered(
            list.take(n as int),
            #[trigger] after[k],
        ) by {
            if k < before.len() {
                assert(after[k] == before[k]);
                let i = choose|i: int|
                    0 <= i < list.take(m as int).len() && (#[trigger] list.take(m as int)[i]).id
                        == before[k];
                assert(list.take(n as int)[i] == list.take(m as int)[i]);
            } else {
                assert(list.take(n as int)[m as int].id == id);
            }
        }
        if after.len() > before.len() {
            assert forall|k: int| 0 <= k < before.len() implies before[k] != id by {
                assert(registered(list.take(m as int), before[k]));
            }
        }
    }
}

/// The providers of a model are in the registry, each once.
pub proof fn providers_are_registered_once(list: Seq<SourceView>, model: Seq<char>)
    ensures
        providers_of(list, model).no_duplicates(),
        forall|k: int|
            0 <= k < providers_of(list, model).len() ==> registered(
                list,
                #[trigger] providers_of(list, model)[k],
            ),
{
    lemma_carriers(list, wanted(model), false, list.len());
    lemma_carriers(list, wanted(model), true, list.len());
    assert(list.take(list.len() as int) =~= list);
}

// ─── What is advertised ──────────────────────────────────────

/// The provider has something to sign in with: an account that serves, or the environment.
pub open spec fn available(s: SourceView, accounts: Seq<Fields>) -> bool {
    s.env_credentials || exists|i: int|
        0 <= i < accounts.len() && serves(#[trigger] accounts[i], s.id)
}

/// The provider at a position takes part in what is advertised.
pub open spec fn active(list: Seq<SourceView>, accounts: Seq<Fields>, at: int) -> bool {
    first_of_its_id(list, at) && available(list[at], accounts) && list[at].manifest.len() > 0
}

/// The first `n` providers, as far as they take part.
pub open spec fn active_sources(list: Seq<SourceView>, accounts: Seq<Fields>, n: nat) -> Seq<SourceView>
    decreases n,
{
    if n == 0 {
        Seq::empty()
    } else {
        let before = active_sources(list, accounts, (n - 1) as nat);
        if active(list, accounts, n - 1) {
            before.push(list[n - 1])
        } else {
            before
        }
    }
}

/// A model as it is advertised: by whom, and in which form.
pub struct Offer {
    pub provider: Seq<char>,
    pub entry: EntryView,
}

/// A model whose id an earlier provider took is left out; one without an id never is.
pub open spec fn takes(claimed: Seq<Seq<char>>, e: EntryView) -> bool {
    e.id.len() == 0 || !claimed.contains(lowered(e.id))
}

/// What a provider adds of its list, given the ids that earlier providers took.
pub open spec fn offers_of(claimed: Seq<Seq<char>>, s: SourceView, n: nat) -> Seq<Offer>
    decreases n,
{
    if n == 0 {
        Seq::empty()
    } else {
        let before = offers_of(claimed, s, (n - 1) as nat);
        if takes(claimed, s.manifest[n - 1]) {
            before.push(Offer { provider: s.id, entry: s.manifest[n - 1] })
        } else {
            before
        }
    }
}

/// The ids of a list, as they are compared.
pub open spec fn ids_of(list: Seq<EntryView>) -> Seq<Seq<char>> {
    list.map_values(|e: EntryView| lowered(e.id))
}

/// The ids that the first `n` providers took.
pub open spec fn claimed_by(list: Seq<SourceView>, n: nat) -> Seq<Seq<char>>
    decreases n,
{
    if n == 0 {
        Seq::empty()
    } else {
        claimed_by(list, (n - 1) as nat) + ids_of(list[n - 1].manifest)
    }
}

/// The lists of the first `n` providers merged: a model that several have is the first's. What one
/// provider lists twice stays twice.
pub open spec fn merged(list: Seq<SourceView>, n: nat) -> Seq<Offer>
    decreases n,
{
    if n == 0 {
        Seq::empty()
    } else {
        let s = list[n - 1];
        merged(list, (n - 1) as nat) + offers_of(
            claimed_by(list, (n - 1) as nat),
            s,
            s.manifest.len(),
        )
    }
}

pub open spec fn withheld(r: SharedRulesView, id: Seq<char>) -> bool {
    has_name(r.disabled, id) || has_name(r.hidden, id)
}

/// The offers that the rules let through.
pub open spec fn offered(offers: Seq<Offer>, r: SharedRulesView) -> Seq<Offer>
    decreases offers.len(),
{
    if offers.len() == 0 {
        Seq::empty()
    } else {
        let before = offered(offers.drop_last(), r);
        if withheld(r, offers.last().entry.id) {
            before
        } else {
            before.push(offers.last())
        }
    }
}

/// An entry under another name.
pub open spec fn renamed(item: Json, alias: Seq<char>) -> Json {
    match item {
        Json::Obj(o) => Json::Obj(
            put(put(o, "id"@, Json::Str(alias)), "is_default"@, Json::Bool(false)),
        ),
        _ => item,
    }
}

/// The entries for the other names of the offers, in order.
pub open spec fn alias_items(offers: Seq<Offer>, r: SharedRulesView) -> Seq<Json>
    decreases offers.len(),
{
    if offers.len() == 0 {
        Seq::empty()
    } else {
        let e = offers.last().entry;
        alias_items(offers.drop_last(), r) + names_for(r.mappings, e.id).map_values(
            |a: Seq<char>| renamed(e.item, a),
        )
    }
}

/// Whether a provider's list was fetched, and when; the lists of the others are built in.
pub open spec fn refresh_of(s: SourceView) -> (bool, i64) {
    if s.id == "workbuddy"@ || s.id == "raccoon"@ {
        (s.remote_refreshed, s.last_refreshed_at)
    } else {
        (false, 0i64)
    }
}

/// The time at which the first provider with an id was refreshed.
pub open spec fn refreshed_of(list: Seq<SourceView>, id: Seq<char>) -> Option<i64>
    decreases list.len(),
{
    if list.len() == 0 {
        None
    } else if list[0].id == id {
        Some(list[0].last_refreshed_at)
    } else {
        refreshed_of(list.skip(1), id)
    }
}

/// Where the merged list comes from, and how fresh it is.
pub open spec fn origin_of(list: Seq<SourceView>) -> (Seq<char>, i64) {
    if list.len() == 0 {
        ("none"@, 0i64)
    } else if list.len() == 1 {
        (
            if refresh_of(list[0]).0 {
                "remote"@
            } else {
                "builtin"@
            },
            refresh_of(list[0]).1,
        )
    } else {
        (
            "aggregate"@,
            match refreshed_of(list, "workbuddy"@) {
                Some(at) => at,
                None => refresh_of(list[0]).1,
            },
        )
    }
}

/// The list of models that a client gets.
pub open spec fn models_json(list: Seq<SourceView>, accounts: Seq<Fields>, r: SharedRulesView) -> Json {
    let live = active_sources(list, accounts, list.len());
    let offers = offered(merged(live, live.len()), r);
    Json::Obj(
        seq![
            ("object"@, Json::Str("list"@)),
            (
                "data"@,
                Json::Arr(offers.map_values(|o: Offer| o.entry.item) + alias_items(offers, r)),
            ),
            (
                "meta"@,
                Json::Obj(
                    seq![
                        ("source"@, Json::Str(origin_of(live).0)),
                        ("lastRefreshedAt"@, json_int(origin_of(live).1 as int)),
                    ],
                ),
            ),
        ],
    )
}

/// The label of a provider; its id where it has none.
pub open spec fn label_of(list: Seq<SourceView>, id: Seq<char>) -> Seq<char>
    decreases list.len(),
{
    if list.len() == 0 {
        id
    } else if list[0].id == id {
        list[0].label
    } else {
        label_of(list.skip(1), id)
    }
}

pub open spec fn name_part(item: Json) -> Fields {
    match field(item, "name"@) {
        Some(v) => if v == Json::Null {
            Seq::empty()
        } else {
            seq![("name"@, v)]
        },
        None => Seq::empty(),
    }
}

pub open spec fn or_value(v: Option<Json>, other: Json) -> Json {
    match v {
        Some(x) => x,
        None => other,
    }
}

/// An entry as the user interface gets it.
pub open spec fn shown_entry(list: Seq<SourceView>, provider: Seq<char>, item: Json) -> Fields {
    seq![("id"@, or_value(field(item, "id"@), Json::Str(Seq::empty())))] + name_part(item) + seq![
        ("isDefault"@, or_value(field(item, "is_default"@), Json::Bool(false))),
        ("credits"@, or_value(field(item, "credits"@), Json::Str(Seq::empty()))),
        ("provider"@, Json::Str(provider)),
        ("providerLabel"@, Json::Str(label_of(list, provider))),
    ]
}

/// The advertised models as the user interface gets them.
pub open spec fn session_list(list: Seq<SourceView>, accounts: Seq<Fields>, r: SharedRulesView) -> Seq<Json> {
    let live = active_sources(list, accounts, list.len());
    offered(merged(live, live.len()), r).map_values(
        |o: Offer| Json::Obj(shown_entry(list, o.provider, o.entry.item)),
    )
}

// ─── Laws of what is advertised ──────────────────────────────

proof fn lemma_offered(offers: Seq<Offer>, r: SharedRulesView, k: int)
    requires
        0 <= k < offered(offers, r).len(),
    ensures
        !withheld(r, offered(offers, r)[k].entry.id),
        offers.contains(offered(offers, r)[k]),
    decreases offers.len(),
{
    let before = offered(offers.drop_last(), r);
    if k < before.len() {
        lemma_offered(offers.drop_last(), r, k);
        let i = choose|i: int|
            0 <= i < offers.drop_last().len() && offers.drop_last()[i] == before[k];
        assert(offers[i] == before[k]);
    } else {
        assert(offers[offers.len() - 1] == offered(offers, r)[k]);
    }
}

/// A model that is switched off or hidden is not advertised, neither to clients nor to the user.
pub proof fn withheld_models_are_not_offered(offers: Seq<Offer>, r: SharedRulesView, k: int)
    requires
        0 <= k < offered(offers, r).len(),
    ensures
        !withheld(r, offered(offers, r)[k].entry.id),
{
    lemma_offered(offers, r, k);
}

proof fn lemma_offers_of(claimed: Seq<Seq<char>>, s: SourceView, n: nat, k: int)
    requires
        n <= s.manifest.len(),
        0 <= k < offers_of(claimed, s, n).len(),
    ensures
        offers_of(claimed, s, n)[k].provider == s.id,
        takes(claimed, offers_of(claimed, s, n)[k].entry),
        ids_of(s.manifest).contains(lowered(offers_of(claimed, s, n)[k].entry.id)),
    decreases n,
{
    let before = offers_of(claimed, s, (n - 1) as nat);
    if k < before.len() {
        lemma_offers_of(claimed, s, (n - 1) as nat, k);
    } else {
        assert(ids_of(s.manifest)[n - 1] == lowered(s.manifest[n - 1].id));
    }
}

proof fn lemma_merged_is_claimed(list: Seq<SourceView>, n: nat, k: int)
    requires
        n <= list.len(),
        0 <= k < merged(list, n).len(),
    ensures
        claimed_by(list, n).contains(lowered(merged(list, n)[k].entry.id)),
    decreases n,
{
    let m = (n - 1) as nat;
    let before = merged(list, m);
    let ids = ids_of(list[m as int].manifest);
    if k < before.len() {
        lemma_merged_is_claimed(list, m, k);
        let key = lowered(before[k].entry.id);
        let i = choose|i: int| 0 <= i < claimed_by(list, m).len() && claimed_by(list, m)[i] == key;
        assert(claimed_by(list, n)[i] == key);
    } else {
        let s = list[m as int];
        lemma_offers_of(claimed_by(list, m), s, s.manifest.len(), k - before.len());
        let key = lowered(merged(list, n)[k].entry.id);
        let i = choose|i: int| 0 <= i < ids.len() && ids[i] == key;
        assert(claimed_by(list, n)[claimed_by(list, m).len() + i] == key);
    }
}

/// A model that several providers have is advertised for one of them only: two entries with the
/// same id belong to the same provider.
pub proof fn shared_models_have_one_owner(list: Seq<SourceView>, n: nat, i: int, j: int)
    requires
        n <= list.len(),
        0 <= i < j < merged(list, n).len(),
        merged(list, n)[j].entry.id.len() > 0,
        lowered(merged(list, n)[i].entry.id) == lowered(merged(list, n)[j].entry.id),
    ensures
        merged(list, n)[i].provider == merged(list, n)[j].provider,
    decreases n,
{
    let m = (n - 1) as nat;
    let before = merged(list, m);
    let s = list[m as int];
    if j < before.len() {
        shared_models_have_one_owner(list, m, i, j);
    } else {
        lemma_offers_of(claimed_by(list, m), s, s.manifest.len(), j - before.len());
        if i < before.len() {
            lemma_merged_is_claimed(list, m, i);
        } else {
            lemma_offers_of(claimed_by(list, m), s, s.manifest.len(), i - before.len());
        }
    }
}

/// A single provider's list is advertised as it is, entry by entry.
pub proof fn single_list_is_kept(s: SourceView)
    ensures
        merged(seq![s], 1).map_values(|o: Offer| o.entry) == s.manifest,
{
    let list = seq![s];
    lemma_nothing_claimed(s, s.manifest.len());
    assert(merged(list, 0) =~= Seq::empty());
    assert(claimed_by(list, 0) =~= Seq::empty());
    assert(merged(list, 1) =~= offers_of(Seq::empty(), s, s.manifest.len()));
    assert(s.manifest.take(s.manifest.len() as int) =~= s.manifest);
}

proof fn lemma_nothing_claimed(s: SourceView, n: nat)
    requires
        n <= s.manifest.len(),
    ensures
        offers_of(Seq::empty(), s, n).map_values(|o: Offer| o.entry) == s.manifest.take(n as int),
    decreases n,
{
    if n > 0 {
        lemma_nothing_claimed(s, (n - 1) as nat);
        let before = offers_of(Seq::empty(), s, (n - 1) as nat);
        assert(offers_of(Seq::empty(), s, n).map_values(|o: Offer| o.entry) =~= before.map_values(
            |o: Offer| o.entry,
        ).push(s.manifest[n - 1]));
        assert(s.manifest.take(n as int) =~= s.manifest.take(n - 1).push(s.manifest[n - 1]));
    } else {
        assert(offers_of(Seq::empty(), s, n).map_values(|o: Offer| o.entry) =~= s.manifest.take(0));
    }
}

// ─── Default models ──────────────────────────────────────────

/// Entries on their way through the lists, with the ids that were taken.
pub struct Defaults {
    pub claimed: Seq<Seq<char>>,
    pub entries: Seq<EntryView>,
}

/// An entry joins unless the rules withhold it or its id is taken.
pub open spec fn default_step(d: Defaults, e: EntryView, r: SharedRulesView) -> Defaults {
    if e.id.len() == 0 {
        Defaults { entries: d.entries.push(e), ..d }
    } else if withheld(r, e.id) || d.claimed.contains(lowered(e.id)) {
        d
    } else {
        Defaults { claimed: d.claimed.push(lowered(e.id)), entries: d.entries.push(e) }
    }
}

pub open spec fn default_entries(d: Defaults, list: Seq<EntryView>, r: SharedRulesView, n: nat) -> Defaults
    decreases n,
{
    if n == 0 {
        d
    } else {
        default_step(default_entries(d, list, r, (n - 1) as nat), list[n - 1], r)
    }
}

/// The models among which a default is chosen: those of the first `n` providers that know what a
/// default is.
pub open spec fn defaults(list: Seq<SourceView>, r: SharedRulesView, n: nat) -> Defaults
    decreases n,
{
    if n == 0 {
        Defaults { claimed: Seq::empty(), entries: Seq::empty() }
    } else {
        let before = defaults(list, r, (n - 1) as nat);
        let s = list[n - 1];
        if first_of_its_id(list, n - 1) && s.supports_default_model {
            default_entries(before, s.manifest, r, s.manifest.len())
        } else {
            before
        }
    }
}

/// The model can be the default: it is among them by id, or by shown name.
pub open spec fn usable_default(list: Seq<SourceView>, r: SharedRulesView, model: Seq<char>) -> bool {
    let among = defaults(list, r, list.len()).entries;
    wanted(model).len() > 0 && (lists_id(among, wanted(model)) || lists_shown_name(
        among,
        wanted(model),
    ))
}

/// What holds of the models among which a default is chosen.
pub open spec fn sound_defaults(d: Defaults, r: SharedRulesView) -> bool {
    &&& forall|k: int|
        0 <= k < d.entries.len() && (#[trigger] d.entries[k]).id.len() > 0 ==> !withheld(
            r,
            d.entries[k].id,
        ) && d.claimed.contains(lowered(d.entries[k].id))
    &&& forall|i: int, j: int|
        0 <= i < j < d.entries.len() && (#[trigger] d.entries[i]).id.len() > 0 && (
        #[trigger] d.entries[j]).id.len() > 0 ==> lowered(d.entries[i].id) != lowered(
            d.entries[j].id,
        )
}

proof fn lemma_default_step(d: Defaults, e: EntryView, r: SharedRulesView)
    requires
        sound_defaults(d, r),
    ensures
        sound_defaults(default_step(d, e, r), r),
{
    let after = default_step(d, e, r);
    assert forall|k: int|
        0 <= k < after.entries.len() && (#[trigger] after.entries[k]).id.len() > 0 implies !withheld(
        r,
        after.entries[k].id,
    ) && after.claimed.contains(lowered(after.entries[k].id)) by {
        if k < d.entries.len() {
            assert(after.entries[k] == d.entries[k]);
            let key = lowered(d.entries[k].id);
            let i = choose|i: int| 0 <= i < d.claimed.len() && d.claimed[i] == key;
            assert(after.claimed[i] == key);
        } else {
            assert(after.claimed[d.claimed.len() as int] == lowered(e.id));
        }
    }
    assert forall|i: int, j: int|
        0 <= i < j < after.entries.len() && (#[trigger] after.entries[i]).id.len() > 0 && (
        #[trigger] after.entries[j]).id.len() > 0 implies lowered(after.entries[i].id) != lowered(
        after.entries[j].id,
    ) by {
        assert(after.entries[i] == d.entries[i]);
        if j < d.entries.len() {
            assert(after.entries[j] == d.entries[j]);
        }
    }
}

proof fn lemma_default_entries(d: Defaults, list: Seq<EntryView>, r: SharedRulesView, n: nat)
    requires
        sound_defaults(d, r),
        n <= list.len(),
    ensures
        sound_defaults(default_entries(d, list, r, n), r),
    decreases n,
{
    if n > 0 {
        lemma_default_entries(d, list, r, (n - 1) as nat);
        lemma_default_step(default_entries(d, list, r, (n - 1) as nat), list[n - 1], r);
    }
}

/// No model among which a default is chosen is withheld, and none is there twice.
pub proof fn defaults_are_usable(list: Seq<SourceView>, r: SharedRulesView, n: nat)
    requires
        n <= list.len(),
    ensures
        sound_defaults(defaults(list, r, n), r),
    decreases n,
{
    if n > 0 {
        defaults_are_usable(list, r, (n - 1) as nat);
        let s = list[n - 1];
        lemma_default_entries(defaults(list, r, (n - 1) as nat), s.manifest, r, s.manifest.len());
    }
}

// ─── All names ───────────────────────────────────────────────

/// The ids of the first `n` entries that are new.
pub open spec fn new_ids(known: Seq<Seq<char>>, list: Seq<EntryView>, n: nat) -> Seq<Seq<char>>
    decreases n,
{
    if n == 0 {
        known
    } else {
        let before = new_ids(known, list, (n - 1) as nat);
        let id = list[n - 1].id;
        if id.len() == 0 || has_name(before, id) {
            before
        } else {
            before.push(id)
        }
    }
}

/// The ids in the lists of the first `n` providers, each once.
pub open spec fn all_ids(list: Seq<SourceView>, n: nat) -> Seq<Seq<char>>
    decreases n,
{
    if n == 0 {
        Seq::empty()
    } else {
        let before = all_ids(list, (n - 1) as nat);
        let s = list[n - 1];
        if first_of_its_id(list, n - 1) {
            new_ids(before, s.manifest, s.manifest.len())
        } else {
            before
        }
    }
}

// ─── Managing ────────────────────────────────────────────────

/// The first `n` entries of a list that are switched off, or that are not.
pub open spec fn entries_with(
    list: Seq<EntryView>,
    r: SharedRulesView,
    disabled: bool,
    n: nat,
) -> Seq<EntryView>
    decreases n,
{
    if n == 0 {
        Seq::empty()
    } else {
        let before = entries_with(list, r, disabled, (n - 1) as nat);
        if has_name(r.disabled, list[n - 1].id) == disabled {
            before.push(list[n - 1])
        } else {
            before
        }
    }
}

/// A list with what is switched off behind the rest.
pub open spec fn enabled_first(list: Seq<EntryView>, r: SharedRulesView) -> Seq<EntryView> {
    entries_with(list, r, false, list.len()) + entries_with(list, r, true, list.len())
}

/// An entry with its switches and its other names.
pub open spec fn managed_entry(
    list: Seq<SourceView>,
    provider: Seq<char>,
    e: EntryView,
    r: SharedRulesView,
) -> Json {
    let shown = shown_entry(list, provider, e.value);
    Json::Obj(
        put(
            put(
                put(shown, "enabled"@, Json::Bool(!has_name(r.disabled, e.id))),
                "hidden"@,
                Json::Bool(has_name(r.hidden, e.id)),
            ),
            "aliases"@,
            json_words(names_for(r.mappings, e.id)),
        ),
    )
}

/// The lists of the first `n` of the providers that take part, each whole.
pub open spec fn managed(
    list: Seq<SourceView>,
    live: Seq<SourceView>,
    r: SharedRulesView,
    n: nat,
) -> Seq<Json>
    decreases n,
{
    if n == 0 {
        Seq::empty()
    } else {
        let s = live[n - 1];
        managed(list, live, r, (n - 1) as nat) + enabled_first(s.manifest, r).map_values(
            |e: EntryView| managed_entry(list, s.id, e, r),
        )
    }
}

/// The lists as they are managed: every provider's own, whatever the rules withhold.
pub open spec fn manage_json(list: Seq<SourceView>, accounts: Seq<Fields>, r: SharedRulesView) -> Json {
    let live = active_sources(list, accounts, list.len());
    Json::Obj(
        seq![
            ("models"@, Json::Arr(managed(list, live, r, live.len()))),
            ("mappings"@, Json::Arr(r.mappings.map_values(|m: LinkView| link_json(m)))),
        ],
    )
}

proof fn lemma_entries_with(list: Seq<EntryView>, r: SharedRulesView, n: nat)
    requires
        n <= list.len(),
    ensures
        entries_with(list, r, false, n).len() + entries_with(list, r, true, n).len() == n,
        (entries_with(list, r, false, n) + entries_with(list, r, true, n)).to_multiset()
            == list.take(n as int).to_multiset(),
    decreases n,
{
    if n > 0 {
        let m = (n - 1) as nat;
        lemma_entries_with(list, r, m);
        let a = entries_with(list, r, false, m);
        let b = entries_with(list, r, true, m);
        let e = list[m as int];
        assert(list.take(n as int) =~= list.take(m as int).push(e));
        vstd::seq_lib::lemma_multiset_commutative(a, b);
        vstd::seq_lib::lemma_multiset_commutative(a.push(e), b);
        vstd::seq_lib::lemma_multiset_commutative(a, b.push(e));
        broadcast use vstd::seq_lib::group_to_multiset_ensures;
        assert((a.push(e)).to_multiset() =~= a.to_multiset().insert(e));
        assert((b.push(e)).to_multiset() =~= b.to_multiset().insert(e));
        assert(list.take(n as int).to_multiset() =~= list.take(m as int).to_multiset().insert(e));
        assert((a.push(e) + b).to_multiset() =~= (a + b).to_multiset().insert(e));
        assert((a + b.push(e)).to_multiset() =~= (a + b).to_multiset().insert(e));
    } else {
        assert(entries_with(list, r, false, n) + entries_with(list, r, true, n) =~= list.take(0));
    }
}

/// Managing shows every model of a provider's list, none more often than it is there, whatever
/// other providers list.
pub proof fn managing_shows_every_model(list: Seq<EntryView>, r: SharedRulesView)
    ensures
        enabled_first(list, r).to_multiset() == list.to_multiset(),
        enabled_first(list, r).len() == list.len(),
{
    lemma_entries_with(list, r, list.len());
    assert(list.take(list.len() as int) =~= list);
}

// ─── At work ─────────────────────────────────────────────────

fn has_id(list: &Vec<CatalogEntry>, target: &str) -> (r: bool)
    ensures
        r == lists_id(entries_of(list@), target@),
{
    for i in 0..list.len()
        invariant
            forall|k: int| 0 <= k < i ==> lowered((#[trigger] entries_of(list@)[k]).id) != target@,
    {
        assert(entries_of(list@)[i as int] == list@[i as int]@);
        if same(to_lower(list[i].id.as_str()).as_str(), target) {
            return true;
        }
    }
    false
}

fn has_shown_name(list: &Vec<CatalogEntry>, target: &str) -> (r: bool)
    ensures
        r == lists_shown_name(entries_of(list@), target@),
{
    for i in 0..list.len()
        invariant
            forall|k: int|
                0 <= k < i ==> lowered((#[trigger] entries_of(list@)[k]).name) != target@,
    {
        assert(entries_of(list@)[i as int] == list@[i as int]@);
        if same(to_lower(list[i].name.as_str()).as_str(), target) {
            return true;
        }
    }
    false
}

fn is_withheld(rules: &ModelRules, id: &str) -> (r: bool)
    ensures
        r == withheld(rules@, id@),
{
    rules.is_blocked(id)
}

fn push_entry(list: &mut Vec<CatalogEntry>, e: CatalogEntry)
    ensures
        entries_of(final(list)@) == entries_of(old(list)@).push(e@),
{
    let ghost before = list@;
    list.push(e);
    assert(entries_of(list@) =~= entries_of(before).push(e@));
}

/// An advertised model: the id of the provider, and the entry.
pub struct OfferedModel {
    pub provider: String,
    pub entry: CatalogEntry,
}

impl View for OfferedModel {
    type V = Offer;

    open spec fn view(&self) -> Offer {
        Offer { provider: self.provider@, entry: self.entry@ }
    }
}

pub open spec fn offers_view(list: Seq<OfferedModel>) -> Seq<Offer> {
    list.map_values(|o: OfferedModel| o@)
}

fn push_offer(list: &mut Vec<OfferedModel>, o: OfferedModel)
    ensures
        offers_view(final(list)@) == offers_view(old(list)@).push(o@),
{
    let ghost before = list@;
    list.push(o);
    assert(offers_view(list@) =~= offers_view(before).push(o@));
}

/// The plain values of the providers at some positions.
pub open spec fn sources_at(list: Seq<SourceView>, positions: Seq<usize>) -> Seq<SourceView> {
    positions.map_values(|i: usize| list[i as int])
}

fn rename(item: &JsonValue, alias: &str) -> (out: JsonValue)
    ensures
        out@ == renamed(item@, alias@),
{
    match item {
        JsonValue::Obj(o) => {
            let mut copy = o.dup();
            copy.insert("id", JsonValue::text(alias));
            copy.insert("is_default", JsonValue::Bool(false));
            JsonValue::Obj(copy)
        },
        _ => item.dup(),
    }
}

fn take_entries(list: &Vec<CatalogEntry>, rules: &ModelRules, disabled: bool, out: &mut Vec<CatalogEntry>)
    ensures
        entries_of(final(out)@) == entries_of(old(out)@) + entries_with(
            entries_of(list@),
            rules@,
            disabled,
            list@.len(),
        ),
{
    let ghost start = entries_of(out@);
    let ghost all = entries_of(list@);
    assert(start + entries_with(all, rules@, disabled, 0) =~= start);
    for n in 0..list.len()
        invariant
            all == entries_of(list@),
            entries_of(out@) == start + entries_with(all, rules@, disabled, n as nat),
    {
        assert(all[n as int] == list@[n as int]@);
        if rules.is_disabled(list[n].id.as_str()) == disabled {
            push_entry(out, list[n].dup());
            assert(entries_of(out@) =~= start + entries_with(all, rules@, disabled, (n + 1) as nat));
        }
    }
}

fn sort_entries(list: &Vec<CatalogEntry>, rules: &ModelRules) -> (out: Vec<CatalogEntry>)
    ensures
        entries_of(out@) == enabled_first(entries_of(list@), rules@),
{
    let mut out: Vec<CatalogEntry> = Vec::new();
    assert(entries_of(out@) =~= Seq::empty());
    take_entries(list, rules, false, &mut out);
    take_entries(list, rules, true, &mut out);
    assert(entries_of(out@) =~= enabled_first(entries_of(list@), rules@));
    out
}

fn dup_or(v: Option<&JsonValue>, other: JsonValue) -> (out: JsonValue)
    ensures
        out@ == or_value(seen(v), other@),
{
    match v {
        Some(x) => x.dup(),
        None => other,
    }
}

impl Catalog {
    fn is_first(&self, at: usize) -> (r: bool)
        requires
            at < self.sources@.len(),
        ensures
            r == first_of_its_id(self@, at as int),
    {
        let ghost head = self@.take(at as int);
        for i in 0..at
            invariant
                at < self.sources@.len(),
                head == self@.take(at as int),
                forall|k: int| 0 <= k < i ==> (#[trigger] head[k]).id != self@[at as int].id,
        {
            assert(head[i as int] == self.sources@[i as int]@);
            if same(self.sources[i].id.as_str(), self.sources[at].id.as_str()) {
                return false;
            }
        }
        true
    }

    /// [`registered`].
    pub fn is_registered(&self, id: &str) -> (r: bool)
        ensures
            r == registered(self@, id@),
    {
        for i in 0..self.sources.len()
            invariant
                forall|k: int| 0 <= k < i ==> (#[trigger] self@[k]).id != id@,
        {
            assert(self@[i as int] == self.sources@[i as int]@);
            if same(self.sources[i].id.as_str(), id) {
                return true;
            }
        }
        false
    }

    fn carriers_of(&self, target: &str, by_name: bool) -> (out: Vec<String>)
        ensures
            words(out@) == carriers(self@, target@, by_name, self@.len()),
    {
        let mut out: Vec<String> = Vec::new();
        assert(words(out@) =~= Seq::empty());
        for n in 0..self.sources.len()
            invariant
                words(out@) == carriers(self@, target@, by_name, n as nat),
        {
            assert(self@[n as int] == self.sources@[n as int]@);
            let list = &self.sources[n].manifest;
            let has = if by_name {
                has_shown_name(list, target)
            } else {
                has_id(list, target)
            };
            if self.is_first(n) && has {
                push_word(&mut out, self.sources[n].id.clone());
            }
        }
        out
    }

    /// [`providers_of`].
    pub fn providers_for_model(&self, model: &str) -> (out: Vec<String>)
        ensures
            words(out@) == providers_of(self@, model@),
    {
        let target = to_lower(trim(model).as_str());
        if target.as_str().is_empty() {
            let none: Vec<String> = Vec::new();
            assert(words(none@) =~= Seq::empty());
            return none;
        }
        let by_id = self.carriers_of(target.as_str(), false);
        assert(words(by_id@).len() == by_id@.len());
        if by_id.len() > 0 {
            return by_id;
        }
        self.carriers_of(target.as_str(), true)
    }

    /// [`available`].
    pub fn provider_available(&self, accounts: &Vec<StoredAccount>, at: usize) -> (r: bool)
        requires
            at < self.sources@.len(),
        ensures
            r == available(self@[at as int], records(accounts@)),
    {
        assert(self@[at as int] == self.sources@[at as int]@);
        if self.sources[at].env_credentials {
            return true;
        }
        let ghost all = records(accounts@);
        for i in 0..accounts.len()
            invariant
                at < self.sources@.len(),
                all == records(accounts@),
                forall|k: int| 0 <= k < i ==> !serves(#[trigger] all[k], self.sources@[at as int].id@),
        {
            assert(all[i as int] == accounts@[i as int]@);
            if same(accounts[i].provider().as_str(), self.sources[at].id.as_str())
                && accounts[i].enabled() && accounts[i].has_credentials() {
                return true;
            }
        }
        false
    }

    /// The positions of the [`active_sources`].
    pub fn active_manifests(&self, accounts: &Vec<StoredAccount>) -> (out: Vec<usize>)
        ensures
            sources_at(self@, out@) == active_sources(self@, records(accounts@), self@.len()),
            forall|k: int| 0 <= k < out@.len() ==> #[trigger] out@[k] < self.sources@.len(),
    {
        let mut out: Vec<usize> = Vec::new();
        assert(sources_at(self@, out@) =~= Seq::empty());
        for n in 0..self.sources.len()
            invariant
                sources_at(self@, out@) == active_sources(self@, records(accounts@), n as nat),
                forall|k: int| 0 <= k < out@.len() ==> #[trigger] out@[k] < self.sources@.len(),
        {
            assert(self@[n as int] == self.sources@[n as int]@);
            assert(entries_of(self.sources@[n as int].manifest@).len()
                == self.sources@[n as int].manifest@.len());
            if self.is_first(n) && self.provider_available(accounts, n)
                && self.sources[n].manifest.len() > 0 {
                let ghost before = out@;
                out.push(n);
                assert(sources_at(self@, out@) =~= sources_at(self@, before).push(self@[n as int]));
            }
        }
        out
    }

    fn merge_one(
        &self,
        at: usize,
        claimed: &mut Vec<String>,
        items: &mut Vec<OfferedModel>,
    )
        requires
            at < self.sources@.len(),
        ensures
            words(final(claimed)@) == words(old(claimed)@) + ids_of(self@[at as int].manifest),
            offers_view(final(items)@) == offers_view(old(items)@) + offers_of(
                words(old(claimed)@),
                self@[at as int],
                self@[at as int].manifest.len(),
            ),
    {
        let source = &self.sources[at];
        let ghost s = self@[at as int];
        assert(s == source@);
        let ghost c0 = words(claimed@);
        let ghost i0 = offers_view(items@);
        assert(i0 + offers_of(c0, s, 0) =~= i0);
        for n in 0..source.manifest.len()
            invariant
                s == source@,
                c0 == words(claimed@),
                offers_view(items@) == i0 + offers_of(c0, s, n as nat),
        {
            assert(s.manifest[n as int] == source.manifest@[n as int]@);
            let e = &source.manifest[n];
            if e.id.as_str().is_empty() || !holds_word(claimed, to_lower(e.id.as_str()).as_str()) {
                push_offer(items, OfferedModel { provider: source.id.clone(), entry: e.dup() });
                assert(offers_view(items@) =~= i0 + offers_of(c0, s, (n + 1) as nat));
            }
        }
        assert(c0 + ids_of(s.manifest).take(0) =~= c0);
        for n in 0..source.manifest.len()
            invariant
                s == source@,
                words(claimed@) == c0 + ids_of(s.manifest).take(n as int),
        {
            assert(s.manifest[n as int] == source.manifest@[n as int]@);
            push_word(claimed, to_lower(source.manifest[n].id.as_str()));
            assert(words(claimed@) =~= c0 + ids_of(s.manifest).take(n + 1));
        }
        assert(ids_of(s.manifest).take(s.manifest.len() as int) =~= ids_of(s.manifest));
    }

    /// [`merged`].
    pub fn merged_items(&self, live: &Vec<usize>) -> (out: Vec<OfferedModel>)
        requires
            forall|k: int| 0 <= k < live@.len() ==> #[trigger] live@[k] < self.sources@.len(),
        ensures
            offers_view(out@) == merged(sources_at(self@, live@), live@.len()),
    {
        let ghost list = sources_at(self@, live@);
        let mut items: Vec<OfferedModel> = Vec::new();
        let mut claimed: Vec<String> = Vec::new();
        assert(offers_view(items@) =~= Seq::empty());
        assert(words(claimed@) =~= Seq::empty());
        for n in 0..live.len()
            invariant
                forall|k: int| 0 <= k < live@.len() ==> #[trigger] live@[k] < self.sources@.len(),
                list == sources_at(self@, live@),
                words(claimed@) == claimed_by(list, n as nat),
                offers_view(items@) == merged(list, n as nat),
        {
            let at: usize = live[n];
            assert(list[n as int] == self@[at as int]);
            self.merge_one(at, &mut claimed, &mut items);
        }
        items
    }

    /// [`origin_of`].
    pub fn aggregate_source(&self, live: &Vec<usize>) -> (out: (String, i64))
        requires
            forall|k: int| 0 <= k < live@.len() ==> #[trigger] live@[k] < self.sources@.len(),
        ensures
            (out.0@, out.1) == origin_of(sources_at(self@, live@)),
    {
        let ghost list = sources_at(self@, live@);
        if live.len() == 0 {
            return ("none".to_owned(), 0);
        }
        let first = &self.sources[live[0]];
        assert(list[0] == first@);
        let fetched = same(first.id.as_str(), "workbuddy") || same(first.id.as_str(), "raccoon");
        let refreshed: i64 = if fetched {
            first.last_refreshed_at
        } else {
            0
        };
        if live.len() == 1 {
            let source = if fetched && first.remote_refreshed {
                "remote"
            } else {
                "builtin"
            };
            return (source.to_owned(), refreshed);
        }
        assert(list.skip(0) =~= list);
        for n in 0..live.len()
            invariant
                forall|k: int| 0 <= k < live@.len() ==> #[trigger] live@[k] < self.sources@.len(),
                list == sources_at(self@, live@),
                live@.len() > 1,
                refreshed_of(list, "workbuddy"@) == refreshed_of(list.skip(n as int), "workbuddy"@),
        {
            let source = &self.sources[live[n]];
            assert(list.skip(n as int)[0] == source@);
            assert(list.skip(n as int).skip(1) =~= list.skip(n + 1));
            if same(source.id.as_str(), "workbuddy") {
                return ("aggregate".to_owned(), source.last_refreshed_at);
            }
        }
        ("aggregate".to_owned(), refreshed)
    }

    /// The offers that the rules let through.
    pub fn offered_models(&self, live: &Vec<usize>, rules: &ModelRules) -> (out: Vec<OfferedModel>)
        requires
            forall|k: int| 0 <= k < live@.len() ==> #[trigger] live@[k] < self.sources@.len(),
        ensures
            offers_view(out@) == offered(merged(sources_at(self@, live@), live@.len()), rules@),
    {
        let items = self.merged_items(live);
        let ghost all = offers_view(items@);
        let mut out: Vec<OfferedModel> = Vec::new();
        assert(offers_view(out@) =~= Seq::empty());
        assert(all.take(0) =~= Seq::empty());
        for i in 0..items.len()
            invariant
                all == offers_view(items@),
                offers_view(out@) == offered(all.take(i as int), rules@),
        {
            assert(all.take(i + 1).drop_last() =~= all.take(i as int));
            assert(all.take(i + 1).last() == items@[i as int]@);
            if !is_withheld(rules, items[i].entry.id.as_str()) {
                push_offer(
                    &mut out,
                    OfferedModel { provider: items[i].provider.clone(), entry: items[i].entry.dup() },
                );
            }
        }
        assert(all.take(all.len() as int) =~= all);
        out
    }

    /// [`models_json`].
    pub fn models_response(&self, accounts: &Vec<StoredAccount>, rules: &ModelRules) -> (out: JsonValue)
        ensures
            out@ == models_json(self@, records(accounts@), rules@),
    {
        let live = self.active_manifests(accounts);
        let ghost list = sources_at(self@, live@);
        assert(list.len() == live@.len());
        let (source, refreshed) = self.aggregate_source(&live);
        let offers = self.offered_models(&live, rules);
        let ghost all = offers_view(offers@);
        let ghost items = all.map_values(|o: Offer| o.entry.item);
        let mut data: Vec<JsonValue> = Vec::new();
        assert(list_view(data) =~= items.take(0));
        for i in 0..offers.len()
            invariant
                all == offers_view(offers@),
                items == all.map_values(|o: Offer| o.entry.item),
                list_view(data) == items.take(i as int),
        {
            assert(all[i as int] == offers@[i as int]@);
            push_value(&mut data, offers[i].entry.item.dup());
            assert(list_view(data) =~= items.take(i + 1));
        }
        assert(items.take(items.len() as int) =~= items);
        assert(all.take(0) =~= Seq::empty());
        assert(list_view(data) =~= items + alias_items(all.take(0), rules@));
        for i in 0..offers.len()
            invariant
                all == offers_view(offers@),
                list_view(data) == items + alias_items(all.take(i as int), rules@),
        {
            assert(all.take(i + 1).drop_last() =~= all.take(i as int));
            assert(all.take(i + 1).last() == offers@[i as int]@);
            self.add_aliases(&mut data, &offers[i].entry, rules);
            assert(list_view(data) =~= items + alias_items(all.take(i + 1), rules@));
        }
        assert(all.take(all.len() as int) =~= all);
        let mut meta = Object::new();
        meta.push("source", JsonValue::Str(source));
        meta.push("lastRefreshedAt", JsonValue::integer(refreshed));
        let mut o = Object::new();
        o.push("object", JsonValue::text("list"));
        o.push("data", JsonValue::Arr(data));
        assert(meta@ =~= seq![
            ("source"@, Json::Str(origin_of(list).0)),
            ("lastRefreshedAt"@, json_int(origin_of(list).1 as int)),
        ]);
        o.push("meta", JsonValue::Obj(meta));
        assert(o@ =~= models_json(self@, records(accounts@), rules@)->Obj_0);
        JsonValue::Obj(o)
    }

    fn add_aliases(&self, data: &mut Vec<JsonValue>, e: &CatalogEntry, rules: &ModelRules)
        ensures
            list_view(*final(data)) == list_view(*old(data)) + names_for(
                rules@.mappings,
                e@.id,
            ).map_values(|a: Seq<char>| renamed(e@.item, a)),
    {
        let names = rules.aliases_of(e.id.as_str());
        let ghost start = list_view(*data);
        let ghost added = words(names@).map_values(|a: Seq<char>| renamed(e@.item, a));
        assert(list_view(*data) =~= start + added.take(0));
        for i in 0..names.len()
            invariant
                added == words(names@).map_values(|a: Seq<char>| renamed(e@.item, a)),
                list_view(*data) == start + added.take(i as int),
        {
            assert(words(names@)[i as int] == names@[i as int]@);
            push_value(data, rename(&e.item, names[i].as_str()));
            assert(list_view(*data) =~= start + added.take(i + 1));
        }
        assert(added.take(added.len() as int) =~= added);
    }

    /// [`label_of`].
    pub fn provider_label_of(&self, id: &str) -> (out: String)
        ensures
            out@ == label_of(self@, id@),
    {
        assert(self@.skip(0) =~= self@);
        for i in 0..self.sources.len()
            invariant
                label_of(self@, id@) == label_of(self@.skip(i as int), id@),
        {
            assert(self@.skip(i as int)[0] == self.sources@[i as int]@);
            assert(self@.skip(i as int).skip(1) =~= self@.skip(i + 1));
            if same(self.sources[i].id.as_str(), id) {
                return self.sources[i].label.clone();
            }
        }
        id.to_owned()
    }

    /// [`shown_entry`].
    pub fn manage_entry_json(&self, provider: &str, item: &JsonValue) -> (out: Object)
        ensures
            out@ == shown_entry(self@, provider@, item@),
    {
        proof {
            reveal_strlit("");
            assert(""@ =~= Seq::<char>::empty());
        }
        let mut o = Object::new();
        o.push("id", dup_or(item.get("id"), JsonValue::text("")));
        if let Some(name) = item.get("name") {
            if !name.is_null() {
                o.push("name", name.dup());
            }
        }
        o.push("isDefault", dup_or(item.get("is_default"), JsonValue::Bool(false)));
        o.push("credits", dup_or(item.get("credits"), JsonValue::text("")));
        o.push("provider", JsonValue::text(provider));
        o.push("providerLabel", JsonValue::Str(self.provider_label_of(provider)));
        assert(o@ =~= shown_entry(self@, provider@, item@));
        o
    }

    /// [`session_list`].
    pub fn session_models(&self, accounts: &Vec<StoredAccount>, rules: &ModelRules) -> (out: Vec<JsonValue>)
        ensures
            list_view(out) == session_list(self@, records(accounts@), rules@),
    {
        let live = self.active_manifests(accounts);
        assert(sources_at(self@, live@).len() == live@.len());
        let offers = self.offered_models(&live, rules);
        let ghost all = session_list(self@, records(accounts@), rules@);
        let mut out: Vec<JsonValue> = Vec::new();
        assert(list_view(out) =~= all.take(0));
        for i in 0..offers.len()
            invariant
                all.len() == offers@.len(),
                forall|k: int|
                    0 <= k < all.len() ==> #[trigger] all[k] == Json::Obj(
                        shown_entry(self@, offers@[k].provider@, offers@[k].entry.item@),
                    ),
                list_view(out) == all.take(i as int),
        {
            push_value(
                &mut out,
                JsonValue::Obj(
                    self.manage_entry_json(offers[i].provider.as_str(), &offers[i].entry.item),
                ),
            );
            assert(list_view(out) =~= all.take(i + 1));
        }
        assert(all.take(all.len() as int) =~= all);
        out
    }

    fn manage_one(&self, provider: &str, e: &CatalogEntry, rules: &ModelRules) -> (out: JsonValue)
        ensures
            out@ == managed_entry(self@, provider@, e@, rules@),
    {
        let mut o = self.manage_entry_json(provider, &e.value);
        o.insert("enabled", JsonValue::Bool(!rules.is_disabled(e.id.as_str())));
        o.insert("hidden", JsonValue::Bool(rules.is_hidden(e.id.as_str())));
        o.insert("aliases", words_value(&rules.aliases_of(e.id.as_str())));
        JsonValue::Obj(o)
    }

    fn manage_list(&self, at: usize, rules: &ModelRules, out: &mut Vec<JsonValue>)
        requires
            at < self.sources@.len(),
        ensures
            list_view(*final(out)) == list_view(*old(out)) + enabled_first(
                self@[at as int].manifest,
                rules@,
            ).map_values(|e: EntryView| managed_entry(self@, self@[at as int].id, e, rules@)),
    {
        let source = &self.sources[at];
        assert(self@[at as int] == source@);
        let entries = sort_entries(&source.manifest, rules);
        let ghost start = list_view(*out);
        let ghost added = entries_of(entries@).map_values(
            |e: EntryView| managed_entry(self@, self@[at as int].id, e, rules@),
        );
        assert(list_view(*out) =~= start + added.take(0));
        for i in 0..entries.len()
            invariant
                self@[at as int] == source@,
                added == entries_of(entries@).map_values(
                    |e: EntryView| managed_entry(self@, self@[at as int].id, e, rules@),
                ),
                list_view(*out) == start + added.take(i as int),
        {
            assert(entries_of(entries@)[i as int] == entries@[i as int]@);
            push_value(out, self.manage_one(source.id.as_str(), &entries[i], rules));
            assert(list_view(*out) =~= start + added.take(i + 1));
        }
        assert(added.take(added.len() as int) =~= added);
    }

    /// [`manage_json`].
    pub fn manage_view(&self, accounts: &Vec<StoredAccount>, rules: &ModelRules) -> (out: JsonValue)
        ensures
            out@ == manage_json(self@, records(accounts@), rules@),
    {
        let live = self.active_manifests(accounts);
        let ghost list = sources_at(self@, live@);
        assert(list.len() == live@.len());
        let mut models: Vec<JsonValue> = Vec::new();
        assert(list_view(models) =~= Seq::empty());
        for n in 0..live.len()
            invariant
                forall|k: int| 0 <= k < live@.len() ==> #[trigger] live@[k] < self.sources@.len(),
                list == sources_at(self@, live@),
                list_view(models) == managed(self@, list, rules@, n as nat),
        {
            assert(list[n as int] == self@[live@[n as int] as int]);
            self.manage_list(live[n], rules, &mut models);
        }
        let mut o = Object::new();
        o.push("models", JsonValue::Arr(models));
        o.push("mappings", link_values(&rules.mappings));
        assert(o@ =~= manage_json(self@, records(accounts@), rules@)->Obj_0);
        JsonValue::Obj(o)
    }

    fn add_defaults(
        list: &Vec<CatalogEntry>,
        rules: &ModelRules,
        claimed: &mut Vec<String>,
        entries: &mut Vec<CatalogEntry>,
    )
        ensures
            ({
                let before = Defaults {
                    claimed: words(old(claimed)@),
                    entries: entries_of(old(entries)@),
                };
                let after = Defaults {
                    claimed: words(final(claimed)@),
                    entries: entries_of(final(entries)@),
                };
                after == default_entries(before, entries_of(list@), rules@, list@.len())
            }),
    {
        let ghost d = Defaults { claimed: words(claimed@), entries: entries_of(entries@) };
        for n in 0..list.len()
            invariant
                (Defaults { claimed: words(claimed@), entries: entries_of(entries@) })
                    == default_entries(d, entries_of(list@), rules@, n as nat),
        {
            assert(entries_of(list@)[n as int] == list@[n as int]@);
            let e = &list[n];
            if e.id.as_str().is_empty() {
                push_entry(entries, e.dup());
            } else if !is_withheld(rules, e.id.as_str()) {
                let key = to_lower(e.id.as_str());
                if !holds_word(claimed, key.as_str()) {
                    push_word(claimed, key);
                    push_entry(entries, e.dup());
                }
            }
        }
    }

    /// The models among which a default is chosen.
    pub fn default_model_catalog(&self, rules: &ModelRules) -> (out: Vec<CatalogEntry>)
        ensures
            entries_of(out@) == defaults(self@, rules@, self@.len()).entries,
    {
        let mut claimed: Vec<String> = Vec::new();
        let mut entries: Vec<CatalogEntry> = Vec::new();
        assert(words(claimed@) =~= Seq::empty());
        assert(entries_of(entries@) =~= Seq::empty());
        for n in 0..self.sources.len()
            invariant
                (Defaults { claimed: words(claimed@), entries: entries_of(entries@) }) == defaults(
                    self@,
                    rules@,
                    n as nat,
                ),
        {
            assert(self@[n as int] == self.sources@[n as int]@);
            assert(self@[n as int].manifest.len() == self.sources@[n as int].manifest@.len());
            if self.is_first(n) && self.sources[n].supports_default_model {
                Catalog::add_defaults(
                    &self.sources[n].manifest,
                    rules,
                    &mut claimed,
                    &mut entries,
                );
            }
        }
        entries
    }

    /// [`usable_default`].
    pub fn default_model_usable(&self, rules: &ModelRules, model: &str) -> (r: bool)
        ensures
            r == usable_default(self@, rules@, model@),
    {
        let target = to_lower(trim(model).as_str());
        if target.as_str().is_empty() {
            return false;
        }
        let models = self.default_model_catalog(rules);
        has_id(&models, target.as_str()) || has_shown_name(&models, target.as_str())
    }

    fn add_ids(list: &Vec<CatalogEntry>, ids: &mut Vec<String>)
        ensures
            words(final(ids)@) == new_ids(words(old(ids)@), entries_of(list@), list@.len()),
    {
        let ghost start = words(ids@);
        for n in 0..list.len()
            invariant
                words(ids@) == new_ids(start, entries_of(list@), n as nat),
        {
            assert(entries_of(list@)[n as int] == list@[n as int]@);
            let id = list[n].id.as_str();
            if !id.is_empty() && !lists_name(ids, id) {
                push_word(ids, id.to_owned());
            }
        }
    }

    /// [`all_ids`].
    pub fn aggregated_model_ids(&self) -> (out: Vec<String>)
        ensures
            words(out@) == all_ids(self@, self@.len()),
    {
        let mut ids: Vec<String> = Vec::new();
        assert(words(ids@) =~= Seq::empty());
        for n in 0..self.sources.len()
            invariant
                words(ids@) == all_ids(self@, n as nat),
        {
            assert(self@[n as int] == self.sources@[n as int]@);
            assert(self@[n as int].manifest.len() == self.sources@[n as int].manifest@.len());
            if self.is_first(n) {
                Catalog::add_ids(&self.sources[n].manifest, &mut ids);
            }
        }
        ids
    }
}

} // verus!
