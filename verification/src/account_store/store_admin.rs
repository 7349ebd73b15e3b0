//! New tokens, rate limits, and the migrations at start-up.
use vstd::prelude::*;
use crate::account_store::default_provider;
use crate::account_store::priority::{
    assignments_view, consecutive, AssignmentView, PriorityAssignment, PriorityBand,
};
use crate::account_store::state::{
    added_at_of, find_index, global_scope, id_of, index_of, priority_of, provider_of, records,
    StateView, StoredAccount,
};
use crate::account_store::store::{AccountStore, AccountStoreError, RulesView};
use crate::account_store::store_crud::{
    add_refusal, added_record, distinct_priorities, entries_of, kept_others, ordered, renumber,
    renumbered, taken_priorities, priorities_of, in_order,
};
use crate::js::{fields_of, filled_text, json_number, object_or_empty, plain_number, token_tail_of};
use crate::json::{
    dup_or_null, field, find, json_int, list_view, number_view, or_null, push_value, put,
    text_seen, text_view, without, Fields, Json, JsonValue, Object,
};
use crate::number::{
    number_exceeds, number_positive, Number, NumberView, EXACT_BELOW,
};
use crate::order::{order_of, stable_order, SortKey};
use crate::text::{head, same, tail, truncate_chars};

verus! {

// ─── Tokens ──────────────────────────────────────────────────

/// A text that is given and not empty.
pub open spec fn given(v: Option<Seq<char>>) -> bool {
    v is Some && v->0.len() > 0
}

/// A number that is given and greater than zero.
pub open spec fn given_number(v: Option<NumberView>) -> bool {
    v is Some && number_positive(v->0)
}

/// The record with the tokens of a refresh. What was not given stays.
pub open spec fn refreshed_record(
    f: Fields,
    access: Option<Seq<char>>,
    refresh: Option<Seq<char>>,
    expires_at: Option<NumberView>,
    refresh_expires_at: Option<NumberView>,
    now: i64,
) -> Fields {
    let r = if given(access) {
        put(
            put(f, "accessToken"@, Json::Str(access->0)),
            "tokenTail"@,
            Json::Str(tail(access->0, 4)),
        )
    } else {
        f
    };
    let r = if given(refresh) {
        put(r, "refreshToken"@, Json::Str(refresh->0))
    } else {
        r
    };
    let r = if given_number(expires_at) {
        put(r, "expiresAt"@, plain_number(expires_at->0))
    } else {
        r
    };
    let r = if given_number(refresh_expires_at) {
        put(r, "refreshExpiresAt"@, plain_number(refresh_expires_at->0))
    } else {
        r
    };
    put(r, "updatedAt"@, json_int(now as int))
}

// ─── Rate limits ─────────────────────────────────────────────

/// How long an account rests for a model where the provider does not say: ten minutes.
pub const FALLBACK_COOLDOWN_MS: i64 = 600_000;

/// When the limit ends: as the provider says where that lies ahead, else after a rest.
pub open spec fn reset_time(reset_at: Option<NumberView>, now: i64) -> Json {
    if reset_at is Some && number_exceeds(reset_at->0, now) {
        plain_number(reset_at->0)
    } else {
        json_int(now + FALLBACK_COOLDOWN_MS)
    }
}

pub open spec fn limit_entry(
    status: i64,
    code: Option<i64>,
    reset_at: Option<NumberView>,
    message: Seq<char>,
    now: i64,
) -> Json {
    Json::Obj(
        seq![
            (
                "status"@,
                json_int(
                    if status == 0 {
                        429
                    } else {
                        status as int
                    },
                ),
            ),
            (
                "code"@,
                match code {
                    Some(c) => json_int(c as int),
                    None => Json::Null,
                },
            ),
            ("resetAt"@, reset_time(reset_at, now)),
            ("message"@, Json::Str(head(message, 300))),
            ("at"@, json_int(now as int)),
        ],
    )
}

pub open spec fn limits_of(f: Fields) -> Fields {
    fields_of(find(f, "rateLimits"@))
}

/// The record with a limit for a model.
pub open spec fn limited_record(f: Fields, model: Seq<char>, entry: Json, now: i64) -> Fields {
    put(
        put(f, "rateLimits"@, Json::Obj(put(limits_of(f), model, entry))),
        "updatedAt"@,
        json_int(now as int),
    )
}

/// The record without the limit for a model, and without a list of limits where none is left.
pub open spec fn relieved_record(f: Fields, model: Seq<char>, now: i64) -> Fields {
    let rest = without(limits_of(f), model);
    put(
        if rest.len() == 0 {
            without(f, "rateLimits"@)
        } else {
            put(f, "rateLimits"@, Json::Obj(rest))
        },
        "updatedAt"@,
        json_int(now as int),
    )
}

/// Clearing a limit that was just set leaves no limit for the model and every other limit.
pub proof fn limit_set_and_cleared(
    f: Fields,
    model: Seq<char>,
    entry: Json,
    now: i64,
    later: i64,
    other: Seq<char>,
)
    ensures
        find(limits_of(relieved_record(limited_record(f, model, entry, now), model, later)), other)
            == if other == model {
            None
        } else {
            find(limits_of(f), other)
        },
{
    broadcast use {crate::json::find_of_put, crate::json::find_of_without};

    reveal_strlit("rateLimits");
    reveal_strlit("updatedAt");
    assert("rateLimits"@.len() != "updatedAt"@.len());
    let g = limited_record(f, model, entry, now);
    let limits = put(limits_of(f), model, entry);
    assert(limits_of(g) == limits);
    let rest = without(limits, model);
    assert(find(rest, other) == if other == model {
        None
    } else {
        find(limits_of(f), other)
    });
    if rest.len() == 0 {
        assert(find(rest, other) is None);
    }
}

/// A limit says nothing of any other model, and nothing of the rest of the record.
pub proof fn limit_is_per_model(f: Fields, model: Seq<char>, entry: Json, now: i64, other: Seq<char>)
    requires
        other != model,
    ensures
        find(limits_of(limited_record(f, model, entry, now)), other) == find(limits_of(f), other),
        find(limits_of(limited_record(f, model, entry, now)), model) == Some(entry),
{
    broadcast use crate::json::find_of_put;

    reveal_strlit("rateLimits");
    reveal_strlit("updatedAt");
    assert("rateLimits"@.len() != "updatedAt"@.len());
}

impl AccountStore {
    /// Writes the tokens of a refresh to an account's record; says whether there is one.
    pub fn update_account_tokens(
        &mut self,
        id: &str,
        access_token: Option<&str>,
        refresh_token: Option<&str>,
        expires_at: Option<Number>,
        refresh_expires_at: Option<Number>,
        now: i64,
    ) -> (r: bool)
        ensures
            final(self).rules == old(self).rules,
            final(self).state@.scope == old(self).state@.scope,
            ({
                let s = old(self).state@.accounts;
                let i = index_of(s, id@);
                &&& r == (i < s.len())
                &&& final(self).state@.accounts == if r {
                    s.update(
                        i,
                        refreshed_record(
                            s[i],
                            text_seen(access_token),
                            text_seen(refresh_token),
                            number_view(expires_at),
                            number_view(refresh_expires_at),
                            now,
                        ),
                    )
                } else {
                    s
                }
            }),
    {
        let index = find_index(&self.state.accounts, id);
        if index >= self.state.accounts.len() {
            return false;
        }
        let ghost before = self.state.accounts@;
        let mut record = self.state.accounts[index].dup();
        if let Some(token) = access_token {
            if !token.is_empty() {
                record.set("accessToken", JsonValue::text(token));
                record.set("tokenTail", JsonValue::Str(token_tail_of(token)));
            }
        }
        if let Some(token) = refresh_token {
            if !token.is_empty() {
                record.set("refreshToken", JsonValue::text(token));
            }
        }
        if let Some(n) = &expires_at {
            if n.is_positive() {
                record.set("expiresAt", json_number(n));
            }
        }
        if let Some(n) = &refresh_expires_at {
            if n.is_positive() {
                record.set("refreshExpiresAt", json_number(n));
            }
        }
        record.set_updated_at(now);
        let ghost next = record@;
        self.state.accounts.set(index, record);
        assert(records(self.state.accounts@) =~= records(before).update(index as int, next));
        true
    }

    /// Notes that an account has reached its limit for a model. The time is one that doubles hold
    /// exactly.
    pub fn mark_rate_limited(
        &mut self,
        id: &str,
        model: &str,
        status: i64,
        code: Option<i64>,
        reset_at: Option<Number>,
        message: &str,
        now: i64,
    ) -> (r: Option<JsonValue>)
        requires
            -(EXACT_BELOW as int) < now,
            now + FALLBACK_COOLDOWN_MS < EXACT_BELOW,
        ensures
            final(self).rules == old(self).rules,
            final(self).state@.scope == old(self).state@.scope,
            ({
                let s = old(self).state@.accounts;
                let i = index_of(s, id@);
                let entry = limit_entry(status, code, number_view(reset_at), message@, now);
                if i < s.len() {
                    &&& r is Some
                    &&& r->0@ == entry
                    &&& final(self).state@.accounts == s.update(
                        i,
                        limited_record(s[i], model@, entry, now),
                    )
                } else {
                    r is None && final(self).state@.accounts == s
                }
            }),
    {
        let index = find_index(&self.state.accounts, id);
        if index >= self.state.accounts.len() {
            return None;
        }
        let ghost entry_view = limit_entry(status, code, number_view(reset_at), message@, now);
        let reset = match &reset_at {
            Some(n) => if n.exceeds(now) {
                json_number(n)
            } else {
                JsonValue::integer(now + FALLBACK_COOLDOWN_MS)
            },
            None => JsonValue::integer(now + FALLBACK_COOLDOWN_MS),
        };
        let mut o = Object::new();
        o.push("status", JsonValue::integer(if status == 0 { 429 } else { status }));
        o.push(
            "code",
            match code {
                Some(c) => JsonValue::integer(c),
                None => JsonValue::Null,
            },
        );
        o.push("resetAt", reset);
        o.push("message", JsonValue::Str(truncate_chars(message, 300)));
        o.push("at", JsonValue::integer(now));
        assert(o@ =~= entry_view->Obj_0);
        let entry = JsonValue::Obj(o);
        let ghost before = self.state.accounts@;
        let mut record = self.state.accounts[index].dup();
        let mut limits = object_or_empty(record.get("rateLimits"));
        limits.insert(model, entry.dup());
        record.set("rateLimits", JsonValue::Obj(limits));
        record.set_updated_at(now);
        let ghost next = record@;
        self.state.accounts.set(index, record);
        assert(records(self.state.accounts@) =~= records(before).update(index as int, next));
        Some(entry)
    }

    /// Clears an account's limit for a model; says whether there was one.
    pub fn clear_rate_limit(&mut self, id: &str, model: &str, now: i64) -> (r: bool)
        ensures
            final(self).rules == old(self).rules,
            final(self).state@.scope == old(self).state@.scope,
            ({
                let s = old(self).state@.accounts;
                let i = index_of(s, id@);
                &&& r == (i < s.len() && find(limits_of(s[i]), model@) is Some)
                &&& final(self).state@.accounts == if r {
                    s.update(i, relieved_record(s[i], model@, now))
                } else {
                    s
                }
            }),
    {
        let index = find_index(&self.state.accounts, id);
        if index >= self.state.accounts.len() {
            return false;
        }
        let ghost before = self.state.accounts@;
        let mut record = self.state.accounts[index].dup();
        let mut limits = object_or_empty(record.get("rateLimits"));
        if limits.get(model).is_none() {
            return false;
        }
        limits.remove(model);
        if limits.len() == 0 {
            record.remove("rateLimits");
        } else {
            record.set("rateLimits", JsonValue::Obj(limits));
        }
        record.set_updated_at(now);
        let ghost next = record@;
        self.state.accounts.set(index, record);
        assert(records(self.state.accounts@) =~= records(before).update(index as int, next));
        true
    }

    /// Clears all of an account's limits; says how many there were.
    pub fn clear_all_rate_limits(&mut self, id: &str, now: i64) -> (n: usize)
        ensures
            final(self).rules == old(self).rules,
            final(self).state@.scope == old(self).state@.scope,
            ({
                let s = old(self).state@.accounts;
                let i = index_of(s, id@);
                &&& n == if i < s.len() {
                    limits_of(s[i]).len()
                } else {
                    0
                }
                &&& final(self).state@.accounts == if n > 0 {
                    s.update(
                        i,
                        put(without(s[i], "rateLimits"@), "updatedAt"@, json_int(now as int)),
                    )
                } else {
                    s
                }
            }),
    {
        let index = find_index(&self.state.accounts, id);
        if index >= self.state.accounts.len() {
            return 0;
        }
        let ghost before = self.state.accounts@;
        let mut record = self.state.accounts[index].dup();
        let count = object_or_empty(record.get("rateLimits")).len();
        if count == 0 {
            return 0;
        }
        record.remove("rateLimits");
        record.set_updated_at(now);
        let ghost next = record@;
        self.state.accounts.set(index, record);
        assert(records(self.state.accounts@) =~= records(before).update(index as int, next));
        count
    }
}

// ─── Start-up ────────────────────────────────────────────────

/// A record that names its provider.
pub open spec fn with_provider(f: Fields) -> Fields {
    if filled_text(find(f, "provider"@)) is Some {
        f
    } else {
        put(f, "provider"@, Json::Str(default_provider()))
    }
}

pub open spec fn with_providers(s: Seq<Fields>) -> Seq<Fields> {
    s.map_values(|f: Fields| with_provider(f))
}

/// How many of the first `n` records name no provider.
pub open spec fn unnamed(s: Seq<Fields>, n: nat) -> nat
    decreases n,
{
    if n == 0 {
        0
    } else {
        unnamed(s, (n - 1) as nat) + if filled_text(find(s[n - 1], "provider"@)) is Some {
            0nat
        } else {
            1
        }
    }
}

/// The rank that a configured route gives to a provider.
pub open spec fn routed_rank(route: Seq<(Seq<char>, u32)>, provider: Seq<char>) -> Option<u32>
    decreases route.len(),
{
    if route.len() == 0 {
        None
    } else if route[0].0 == provider {
        Some(route[0].1)
    } else {
        routed_rank(route.drop_first(), provider)
    }
}

/// The place of a provider in the registry; the length of the registry where it is not there.
pub open spec fn registry_index(providers: Seq<(Seq<char>, Seq<char>)>, id: Seq<char>) -> int
    decreases providers.len(),
{
    if providers.len() == 0 || providers[0].0 == id {
        0
    } else {
        1 + registry_index(providers.drop_first(), id)
    }
}

/// Where a provider's accounts stood before there was one queue: as the configured route has it,
/// else by the registry. Those of an unknown provider come last.
pub open spec fn route_rank(
    f: Fields,
    route: Seq<(Seq<char>, u32)>,
    providers: Seq<(Seq<char>, Seq<char>)>,
) -> u64 {
    match routed_rank(route, provider_of(f)) {
        Some(r) => r as u64,
        None => {
            let i = registry_index(providers, provider_of(f));
            if i < providers.len() {
                ((i + 1) * 10) as u64
            } else {
                u64::MAX
            }
        },
    }
}

pub open spec fn legacy_keys(
    s: Seq<Fields>,
    route: Seq<(Seq<char>, u32)>,
    rules: RulesView,
) -> Seq<SortKey> {
    s.map_values(
        |f: Fields|
            SortKey {
                rank: route_rank(f, route, rules.providers),
                major: priority_of(f, rules.band) as i64,
                minor: added_at_of(f) as i64,
            },
    )
}

/// The records as they were used before there was one queue.
pub open spec fn legacy_order(
    s: Seq<Fields>,
    route: Seq<(Seq<char>, u32)>,
    rules: RulesView,
) -> Seq<Fields> {
    stable_order(legacy_keys(s, route, rules)).map_values(|i: int| s[i])
}

/// The order in which the queue is numbered anew, if it is: that of old where there was no one
/// queue yet, else that of the queue where two accounts share a number.
pub open spec fn order_to_number(
    s: Seq<Fields>,
    legacy: bool,
    route: Seq<(Seq<char>, u32)>,
    rules: RulesView,
) -> Option<Seq<Fields>> {
    if s.len() == 0 || (!legacy && distinct_priorities(s, rules.band)) {
        None
    } else if legacy {
        Some(legacy_order(s, route, rules))
    } else {
        Some(ordered(s, rules.band))
    }
}

pub open spec fn needs_scope(state: StateView) -> bool {
    state.scope != Some(global_scope())
}

/// The state after the migrations of start-up: every record names its provider, and the queue is
/// numbered over all providers without repetition.
pub open spec fn migrated(
    state: StateView,
    route: Seq<(Seq<char>, u32)>,
    rules: RulesView,
) -> StateView {
    let s = with_providers(state.accounts);
    StateView {
        accounts: match order_to_number(s, needs_scope(state), route, rules) {
            Some(q) => renumbered(q, rules.band),
            None => s,
        },
        scope: Some(global_scope()),
    }
}

/// The numbers that the migrations change.
pub open spec fn migration_changes(
    state: StateView,
    route: Seq<(Seq<char>, u32)>,
    rules: RulesView,
) -> Seq<AssignmentView> {
    match order_to_number(with_providers(state.accounts), needs_scope(state), route, rules) {
        Some(q) => consecutive(entries_of(q, rules.band), rules.band.lowest as int),
        None => Seq::empty(),
    }
}

/// The migrations settle: done once, there is nothing left to do.
pub proof fn migration_settles(state: StateView, route: Seq<(Seq<char>, u32)>, rules: RulesView)
    requires
        crate::account_store::store_crud::distinct_ids(state.accounts),
        crate::account_store::store_crud::band_holds(rules.band, state.accounts.len()),
    ensures
        distinct_priorities(migrated(state, route, rules).accounts, rules.band),
        migrated(migrated(state, route, rules), route, rules) == migrated(state, route, rules),
        migration_changes(migrated(state, route, rules), route, rules).len() == 0,
{
    broadcast use crate::json::find_of_put;

    let s = with_providers(state.accounts);
    let done = migrated(state, route, rules);
    let r = done.accounts;
    reveal_strlit("provider");
    reveal_strlit("id");
    reveal_strlit("priority");
    reveal_strlit("workbuddy");
    assert("workbuddy"@.len() == 9);
    assert("provider"@.len() == 8 && "id"@.len() == 2);
    assert("provider"@[1] == 'r' && "priority"@[1] == 'r' && "provider"@[2] == 'o'
        && "priority"@[2] == 'i');
    assert("provider"@ != "priority"@);
    assert forall|i: int| 0 <= i < s.len() implies id_of(#[trigger] s[i]) == id_of(
        state.accounts[i],
    ) && filled_text(find(s[i], "provider"@)) is Some by {}
    assert(crate::account_store::store_crud::distinct_ids(s)) by {
        assert forall|i: int, j: int| 0 <= i < j < s.len() implies id_of(#[trigger] s[i]) != id_of(
            #[trigger] s[j],
        ) by {
            assert(id_of(state.accounts[i]) != id_of(state.accounts[j]));
        }
    }
    match order_to_number(s, needs_scope(state), route, rules) {
        Some(q) => {
            let keys = if needs_scope(state) {
                legacy_keys(s, route, rules)
            } else {
                crate::account_store::store::keys_of(s, rules.band)
            };
            lemma_permuted(s, keys);
            assert(q == stable_order(keys).map_values(|i: int| s[i]));
            crate::account_store::store_crud::renumbering_is_consecutive(q, rules.band);
            assert forall|i: int| 0 <= i < r.len() implies filled_text(
                find(#[trigger] r[i], "provider"@),
            ) is Some by {
                assert(find(r[i], "provider"@) == find(q[i], "provider"@));
                let k = stable_order(keys)[i];
                assert(q[i] == s[k]);
            }
        },
        None => {
            if s.len() == 0 {
                assert(distinct_priorities(s, rules.band));
            }
        },
    }
    assert(with_providers(r) =~= r) by {
        assert forall|i: int| 0 <= i < r.len() implies #[trigger] with_providers(r)[i] == r[i] by {
            assert(filled_text(find(r[i], "provider"@)) is Some);
        }
    }
    assert(!needs_scope(done));
}

/// Records taken in an order of their positions keep their ids apart.
proof fn lemma_permuted(s: Seq<Fields>, keys: Seq<SortKey>)
    requires
        crate::account_store::store_crud::distinct_ids(s),
        keys.len() == s.len(),
    ensures
        crate::account_store::store_crud::distinct_ids(
            stable_order(keys).map_values(|i: int| s[i]),
        ),
        stable_order(keys).len() == s.len(),
        forall|i: int| 0 <= i < s.len() ==> 0 <= #[trigger] stable_order(keys)[i] < s.len(),
{
    crate::order::order_is_stable_sort(keys);
    let o = stable_order(keys);
    let q = o.map_values(|i: int| s[i]);
    assert forall|i: int, j: int| 0 <= i < j < q.len() implies id_of(#[trigger] q[i]) != id_of(
        #[trigger] q[j],
    ) by {
        assert(o[i] != o[j]);
        if o[i] < o[j] {
            assert(id_of(s[o[i]]) != id_of(s[o[j]]));
        } else {
            assert(id_of(s[o[j]]) != id_of(s[o[i]]));
        }
    }
}

/// The plain value of a configured route.
pub open spec fn route_view(route: Seq<(String, u32)>) -> Seq<(Seq<char>, u32)> {
    route.map_values(|e: (String, u32)| (e.0@, e.1))
}

fn rank_in_route(route: &Vec<(String, u32)>, provider: &str) -> (r: Option<u32>)
    ensures
        r == routed_rank(route_view(route@), provider@),
{
    let ghost all = route_view(route@);
    assert(all.skip(0) =~= all);
    for i in 0..route.len()
        invariant
            all == route_view(route@),
            routed_rank(all, provider@) == routed_rank(all.skip(i as int), provider@),
    {
        assert(all.skip(i as int)[0] == (route@[i as int].0@, route@[i as int].1));
        assert(all.skip(i as int).drop_first() =~= all.skip(i + 1));
        if same(route[i].0.as_str(), provider) {
            return Some(route[i].1);
        }
    }
    None
}

fn any_repeated(accounts: &Vec<StoredAccount>, band: PriorityBand) -> (r: bool)
    ensures
        r == !distinct_priorities(records(accounts@), band),
{
    let ghost s = records(accounts@);
    let taken = taken_priorities(accounts, band);
    for i in 0..taken.len()
        invariant
            s == records(accounts@),
            taken@ == priorities_of(s, band),
            forall|a: int, b: int|
                0 <= a < b < s.len() && a < i ==> priority_of(#[trigger] s[a], band) != priority_of(
                    #[trigger] s[b],
                    band,
                ),
    {
        for j in i + 1..taken.len()
            invariant
                i < taken@.len(),
                s == records(accounts@),
                taken@ == priorities_of(s, band),
                forall|b: int|
                    i < b < j ==> priority_of(s[i as int], band) != priority_of(
                        #[trigger] s[b],
                        band,
                    ),
        {
            assert(taken@[i as int] == accounts_priority(s, i as int, band));
            assert(taken@[j as int] == accounts_priority(s, j as int, band));
            proof {
                lemma_priority_fits(s[i as int], band);
                lemma_priority_fits(s[j as int], band);
            }
            if taken[i] == taken[j] {
                assert(priority_of(s[i as int], band) == priority_of(s[j as int], band));
                return true;
            }
        }
    }
    false
}

spec fn accounts_priority(s: Seq<Fields>, i: int, band: PriorityBand) -> i64 {
    priority_of(s[i], band) as i64
}

proof fn lemma_priority_fits(f: Fields, band: PriorityBand)
    ensures
        i64::MIN <= priority_of(f, band) <= i64::MAX,
{
}

/// What the migrations did.
pub struct Migration {
    pub provider_added: usize,
    pub scope_migrated: bool,
    pub assignments: Vec<PriorityAssignment>,
}

pub open spec fn assignment_json(a: AssignmentView) -> Json {
    Json::Obj(
        seq![
            ("id"@, Json::Str(a.id)),
            ("name"@, Json::Str(a.name)),
            ("from"@, json_int(a.from as int)),
            ("to"@, json_int(a.to)),
        ],
    )
}

/// The report of the migrations.
pub open spec fn migration_report(m: Migration) -> Json {
    Json::Obj(
        seq![
            ("providerAdded"@, json_int(m.provider_added as int)),
            ("priorityChanged"@, Json::Bool(m.assignments@.len() > 0)),
            (
                "assignments"@,
                Json::Arr(
                    assignments_view(m.assignments@).map_values(
                        |a: AssignmentView| assignment_json(a),
                    ),
                ),
            ),
        ],
    )
}

impl Migration {
    /// Whether the account file has to be written.
    pub fn changed(&self) -> (r: bool)
        ensures
            r == (self.provider_added > 0 || self.assignments@.len() > 0 || self.scope_migrated),
    {
        self.provider_added > 0 || self.assignments.len() > 0 || self.scope_migrated
    }

    /// [`migration_report`].
    pub fn report(&self) -> (out: JsonValue)
        ensures
            out@ == migration_report(*self),
    {
        let mut items: Vec<JsonValue> = Vec::new();
        let ghost all = assignments_view(self.assignments@).map_values(
            |a: AssignmentView| assignment_json(a),
        );
        assert(list_view(items) =~= all.take(0));
        for i in 0..self.assignments.len()
            invariant
                all == assignments_view(self.assignments@).map_values(
                    |a: AssignmentView| assignment_json(a),
                ),
                list_view(items) == all.take(i as int),
        {
            let a = &self.assignments[i];
            let mut o = Object::new();
            o.push("id", JsonValue::text(a.id.as_str()));
            o.push("name", JsonValue::text(a.name.as_str()));
            o.push("from", JsonValue::integer(a.from));
            o.push("to", JsonValue::integer(a.to));
            assert(o@ =~= assignment_json(a@)->Obj_0);
            push_value(&mut items, JsonValue::Obj(o));
            assert(list_view(items) =~= all.take(i + 1));
        }
        assert(all.take(all.len() as int) =~= all);
        let mut o = Object::new();
        o.push("providerAdded", JsonValue::natural(self.provider_added as u64));
        o.push("priorityChanged", JsonValue::Bool(self.assignments.len() > 0));
        o.push("assignments", JsonValue::Arr(items));
        assert(o@ =~= migration_report(*self)->Obj_0);
        JsonValue::Obj(o)
    }
}

// ─── The session of a single account ─────────────────────────

/// What an old session is added as.
pub open spec fn legacy_payload(legacy: Json) -> Fields {
    seq![
        ("auth"@, or_null(field(legacy, "auth"@))),
        ("account"@, or_null(field(legacy, "account"@))),
        ("prefixPath"@, or_null(field(legacy, "prefixPath"@))),
        ("endpoint"@, or_null(field(legacy, "endpoint"@))),
        ("platform"@, or_null(field(legacy, "platform"@))),
        ("edition"@, or_null(field(legacy, "edition"@))),
    ]
}

/// A text under two keys, one inside the other.
pub open spec fn inner_text(v: Json, outer: Seq<char>, inner: Seq<char>) -> Option<Seq<char>> {
    match field(v, outer) {
        Some(o) => crate::json::str_of(field(o, inner)),
        None => None,
    }
}

/// An old session is taken over once: where there is no account yet and it has a token and a user.
pub open spec fn takes_over(s: Seq<Fields>, legacy: Json) -> bool {
    &&& given(inner_text(legacy, "auth"@, "accessToken"@))
    &&& s.len() == 0
    &&& given(inner_text(legacy, "account"@, "uid"@))
}

fn inner(v: &JsonValue, outer: &str, key: &str) -> (r: Option<String>)
    ensures
        text_view(r) == inner_text(v@, outer@, key@),
{
    match v.get(outer) {
        Some(o) => match o.get(key) {
            Some(JsonValue::Str(s)) => Some(s.clone()),
            _ => None,
        },
        None => None,
    }
}

fn is_given(v: &Option<String>) -> (r: bool)
    ensures
        r == given(text_view(*v)),
{
    match v {
        Some(s) => !s.as_str().is_empty(),
        None => false,
    }
}

impl AccountStore {
    fn rank_of(&self, record: &StoredAccount, route: &Vec<(String, u32)>) -> (r: u64)
        requires
            self.rules.providers@.len() * 10 <= u32::MAX,
        ensures
            r == route_rank(record@, route_view(route@), self.rules@.providers),
    {
        let provider = record.provider();
        match rank_in_route(route, provider.as_str()) {
            Some(r) => r as u64,
            None => {
                let ghost all = self.rules@.providers;
                assert(all.skip(0) =~= all);
                let mut i: usize = 0;
                while i < self.rules.providers.len()
                    invariant
                        i <= self.rules.providers@.len(),
                        all == self.rules@.providers,
                        provider@ == provider_of(record@),
                        self.rules.providers@.len() * 10 <= u32::MAX,
                        routed_rank(route_view(route@), provider@) is None,
                        registry_index(all, provider@) == i + registry_index(
                            all.skip(i as int),
                            provider@,
                        ),
                    decreases self.rules.providers@.len() - i,
                {
                    let p = &self.rules.providers[i];
                    assert(all.skip(i as int)[0] == (p.id@, p.label@));
                    assert(all.skip(i as int).drop_first() =~= all.skip(i + 1));
                    if same(p.id.as_str(), provider.as_str()) {
                        return (i as u64 + 1) * 10;
                    }
                    i = i + 1;
                }
                u64::MAX
            },
        }
    }

    fn in_legacy_order(&self, route: &Vec<(String, u32)>) -> (out: Vec<StoredAccount>)
        requires
            self.rules.providers@.len() * 10 <= u32::MAX,
        ensures
            records(out@) == legacy_order(self.state@.accounts, route_view(route@), self.rules@),
            out@.len() == self.state.accounts@.len(),
    {
        let ghost s = self.state@.accounts;
        let accounts = &self.state.accounts;
        let band = self.rules.band;
        let mut keys: Vec<SortKey> = Vec::new();
        for i in 0..accounts.len()
            invariant
                accounts == &self.state.accounts,
                band == self.rules.band,
                s == records(accounts@),
                self.rules.providers@.len() * 10 <= u32::MAX,
                keys@ =~= legacy_keys(s, route_view(route@), self.rules@).take(i as int),
        {
            keys.push(
                SortKey {
                    rank: self.rank_of(&accounts[i], route),
                    major: accounts[i].priority(band),
                    minor: accounts[i].added_at(),
                },
            );
            assert(s[i as int] == accounts@[i as int]@);
        }
        assert(keys@ =~= legacy_keys(s, route_view(route@), self.rules@));
        let order = order_of(&keys);
        let ghost positions = stable_order(keys@);
        let ghost all = legacy_order(s, route_view(route@), self.rules@);
        let mut out: Vec<StoredAccount> = Vec::new();
        for n in 0..order.len()
            invariant
                accounts == &self.state.accounts,
                s == records(accounts@),
                order@.len() == accounts@.len(),
                keys@.len() == accounts@.len(),
                out@.len() == n,
                positions == order@.map_values(|i: usize| i as int),
                all == positions.map_values(|i: int| s[i]),
                forall|i: int| 0 <= i < order@.len() ==> #[trigger] order@[i] < keys@.len(),
                records(out@) =~= all.take(n as int),
        {
            assert(positions[n as int] == order@[n as int] as int);
            out.push(accounts[order[n]].dup());
        }
        assert(records(out@) =~= all);
        out
    }

    /// The migrations of start-up.
    pub fn migrate_startup(&mut self, route: &Vec<(String, u32)>) -> (m: Migration)
        requires
            old(self).rules.providers@.len() * 10 <= u32::MAX,
            old(self).rules.band.lowest + old(self).state.accounts@.len() <= i64::MAX,
        ensures
            final(self).rules == old(self).rules,
            final(self).state@ == migrated(old(self).state@, route_view(route@), old(self).rules@),
            m.provider_added == unnamed(
                old(self).state@.accounts,
                old(self).state@.accounts.len(),
            ),
            m.scope_migrated == needs_scope(old(self).state@),
            assignments_view(m.assignments@) == migration_changes(
                old(self).state@,
                route_view(route@),
                old(self).rules@,
            ),
    {
        let ghost s0 = self.state@.accounts;
        let ghost rules = self.rules@;
        let ghost first = *self;
        let mut filled: Vec<StoredAccount> = Vec::new();
        let mut provider_added: usize = 0;
        let ghost all = with_providers(s0);
        assert(records(filled@) =~= all.take(0));
        for i in 0..self.state.accounts.len()
            invariant
                *self == first,
                s0 == records(self.state.accounts@),
                all == with_providers(s0),
                filled@.len() == i,
                provider_added == unnamed(s0, i as nat),
                provider_added <= i,
                records(filled@) == all.take(i as int),
        {
            let ghost before = filled@;
            let mut record = self.state.accounts[i].dup();
            assert(s0[i as int] == record@);
            if record.provider_explicit().is_none() {
                record.set_provider("workbuddy");
                provider_added = provider_added + 1;
            }
            assert(record@ == all[i as int]);
            filled.push(record);
            assert(records(filled@) =~= records(before).push(filled@.last()@));
            assert(all.take(i + 1) =~= all.take(i as int).push(all[i as int]));
        }
        assert(all.take(all.len() as int) =~= all);
        self.state.accounts = filled;
        let scope_migrated = match &self.state.priority_scope {
            Some(scope) => !same(scope.as_str(), "global"),
            None => true,
        };
        let ghost s = self.state@.accounts;
        let band = self.rules.band;
        let mut assignments: Vec<PriorityAssignment> = Vec::new();
        assert(assignments_view(assignments@) =~= Seq::empty());
        if self.state.accounts.len() > 0 && (scope_migrated || any_repeated(
            &self.state.accounts,
            band,
        )) {
            let mut queue = if scope_migrated {
                self.in_legacy_order(route)
            } else {
                in_order(&self.state.accounts, band)
            };
            assignments = renumber(&mut queue, band);
            self.state.accounts = queue;
        }
        self.state.priority_scope = Some("global".to_owned());
        Migration { provider_added, scope_migrated, assignments }
    }

    /// Takes over the session of a single account, once.
    pub fn import_legacy_session(&mut self, legacy: &JsonValue, now: i64) -> (r: Option<
        StoredAccount,
    >)
        requires
            old(self).rules.band.wf(),
        ensures
            final(self).rules == old(self).rules,
            final(self).state@.scope == old(self).state@.scope,
            ({
                let s = old(self).state@.accounts;
                let p = legacy_payload(legacy@);
                let none = Ok::<JsonValue, AccountStoreError>(JsonValue::Null);
                if takes_over(s, legacy@) && add_refusal(s, Json::Obj(p), none, old(self).rules@.band)
                    is None {
                    &&& r is Some
                    &&& r->0@ == added_record(
                        s,
                        p,
                        inner_text(legacy@, "account"@, "nickname"@),
                        none,
                        old(self).rules@,
                        now,
                    )
                    &&& final(self).state@.accounts == kept_others(s, p).push(r->0@)
                } else {
                    r is None && final(self).state == old(self).state
                }
            }),
    {
        if !is_given(&inner(legacy, "auth", "accessToken")) {
            return None;
        }
        assert(records(self.state.accounts@).len() == self.state.accounts@.len());
        if self.state.accounts.len() != 0 {
            return None;
        }
        if !is_given(&inner(legacy, "account", "uid")) {
            return None;
        }
        let nickname = inner(legacy, "account", "nickname");
        let mut o = Object::new();
        o.push("auth", dup_or_null(legacy.get("auth")));
        o.push("account", dup_or_null(legacy.get("account")));
        o.push("prefixPath", dup_or_null(legacy.get("prefixPath")));
        o.push("endpoint", dup_or_null(legacy.get("endpoint")));
        o.push("platform", dup_or_null(legacy.get("platform")));
        o.push("edition", dup_or_null(legacy.get("edition")));
        assert(o@ =~= legacy_payload(legacy@));
        let payload = JsonValue::Obj(o);
        match self.add_account(
            &payload,
            match &nickname {
                Some(s) => Some(s.as_str()),
                None => None,
            },
            Ok(JsonValue::Null),
            now,
        ) {
            Ok(record) => Some(record),
            Err(_) => None,
        }
    }
}

} // verus!
