//! The queue of the accounts, account by account.
use vstd::prelude::*;
use crate::account_store::priority::{
    holder, holder_is_none, holds_priority, priority_from, PriorityBand,
};
use crate::account_store::record_laws::{lemma_record_keys, patch_takes_effect, says};
use crate::account_store::state::{
    desktop_of, enabled_of, has_token_of, id_of, index_of, index_of_is_first, name_of, others_than,
    priority_of, provider_of,
};
use crate::account_store::store::{
    count_of, credentials_match, current_is_head_of_usable, current_of, edition_for, edition_named,
    head_of_provider, heads, json_id_at, keys_of, listing, live_source_of, queue_of, serves,
    serving, shown, summary_of, usable, AccountStoreError, CredentialsById, EditionView,
    LiveCredentials, LiveSource, ProxyResolution, RulesView,
};
use crate::account_store::store_admin::{
    legacy_keys, legacy_order, legacy_payload, migration_report, routed_rank, takes_over,
    with_provider, Migration,
};
use crate::account_store::store_crud::{
    add_refusal, added_access, added_priority, added_refresh, added_uid, band_holds, batch_answer,
    batch_patch, batch_refusal, batch_run, batch_step, distinct_ids, distinct_priorities,
    entries_of, kept_others, lemma_priority_in_band, move_answer, moved_front, ordered, patch_name,
    patched, promoted, promotion_answer, removal_report, renumbered, renumbering_is_consecutive,
    replaced, target_of, with_field, BatchOutcome, BatchView, MoveOutcome, Patched, ProxyPatch,
};
use crate::json::{
    find, find_of_put, json_int, lemma_find_at, list_view, text_or_empty, Fields, Json, JsonValue,
};
use crate::number::{small_integers_are_doubles, EXACT_BELOW};
use crate::order::{
    best_is_first_marked, key_le, order_holds_every_position, order_is_stable_sort, stable_order,
};
use crate::protocol::stream_laws::{part_of, said};
use crate::text::trimmed;

verus! {

// ─── The order of the queue ──────────────────────────────────

/// The number of a record, where it is written as one.
pub open spec fn numbered(f: Fields, n: int, band: PriorityBand) -> bool {
    find(f, "priority"@) == Some(json_int(n)) && band.lowest <= n <= band.highest && -(
    EXACT_BELOW as int) < n < EXACT_BELOW
}

proof fn lemma_numbered(f: Fields, n: int, band: PriorityBand)
    requires
        numbered(f, n, band),
    ensures
        priority_of(f, band) == n,
{
    small_integers_are_doubles(n);
}

/// The queue holds every record once, and a smaller number stands before a larger one.
pub proof fn queue_goes_by_number(
    s: Seq<Fields>,
    band: PriorityBand,
    i: int,
    j: int,
    m: int,
    n: int,
)
    requires
        0 <= i < j < s.len(),
        numbered(ordered(s, band)[i], m, band),
        numbered(ordered(s, band)[j], n, band),
    ensures
        ordered(s, band).len() == s.len(),
        m <= n,
        ordered(s, band).contains(s[i]),
        ordered(s, band).contains(s[j]),
{
    let keys = keys_of(s, band);
    let o = stable_order(keys);
    order_is_stable_sort(keys);
    order_holds_every_position(keys, i);
    order_holds_every_position(keys, j);
    let a = choose|a: int| 0 <= a < o.len() && o[a] == i;
    let b = choose|b: int| 0 <= b < o.len() && o[b] == j;
    let q = ordered(s, band);
    assert(q[a] == s[i]);
    assert(q[b] == s[j]);
    assert(key_le(keys[o[i]], keys[o[j]]));
    assert(q[i] == s[o[i]] && q[j] == s[o[j]]);
    lemma_numbered(q[i], m, band);
    lemma_numbered(q[j], n, band);
}

/// The account can be used: it is not switched off, it has a token or is that of the desktop
/// client, and its provider forwards.
pub open spec fn in_use(f: Fields, rules: RulesView) -> bool {
    &&& find(f, "enabled"@) != Some(Json::Bool(false))
    &&& says(f, "accessToken"@) || find(f, "desktop"@) == Some(Json::Bool(true))
    &&& !rules.silent.contains(provider_of(f))
}

/// The current account can be used, and no account that can be used has a smaller number; there
/// is none exactly where none can be used.
pub proof fn current_account_is_first_in_use(
    s: Seq<Fields>,
    rules: RulesView,
    j: int,
    m: int,
    n: int,
)
    requires
        0 <= j < s.len(),
        in_use(s[j], rules),
    ensures
        ({
            let at = current_of(s, rules);
            &&& at is Some
            &&& 0 <= at->0 < s.len()
            &&& in_use(s[at->0], rules)
            &&& numbered(s[at->0], m, rules.band) && numbered(s[j], n, rules.band) ==> m <= n
        }),
{
    current_is_head_of_usable(s, rules);
    assert(usable(s[j], rules));
    let i = current_of(s, rules)->0;
    if numbered(s[i], m, rules.band) && numbered(s[j], n, rules.band) {
        lemma_numbered(s[i], m, rules.band);
        lemma_numbered(s[j], n, rules.band);
    }
}

/// Where no account can be used there is no current one.
pub proof fn no_account_in_use_no_current(s: Seq<Fields>, rules: RulesView)
    requires
        forall|j: int| 0 <= j < s.len() ==> !in_use(#[trigger] s[j], rules),
    ensures
        current_of(s, rules) is None,
{
    current_is_head_of_usable(s, rules);
    if current_of(s, rules) is Some {
        let i = current_of(s, rules)->0;
        assert(!in_use(s[i], rules));
    }
}

/// One place up has a smaller number, one place down a larger one.
pub proof fn neighbours_differ_in_number(s: Seq<Fields>, band: PriorityBand, at: int, m: int, n: int)
    requires
        distinct_priorities(ordered(s, band), band),
        0 <= at < s.len(),
        ordered(s, band).len() == s.len(),
    ensures
        ({
            let q = ordered(s, band);
            let up = target_of(at, false);
            let down = target_of(at, true);
            &&& 0 <= up && numbered(q[up], m, band) && numbered(q[at], n, band) ==> up < s.len()
                && m < n
            &&& down < s.len() && numbered(q[down], m, band) && numbered(q[at], n, band) ==> 0
                <= down && n < m
            &&& up < 0 <==> at == 0
            &&& down >= s.len() <==> at == s.len() - 1
        }),
{
    let q = ordered(s, band);
    if at > 0 && numbered(q[at - 1], m, band) && numbered(q[at], n, band) {
        queue_goes_by_number(s, band, at - 1, at, m, n);
        lemma_numbered(q[at - 1], m, band);
        lemma_numbered(q[at], n, band);
        assert(priority_of(q[at - 1], band) != priority_of(q[at], band));
    }
    if at + 1 < s.len() && numbered(q[at + 1], m, band) && numbered(q[at], n, band) {
        queue_goes_by_number(s, band, at, at + 1, n, m);
        lemma_numbered(q[at + 1], m, band);
        lemma_numbered(q[at], n, band);
        assert(priority_of(q[at], band) != priority_of(q[at + 1], band));
    }
}

/// Where an account of the queue comes from that is at `i` after the one at `at` went first.
pub open spec fn came_from(i: int, at: int) -> int {
    if i == 0 {
        at
    } else if i <= at {
        i - 1
    } else {
        i
    }
}

/// A promotion changes the number of accounts and whether the promoted one is enabled, and
/// nothing else of any; the others keep their order.
pub proof fn promotion_keeps_the_others(
    q: Seq<Fields>,
    at: int,
    band: PriorityBand,
    i: int,
    key: Seq<char>,
)
    requires
        0 <= at < q.len(),
        0 <= i < q.len(),
        distinct_ids(moved_front(q, at)),
        band_holds(band, q.len()),
        key != "priority"@,
    ensures
        renumbered(moved_front(q, at), band).len() == q.len(),
        find(renumbered(moved_front(q, at), band)[i], key) == find(q[came_from(i, at)], key),
        priority_of(renumbered(moved_front(q, at), band)[i], band) == band.lowest + i,
{
    let m = moved_front(q, at);
    assert(m.len() == q.len());
    renumbering_is_consecutive(m, band);
    assert(m[i] == q[came_from(i, at)]);
}

/// Enabling an account in the queue leaves all its other fields, and all other accounts.
pub proof fn enabling_changes_one_switch(
    q: Seq<Fields>,
    id: Seq<char>,
    i: int,
    key: Seq<char>,
)
    requires
        0 <= i < q.len(),
        index_of(q, id) < q.len(),
        key != "enabled"@ || i != index_of(q, id),
    ensures
        with_field(q, id, "enabled"@, Json::Bool(true)).len() == q.len(),
        find(with_field(q, id, "enabled"@, Json::Bool(true))[i], key) == find(q[i], key),
        enabled_of(with_field(q, id, "enabled"@, Json::Bool(true))[index_of(q, id)]),
{
    broadcast use find_of_put;

    index_of_is_first(q, id);
}

// ─── Removals and batches ────────────────────────────────────

/// What stays after a removal are the accounts with other ids, in their order.
pub proof fn removal_keeps_the_others(s: Seq<Fields>, id: Seq<char>)
    ensures
        others_than(s, id) == s.filter(|f: Fields| text_or_empty(find(f, "id"@)) != id),
    decreases s.len(),
{
    reveal(Seq::filter);
    if s.len() > 0 {
        removal_keeps_the_others(s.drop_last(), id);
    }
}

proof fn lemma_report_words()
    ensures
        "id"@.len() == 2,
        "name"@.len() == 4,
        "changes"@.len() == 7,
        "error"@.len() == 5,
{
    reveal_strlit("id");
    reveal_strlit("name");
    reveal_strlit("changes");
    reveal_strlit("error");
}

/// A removal of several reports each id: those that were there with their names, and those that
/// were not as failed.
pub proof fn removal_reports_every_id(s: Seq<Fields>, ids: Seq<Seq<char>>, k: int)
    requires
        0 <= k < ids.len(),
    ensures
        removal_report(s, ids).0.len() + removal_report(s, ids).1.len() == ids.len(),
        index_of(s, ids[k]) < s.len() ==> exists|i: int|
            0 <= i < removal_report(s, ids).0.len() && part_of(
                #[trigger] removal_report(s, ids).0[i],
                "id"@,
            ) == Json::Str(ids[k]) && part_of(removal_report(s, ids).0[i], "name"@) == Json::Str(
                name_of(s[index_of(s, ids[k])]),
            ),
        index_of(s, ids[k]) >= s.len() ==> exists|i: int|
            0 <= i < removal_report(s, ids).1.len() && part_of(
                #[trigger] removal_report(s, ids).1[i],
                "id"@,
            ) == Json::Str(ids[k]) && part_of(removal_report(s, ids).1[i], "error"@) is Str,
    decreases ids.len(),
{
    lemma_report_words();
    let short = ids.drop_last();
    let before = removal_report(s, short);
    let all = removal_report(s, ids);
    lemma_report_len(s, ids);
    if k < short.len() {
        removal_reports_every_id(s, short, k);
        if index_of(s, ids[k]) < s.len() {
            let i = choose|i: int|
                0 <= i < before.0.len() && part_of(#[trigger] before.0[i], "id"@) == Json::Str(
                    short[k],
                ) && part_of(before.0[i], "name"@) == Json::Str(
                    name_of(s[index_of(s, short[k])]),
                );
            assert(all.0[i] == before.0[i]);
        } else {
            let i = choose|i: int|
                0 <= i < before.1.len() && part_of(#[trigger] before.1[i], "id"@) == Json::Str(
                    short[k],
                ) && part_of(before.1[i], "error"@) is Str;
            assert(all.1[i] == before.1[i]);
        }
    } else if index_of(s, ids[k]) < s.len() {
        let e = all.0[all.0.len() - 1];
        lemma_find_at(e->Obj_0, "id"@, 0);
        lemma_find_at(e->Obj_0, "name"@, 1);
        assert(part_of(all.0[all.0.len() - 1], "id"@) == Json::Str(ids[k]));
    } else {
        let e = all.1[all.1.len() - 1];
        lemma_find_at(e->Obj_0, "id"@, 0);
        lemma_find_at(e->Obj_0, "error"@, 1);
        assert(part_of(all.1[all.1.len() - 1], "id"@) == Json::Str(ids[k]));
    }
}

proof fn lemma_report_len(s: Seq<Fields>, ids: Seq<Seq<char>>)
    ensures
        removal_report(s, ids).0.len() + removal_report(s, ids).1.len() == ids.len(),
    decreases ids.len(),
{
    if ids.len() > 0 {
        lemma_report_len(s, ids.drop_last());
    }
}

/// A batch may switch accounts and set their proxy, as its patch says, and nothing else.
pub proof fn batch_changes_switch_and_proxy(
    patch: Fields,
    proxy: Result<ProxyPatch, AccountStoreError>,
    key: Seq<char>,
)
    ensures
        ({
            let b = batch_patch(patch, proxy);
            &&& find(patch, "enabled"@) == Some(Json::Bool(false)) ==> find(b, "enabled"@) == Some(
                Json::Bool(false),
            )
            &&& find(patch, "enabled"@) == Some(Json::Bool(true)) ==> find(b, "enabled"@) == Some(
                Json::Bool(true),
            )
            &&& find(patch, "enabled"@) is None ==> find(b, "enabled"@) is None
            &&& find(patch, "proxy"@) is Some && proxy is Ok ==> find(b, "proxy"@) == Some(
                proxy->Ok_0.value@,
            )
            &&& find(patch, "proxy"@) is None ==> find(b, "proxy"@) is None
            &&& key != "enabled"@ && key != "proxy"@ ==> find(b, key) is None
        }),
{
    lemma_record_keys();
    let b = batch_patch(patch, proxy);
    if find(patch, "enabled"@) is Some {
        lemma_find_at(b, "enabled"@, 0);
        if find(patch, "proxy"@) is Some {
            lemma_find_at(b, "proxy"@, 1);
        } else {
            crate::json::lemma_find_none(b, "proxy"@);
        }
    } else {
        crate::json::lemma_find_none(b, "enabled"@);
        if find(patch, "proxy"@) is Some {
            lemma_find_at(b, "proxy"@, 0);
        } else {
            crate::json::lemma_find_none(b, "proxy"@);
        }
    }
    if key != "enabled"@ && key != "proxy"@ {
        crate::json::lemma_find_none(b, key);
    }
}

/// One account of a batch: it is switched as the patch says and reported as done, and no other
/// account changes. One that is not there is reported as failed.
pub proof fn batch_switches_the_account(
    b: BatchView,
    id: Seq<char>,
    allowed: Fields,
    proxy: Result<ProxyPatch, AccountStoreError>,
    band: PriorityBand,
    now: i64,
)
    requires
        find(allowed, "name"@) is None,
        find(allowed, "priority"@) is None,
        find(allowed, "proxy"@) is None,
    ensures
        ({
            let c = batch_step(b, id, allowed, proxy, band, now);
            let i = index_of(b.accounts, id);
            &&& i < b.accounts.len() ==> {
                &&& c.accounts.len() == b.accounts.len()
                &&& find(allowed, "enabled"@) == Some(Json::Bool(false)) ==> !enabled_of(
                    c.accounts[i],
                )
                &&& find(allowed, "enabled"@) == Some(Json::Bool(true)) ==> enabled_of(
                    c.accounts[i],
                )
                &&& find(c.accounts[i], "accessToken"@) == find(b.accounts[i], "accessToken"@)
                &&& forall|k: int|
                    0 <= k < b.accounts.len() && k != i ==> #[trigger] c.accounts[k]
                        == b.accounts[k]
                &&& c.done.len() == b.done.len() + 1
                &&& part_of(c.done.last(), "id"@) == Json::Str(id)
                &&& c.failed == b.failed
            }
            &&& i >= b.accounts.len() ==> {
                &&& c.accounts == b.accounts
                &&& c.done == b.done
                &&& c.failed.len() == b.failed.len() + 1
                &&& part_of(c.failed.last(), "id"@) == Json::Str(id)
            }
        }),
{
    broadcast use find_of_put;

    lemma_record_keys();
    lemma_report_words();
    index_of_is_first(b.accounts, id);
    let c = batch_step(b, id, allowed, proxy, band, now);
    let i = index_of(b.accounts, id);
    if i < b.accounts.len() {
        patch_takes_effect(b.accounts[i], allowed, proxy, b.accounts, band);
        lemma_find_at(c.done.last()->Obj_0, "id"@, 0);
    } else {
        lemma_find_at(c.failed.last()->Obj_0, "id"@, 0);
    }
}

// ─── What is told of the accounts ────────────────────────────

proof fn lemma_listing_words()
    ensures
        "currentAccountId"@.len() == 16,
        "currentAccountIds"@.len() == 17,
        "accounts"@.len() == 8,
        "providers"@.len() == 9,
        "hasCredentials"@.len() == 14,
        "chatSupported"@.len() == 13,
        "id"@.len() == 2,
        "label"@.len() == 5,
        "count"@.len() == 5,
        "label"@ != "count"@,
{
    reveal_strlit("currentAccountId");
    reveal_strlit("currentAccountIds");
    reveal_strlit("accounts");
    reveal_strlit("providers");
    reveal_strlit("hasCredentials");
    reveal_strlit("chatSupported");
    reveal_strlit("id");
    reveal_strlit("label");
    reveal_strlit("count");
    assert("label"@[0] != "count"@[0]);
}

/// The listing names the current account, shows every account, and counts those of each provider.
pub proof fn listing_shows_every_account(
    s: Seq<Fields>,
    shaped: Seq<Json>,
    rules: RulesView,
    i: int,
    p: int,
)
    requires
        shaped.len() == s.len(),
        0 <= i < s.len(),
        0 <= p < rules.providers.len(),
    ensures
        ({
            let l = listing(s, shaped, rules);
            let all = part_of(l, "accounts"@)->Arr_0;
            let counts = part_of(l, "providers"@)->Arr_0;
            &&& current_of(s, rules) is Some ==> part_of(l, "currentAccountId"@) == Json::Str(
                id_of(s[current_of(s, rules)->0]),
            )
            &&& current_of(s, rules) is None ==> part_of(l, "currentAccountId"@) == Json::Null
            &&& part_of(l, "accounts"@) is Arr
            &&& all.len() == s.len()
            &&& shaped[i] is Obj ==> part_of(all[i], "hasCredentials"@) == Json::Bool(
                has_token_of(s[i]) || desktop_of(s[i]),
            ) && part_of(all[i], "chatSupported"@) == Json::Bool(
                !rules.silent.contains(provider_of(s[i])),
            )
            &&& shaped[i] is Obj ==> part_of(all[i], "id"@) == part_of(shaped[i], "id"@)
            &&& part_of(l, "providers"@) is Arr
            &&& counts.len() == rules.providers.len()
            &&& part_of(counts[p], "id"@) == Json::Str(rules.providers[p].0)
            &&& part_of(counts[p], "label"@) == Json::Str(rules.providers[p].1)
            &&& part_of(counts[p], "count"@) == json_int(
                s.filter(|f: Fields| provider_of(f) == rules.providers[p].0).len() as int,
            )
        }),
{
    broadcast use find_of_put;

    lemma_listing_words();
    let o = listing(s, shaped, rules)->Obj_0;
    lemma_find_at(o, "currentAccountId"@, 0);
    lemma_find_at(o, "accounts"@, 2);
    lemma_find_at(o, "providers"@, 3);
    assert(shown(s, shaped, rules)[i] == crate::account_store::store::with_facts(
        shaped[i],
        s[i],
        rules,
    ));
    let c = summary_of(s, rules)[p]->Obj_0;
    lemma_find_at(c, "id"@, 0);
    lemma_find_at(c, "label"@, 1);
    lemma_find_at(c, "count"@, 2);
    lemma_count(s, rules.providers[p].0, s.len());
    assert(s.take(s.len() as int) =~= s);
}

proof fn lemma_count(s: Seq<Fields>, provider: Seq<char>, n: nat)
    requires
        n <= s.len(),
    ensures
        count_of(s, provider, n) == s.take(n as int).filter(
            |f: Fields| provider_of(f) == provider,
        ).len(),
    decreases n,
{
    reveal(Seq::filter);
    if n > 0 {
        lemma_count(s, provider, (n - 1) as nat);
        assert(s.take(n as int).drop_last() =~= s.take(n - 1));
    }
}

/// The credentials of an account are its own: its id, its user, its tokens, its addresses and its
/// place in the queue.
pub proof fn credentials_are_the_accounts(
    c: CredentialsById,
    f: Fields,
    rules: RulesView,
    resolution: Option<ProxyResolution>,
)
    requires
        credentials_match(c, f, rules, resolution, None),
    ensures
        says(f, "id"@) ==> find(f, "id"@) == Some(Json::Str(c.id@)),
        says(f, "name"@) ==> find(f, "name"@) == Some(Json::Str(c.name@)),
        says(f, "uid"@) ==> find(f, "uid"@) == Some(Json::Str(c.uid@)),
        says(f, "accessToken"@) ==> find(f, "accessToken"@) == Some(Json::Str(c.access_token@)),
        says(f, "refreshToken"@) ==> find(f, "refreshToken"@) == Some(Json::Str(c.refresh_token@)),
        says(f, "endpoint"@) ==> find(f, "endpoint"@) == Some(Json::Str(c.endpoint@)),
        says(f, "prefixPath"@) ==> find(f, "prefixPath"@) == Some(Json::Str(c.prefix_path@)),
        says(f, "platform"@) ==> find(f, "platform"@) == Some(Json::Str(c.platform@)),
        c.enabled == (find(f, "enabled"@) != Some(Json::Bool(false))),
        forall|n: int|
            #![trigger json_int(n)]
            numbered(f, n, rules.band) ==> c.priority == n,
{
    assert forall|n: int|
        #![trigger json_int(n)]
        numbered(f, n, rules.band) implies c.priority == n by {
        lemma_numbered(f, n, rules.band);
    }
}

/// Live credentials count before those of the record.
pub proof fn live_credentials_count_first(
    c: CredentialsById,
    f: Fields,
    rules: RulesView,
    resolution: Option<ProxyResolution>,
    live: LiveCredentials,
)
    requires
        credentials_match(c, f, rules, resolution, Some(live)),
    ensures
        c.access_token@ == live.token@,
        c.refresh_token@ == live.refresh_token@,
{
}

// ─── Older files ─────────────────────────────────────────────

proof fn lemma_legacy_words()
    ensures
        "auth"@.len() == 4,
        "account"@.len() == 7,
        "prefixPath"@.len() == 10,
        "endpoint"@.len() == 8,
        "platform"@.len() == 8,
        "edition"@.len() == 7,
        "account"@ != "edition"@,
        "endpoint"@ != "platform"@,
{
    reveal_strlit("auth");
    reveal_strlit("account");
    reveal_strlit("prefixPath");
    reveal_strlit("endpoint");
    reveal_strlit("platform");
    reveal_strlit("edition");
    assert("account"@[0] != "edition"@[0]);
    assert("endpoint"@[0] != "platform"@[0]);
}

/// An old session is taken over as it is, where there is no account and it has a token and a user.
pub proof fn old_session_is_taken_over(s: Seq<Fields>, legacy: Json)
    ensures
        ({
            let p = Json::Obj(legacy_payload(legacy));
            &&& part_of(p, "auth"@) == part_of(legacy, "auth"@)
            &&& part_of(p, "account"@) == part_of(legacy, "account"@)
            &&& part_of(p, "prefixPath"@) == part_of(legacy, "prefixPath"@)
            &&& part_of(p, "endpoint"@) == part_of(legacy, "endpoint"@)
            &&& part_of(p, "platform"@) == part_of(legacy, "platform"@)
            &&& part_of(p, "edition"@) == part_of(legacy, "edition"@)
        }),
        takes_over(s, legacy) <==> s.len() == 0 && said(
            part_of(part_of(legacy, "auth"@), "accessToken"@),
        ).len() > 0 && said(part_of(part_of(legacy, "account"@), "uid"@)).len() > 0,
{
    lemma_legacy_words();
    let o = legacy_payload(legacy);
    lemma_find_at(o, "auth"@, 0);
    lemma_find_at(o, "account"@, 1);
    lemma_find_at(o, "prefixPath"@, 2);
    lemma_find_at(o, "endpoint"@, 3);
    lemma_find_at(o, "platform"@, 4);
    lemma_find_at(o, "edition"@, 5);
}

/// A record that names its provider keeps it, and one that names none gets the default one.
pub proof fn provider_is_named(f: Fields, key: Seq<char>)
    ensures
        says(f, "provider"@) ==> with_provider(f) == f,
        !says(f, "provider"@) ==> find(with_provider(f), "provider"@) == Some(
            Json::Str("workbuddy"@),
        ),
        key != "provider"@ ==> find(with_provider(f), key) == find(f, key),
{
    broadcast use find_of_put;

}

// ─── Numbers and editions ────────────────────────────────────

/// A number within the band counts as it is, one outside counts as the nearest bound; without a
/// number the other counts.
pub proof fn number_is_brought_into_the_band(n: int, fallback: int, band: PriorityBand)
    requires
        band.wf(),
        -(EXACT_BELOW as int) < n < EXACT_BELOW,
    ensures
        band.lowest <= n <= band.highest ==> priority_from(Some(json_int(n)), fallback, band) == n,
        n < band.lowest ==> priority_from(Some(json_int(n)), fallback, band) == band.lowest,
        n > band.highest ==> priority_from(Some(json_int(n)), fallback, band) == band.highest,
        priority_from(None, fallback, band) == fallback,
        priority_from(Some(Json::Null), fallback, band) == fallback,
{
    small_integers_are_doubles(n);
}

/// An edition is found by its id; an unknown one, or none, is the usual one.
pub proof fn edition_is_found(rules: RulesView, i: int, id: Seq<char>)
    ensures
        0 <= i < rules.editions.len() && rules.editions[i].id == id && (forall|j: int|
            0 <= j < i ==> (#[trigger] rules.editions[j]).id != id) ==> edition_for(rules, Some(id))
            == rules.editions[i],
        (forall|j: int| 0 <= j < rules.editions.len() ==> (#[trigger] rules.editions[j]).id != id)
            ==> edition_for(rules, Some(id)) == rules.fallback_edition,
        edition_for(rules, None) == rules.fallback_edition,
{
    lemma_edition_named(rules.editions, i, id);
}

proof fn lemma_edition_named(editions: Seq<EditionView>, i: int, id: Seq<char>)
    ensures
        0 <= i < editions.len() && editions[i].id == id && (forall|j: int|
            0 <= j < i ==> (#[trigger] editions[j]).id != id) ==> edition_named(editions, id)
            == Some(editions[i]),
        (forall|j: int| 0 <= j < editions.len() ==> (#[trigger] editions[j]).id != id)
            ==> edition_named(editions, id) is None,
    decreases editions.len(),
{
    if editions.len() > 0 && editions[0].id != id {
        let rest = editions.drop_first();
        lemma_edition_named(rest, i - 1, id);
        if 0 <= i < editions.len() && editions[i].id == id && (forall|j: int|
            0 <= j < i ==> (#[trigger] editions[j]).id != id) {
            assert forall|j: int| 0 <= j < i - 1 implies (#[trigger] rest[j]).id != id by {
                assert(rest[j] == editions[j + 1]);
            }
            assert(rest[i - 1] == editions[i]);
        }
        if forall|j: int| 0 <= j < editions.len() ==> (#[trigger] editions[j]).id != id {
            assert forall|j: int| 0 <= j < rest.len() implies (#[trigger] rest[j]).id != id by {
                assert(rest[j] == editions[j + 1]);
            }
        }
    } else if editions.len() > 0 {
        assert(editions[0].id == id);
        if 0 < i < editions.len() && (forall|j: int|
            0 <= j < i ==> (#[trigger] editions[j]).id != id) {
            assert(editions[0].id != id);
        }
    }
}

// ─── What is refused ─────────────────────────────────────────

/// Whether a number is free among some accounts.
pub open spec fn free_number(s: Seq<Fields>, n: int, band: PriorityBand) -> bool {
    forall|k: int| 0 <= k < s.len() ==> priority_of(#[trigger] s[k], band) != n
}

/// An account is added exactly where it is an object with a token that is not too long and a
/// user, there is room for it, its proxy is in order and its number is free. A number that is
/// taken is told apart from what is wrong in itself.
pub proof fn proper_account_is_added(
    s: Seq<Fields>,
    p: Fields,
    proxy: Result<JsonValue, AccountStoreError>,
    band: PriorityBand,
)
    requires
        band.wf(),
    ensures
        ({
            let others = kept_others(s, p);
            let n = added_priority(s, p, band);
            let sound = 0 < added_access(p).len() <= 8192 && added_refresh(p).len() <= 8192
                && added_uid(p).len() > 0 && (replaced(s, p) is Some || others.len() < 20) && (find(
                p,
                "proxy"@,
            ) is None || proxy is Ok);
            let r = add_refusal(s, Json::Obj(p), proxy, band);
            &&& sound && i64::MIN <= n <= i64::MAX && free_number(others, n, band) ==> r is None
            &&& r is None && i64::MIN <= n <= i64::MAX ==> sound && free_number(others, n, band)
            &&& sound && r is Some ==> r->0.status == 409
            &&& added_access(p).len() == 0 ==> r is Some && r->0.status == 400
        }),
        add_refusal(s, Json::Null, proxy, band) is Some,
{
    let others = kept_others(s, p);
    let n = added_priority(s, p, band);
    let e = entries_of(others, band);
    holder_is_none(e, n as i64, None);
    assert forall|k: int| 0 <= k < others.len() implies (#[trigger] e[k]).priority == priority_of(
        others[k],
        band,
    ) by {
        lemma_priority_in_band(others[k], band);
    }
    if i64::MIN <= n <= i64::MAX {
        if free_number(others, n, band) {
            assert forall|k: int| 0 <= k < e.len() implies !holds_priority(
                #[trigger] e[k],
                n as i64,
                None,
            ) by {
                assert(priority_of(others[k], band) != n);
            }
        }
        if holder(e, n as i64, None) is None {
            assert forall|k: int| 0 <= k < others.len() implies priority_of(
                #[trigger] others[k],
                band,
            ) != n by {
                assert(!holds_priority(e[k], n as i64, None));
            }
        }
    }
}

/// A patch is refused only for an empty name, a number that another account holds, or a proxy that
/// is not in order.
pub proof fn proper_patch_is_accepted(
    f: Fields,
    patch: Fields,
    proxy: Result<ProxyPatch, AccountStoreError>,
    s: Seq<Fields>,
    band: PriorityBand,
)
    requires
        band.wf(),
        find(patch, "name"@) is None || trimmed(text_or_empty(find(patch, "name"@))).len() > 0,
        find(patch, "proxy"@) is None || proxy is Ok,
        find(patch, "priority"@) is None || forall|k: int|
            0 <= k < s.len() ==> (id_of(#[trigger] s[k]) == id_of(f) || priority_of(s[k], band)
                != priority_from(find(patch, "priority"@), priority_of(f, band), band)),
    ensures
        patched(f, patch, proxy, s, band) is Ok,
{
    broadcast use find_of_put;

    lemma_record_keys();
    let next = priority_from(find(patch, "priority"@), priority_of(f, band), band);
    let e = entries_of(s, band);
    lemma_priority_in_band(f, band);
    holder_is_none(e, next as i64, Some(id_of(f)));
    if find(patch, "priority"@) is Some {
        assert(band.lowest <= next <= band.highest);
        assert forall|k: int| 0 <= k < e.len() implies !holds_priority(
            #[trigger] e[k],
            next as i64,
            Some(id_of(f)),
        ) by {
            lemma_priority_in_band(s[k], band);
            assert(e[k].id == id_of(s[k]));
            assert(id_of(s[k]) == id_of(f) || priority_of(s[k], band) != next);
        }
    }
    let d = patch_name(Patched { record: f, changes: Seq::empty() }, patch);
    assert(d is Ok);
    assert(find(d->Ok_0.record, "priority"@) == find(f, "priority"@));
    assert(find(d->Ok_0.record, "id"@) == find(f, "id"@));
}

// ─── Answers and reports ─────────────────────────────────────

/// The queue of a provider holds its accounts that are enabled and have credentials, all of them
/// and no other.
pub proof fn provider_queue_holds_its_accounts(
    s: Seq<Fields>,
    provider: Seq<char>,
    band: PriorityBand,
    i: int,
)
    ensures
        ({
            let mine = |k: int|
                0 <= k < s.len() && provider_of(s[k]) == provider && find(s[k], "enabled"@) != Some(
                    Json::Bool(false),
                ) && (says(s[k], "accessToken"@) || find(s[k], "desktop"@) == Some(
                    Json::Bool(true),
                ));
            &&& mine(i) ==> queue_of(s, provider, band).contains(i)
            &&& 0 <= i < queue_of(s, provider, band).len() ==> mine(
                queue_of(s, provider, band)[i],
            )
        }),
{
    let keys = keys_of(s, band);
    let o = stable_order(keys);
    order_is_stable_sort(keys);
    let pred = |k: int| serves(s[k], provider);
    assert(queue_of(s, provider, band) == o.filter(pred));
    if 0 <= i < s.len() && serves(s[i], provider) {
        order_holds_every_position(keys, i);
        let a = choose|a: int| 0 <= a < o.len() && o[a] == i;
        o.lemma_filter_contains(pred, a);
    }
    if 0 <= i < o.filter(pred).len() {
        o.lemma_filter_pred(pred, i);
        lemma_filter_from(o, pred, i);
        let k = choose|k: int| 0 <= k < o.len() && o[k] == o.filter(pred)[i];
    }
}

proof fn lemma_filter_from(o: Seq<int>, pred: spec_fn(int) -> bool, i: int)
    requires
        0 <= i < o.filter(pred).len(),
    ensures
        o.contains(o.filter(pred)[i]),
    decreases o.len(),
{
    reveal(Seq::filter);
    if o.len() > 0 {
        let short = o.drop_last();
        let x = o.filter(pred)[i];
        if i < short.filter(pred).len() {
            lemma_filter_from(short, pred, i);
            let k = choose|k: int| 0 <= k < short.len() && short[k] == short.filter(pred)[i];
            assert(o[k] == x);
        } else {
            assert(o[o.len() - 1] == x);
        }
    }
}

/// Live credentials are asked of two desktop clients, each for its own records.
pub proof fn live_credentials_are_the_desktops(f: Fields)
    ensures
        find(f, "desktop"@) != Some(Json::Bool(true)) ==> live_source_of(f) is None,
        find(f, "desktop"@) == Some(Json::Bool(true)) && find(f, "provider"@) == Some(
            Json::Str("autoclaw"@),
        ) ==> live_source_of(f) == Some(LiveSource::AutoClaw),
        find(f, "desktop"@) == Some(Json::Bool(true)) && find(f, "provider"@) == Some(
            Json::Str("raccoon"@),
        ) ==> live_source_of(f) == Some(LiveSource::Raccoon),
{
    reveal_strlit("autoclaw");
    reveal_strlit("raccoon");
    assert("autoclaw"@.len() == 8 && "raccoon"@.len() == 7);
}

proof fn lemma_answer_words()
    ensures
        "id"@.len() == 2,
        "changed"@.len() == 7,
        "reason"@.len() == 6,
        "changes"@.len() == 7,
        "currentAccountId"@.len() == 16,
        "list"@.len() == 4,
        "moved"@.len() == 5,
        "newPriority"@.len() == 11,
        "swappedWith"@.len() == 11,
        "name"@.len() == 4,
        "failed"@.len() == 6,
        "providerAdded"@.len() == 13,
        "priorityChanged"@.len() == 15,
        "assignments"@.len() == 11,
        "from"@.len() == 4,
        "to"@.len() == 2,
        "id"@ != "to"@,
        "changed"@ != "changes"@,
        "reason"@ != "failed"@,
        "list"@ != "name"@,
        "list"@ != "from"@,
        "newPriority"@ != "swappedWith"@,
        "newPriority"@ != "assignments"@,
        "swappedWith"@ != "assignments"@,
        "name"@ != "from"@,
{
    reveal_strlit("id");
    reveal_strlit("changed");
    reveal_strlit("reason");
    reveal_strlit("changes");
    reveal_strlit("currentAccountId");
    reveal_strlit("list");
    reveal_strlit("moved");
    reveal_strlit("newPriority");
    reveal_strlit("swappedWith");
    reveal_strlit("name");
    reveal_strlit("failed");
    reveal_strlit("providerAdded");
    reveal_strlit("priorityChanged");
    reveal_strlit("assignments");
    reveal_strlit("from");
    reveal_strlit("to");
    assert("id"@[0] != "to"@[0]);
    assert("changed"@[6] != "changes"@[6]);
    assert("reason"@[0] != "failed"@[0]);
    assert("list"@[0] != "name"@[0]);
    assert("list"@[0] != "from"@[0]);
    assert("newPriority"@[0] != "swappedWith"@[0]);
    assert("newPriority"@[0] != "assignments"@[0]);
    assert("swappedWith"@[0] != "assignments"@[0]);
    assert("name"@[0] != "from"@[0]);
}

/// The answer to a promotion names the account, says whether anything changed, and shows the
/// accounts as they are now.
pub proof fn promotion_is_answered(
    id: Seq<char>,
    changes: Seq<Seq<char>>,
    s: Seq<Fields>,
    shaped: Seq<Json>,
    rules: RulesView,
)
    ensures
        ({
            let a = promotion_answer(id, changes, s, shaped, rules);
            &&& part_of(a, "id"@) == Json::Str(id)
            &&& part_of(a, "changed"@) == Json::Bool(changes.len() > 0)
            &&& current_of(s, rules) is Some ==> part_of(a, "currentAccountId"@) == Json::Str(
                id_of(s[current_of(s, rules)->0]),
            )
            &&& part_of(a, "list"@) == listing(s, shaped, rules)
        }),
{
    lemma_answer_words();
    let o = promotion_answer(id, changes, s, shaped, rules)->Obj_0;
    lemma_find_at(o, "id"@, 0);
    lemma_find_at(o, "changed"@, 1);
    lemma_find_at(o, "currentAccountId"@, 3);
    lemma_find_at(o, "list"@, 4);
}

/// The answer to a move says whether it took place and which numbers the two accounts have now.
pub proof fn move_is_answered(outcome: MoveOutcome, list: Json)
    ensures
        ({
            let a = move_answer(outcome, list);
            &&& part_of(a, "moved"@) == Json::Bool(outcome is Moved)
            &&& part_of(a, "list"@) == list
            &&& outcome matches MoveOutcome::Moved {
                id,
                new_priority,
                other_id,
                other_name,
                other_priority,
            } ==> {
                let other = part_of(a, "swappedWith"@);
                &&& part_of(a, "id"@) == Json::Str(id@)
                &&& part_of(a, "newPriority"@) == json_int(new_priority as int)
                &&& part_of(other, "id"@) == Json::Str(other_id@)
                &&& part_of(other, "name"@) == Json::Str(other_name@)
                &&& part_of(other, "newPriority"@) == json_int(other_priority as int)
            }
        }),
{
    lemma_answer_words();
    let o = move_answer(outcome, list)->Obj_0;
    lemma_find_at(o, "moved"@, 0);
    match outcome {
        MoveOutcome::AtEnd { down } => {
            lemma_find_at(o, "list"@, 2);
        },
        MoveOutcome::Moved { id, new_priority, other_id, other_name, other_priority } => {
            lemma_find_at(o, "id"@, 1);
            lemma_find_at(o, "newPriority"@, 2);
            lemma_find_at(o, "swappedWith"@, 3);
            lemma_find_at(o, "list"@, 4);
            let other = o[3].1->Obj_0;
            lemma_find_at(other, "id"@, 0);
            lemma_find_at(other, "name"@, 1);
            lemma_find_at(other, "newPriority"@, 2);
        },
    }
}

/// The answer to a batch has what was done and what failed.
pub proof fn batch_is_answered(outcome: BatchOutcome, key: Seq<char>, list: Json)
    requires
        key != "failed"@,
        key != "list"@,
    ensures
        ({
            let a = batch_answer(outcome, key, list);
            &&& part_of(a, key) == Json::Arr(list_view(outcome.done))
            &&& part_of(a, "failed"@) == Json::Arr(list_view(outcome.failed))
            &&& part_of(a, "list"@) == list
        }),
{
    lemma_answer_words();
    let o = batch_answer(outcome, key, list)->Obj_0;
    lemma_find_at(o, key, 0);
    lemma_find_at(o, "failed"@, 1);
    lemma_find_at(o, "list"@, 2);
}

/// A batch deals with every id: each is done or failed.
pub proof fn batch_deals_with_every_id(
    s: Seq<Fields>,
    ids: Seq<Seq<char>>,
    allowed: Fields,
    proxy: Result<ProxyPatch, AccountStoreError>,
    band: PriorityBand,
    now: i64,
)
    ensures
        ({
            let b = batch_run(s, ids, allowed, proxy, band, now);
            &&& b.accounts.len() == s.len()
            &&& b.done.len() + b.failed.len() == ids.len()
        }),
    decreases ids.len(),
{
    if ids.len() > 0 {
        batch_deals_with_every_id(s, ids.drop_last(), allowed, proxy, band, now);
        index_of_is_first(
            batch_run(s, ids.drop_last(), allowed, proxy, band, now).accounts,
            ids.last(),
        );
    }
}

/// A batch is refused as a whole exactly where it names no account, is no object, or says neither
/// whether accounts are enabled nor which proxy in order they have.
pub proof fn proper_batch_is_accepted(
    ids: Seq<Seq<char>>,
    patch: Fields,
    proxy: Result<ProxyPatch, AccountStoreError>,
)
    ensures
        batch_refusal(ids, Json::Obj(patch), proxy) is None <==> ids.len() > 0 && (find(
            patch,
            "proxy"@,
        ) is Some ==> proxy is Ok) && (find(patch, "proxy"@) is Some || find(patch, "enabled"@)
            is Some),
        batch_refusal(ids, Json::Null, proxy) is Some,
{
}

/// The report of the migrations has every change of number.
pub proof fn migration_is_reported(m: Migration, i: int)
    requires
        0 <= i < m.assignments@.len(),
    ensures
        ({
            let r = migration_report(m);
            let all = part_of(r, "assignments"@)->Arr_0;
            let a = m.assignments@[i]@;
            &&& part_of(r, "providerAdded"@) == json_int(m.provider_added as int)
            &&& part_of(r, "priorityChanged"@) == Json::Bool(true)
            &&& part_of(r, "assignments"@) is Arr
            &&& all.len() == m.assignments@.len()
            &&& part_of(all[i], "id"@) == Json::Str(a.id)
            &&& part_of(all[i], "from"@) == json_int(a.from as int)
            &&& part_of(all[i], "to"@) == json_int(a.to)
        }),
{
    lemma_answer_words();
    let o = migration_report(m)->Obj_0;
    lemma_find_at(o, "providerAdded"@, 0);
    lemma_find_at(o, "priorityChanged"@, 1);
    lemma_find_at(o, "assignments"@, 2);
    let e = o[2].1->Arr_0[i]->Obj_0;
    lemma_find_at(e, "id"@, 0);
    lemma_find_at(e, "from"@, 2);
    lemma_find_at(e, "to"@, 3);
}

// ─── The heads of the queues ─────────────────────────────────

/// The head of a provider's queue is one of its accounts that can serve, and none of them has a
/// smaller number.
pub proof fn head_of_a_provider_is_first(
    s: Seq<Fields>,
    provider: Seq<char>,
    band: PriorityBand,
    j: int,
    m: int,
    n: int,
)
    requires
        0 <= j < s.len(),
        serves(s[j], provider),
    ensures
        ({
            let at = head_of_provider(s, provider, band);
            &&& at is Some
            &&& 0 <= at->0 < s.len()
            &&& provider_of(s[at->0]) == provider
            &&& find(s[at->0], "enabled"@) != Some(Json::Bool(false))
            &&& numbered(s[at->0], m, band) && numbered(s[j], n, band) ==> m <= n
        }),
{
    let marked = serving(s, provider);
    let keys = keys_of(s, band);
    best_is_first_marked(marked, keys);
    assert(marked[j]);
    let i = head_of_provider(s, provider, band)->0;
    assert(marked[i]);
    if numbered(s[i], m, band) && numbered(s[j], n, band) {
        lemma_numbered(s[i], m, band);
        lemma_numbered(s[j], n, band);
        assert(key_le(keys[i], keys[j]));
    }
}

proof fn lemma_heads(s: Seq<Fields>, band: PriorityBand, n: nat, i: int, provider: Seq<char>)
    requires
        n <= s.len(),
    ensures
        find(heads(s, band, n), provider) is Some ==> find(heads(s, band, n), provider) == Some(
            json_id_at(s, head_of_provider(s, provider, band)),
        ),
        0 <= i < n && provider_of(s[i]) == provider ==> find(heads(s, band, n), provider) is Some,
    decreases n,
{
    if n > 0 {
        lemma_heads(s, band, (n - 1) as nat, i, provider);
        let before = heads(s, band, (n - 1) as nat);
        let all = heads(s, band, n);
        if all != before {
            assert(all.drop_last() =~= before);
        }
    }
}

/// Of every provider that has an account the listing names the head of its queue.
pub proof fn heads_are_named(s: Seq<Fields>, band: PriorityBand, i: int)
    requires
        0 <= i < s.len(),
    ensures
        ({
            let at = head_of_provider(s, provider_of(s[i]), band);
            let named = find(heads(s, band, s.len()), provider_of(s[i]));
            &&& at is Some ==> named == Some(Json::Str(id_of(s[at->0])))
            &&& at is None ==> named == Some(Json::Null)
        }),
{
    lemma_heads(s, band, s.len(), i, provider_of(s[i]));
}

// ─── The order of old ────────────────────────────────────────

proof fn lemma_routed(route: Seq<(Seq<char>, u32)>, provider: Seq<char>, i: int)
    requires
        0 <= i < route.len(),
        route[i].0 == provider,
        forall|j: int| 0 <= j < i ==> (#[trigger] route[j]).0 != provider,
    ensures
        routed_rank(route, provider) == Some(route[i].1),
    decreases route.len(),
{
    if i > 0 {
        assert(route[0].0 != provider);
        let rest = route.drop_first();
        assert forall|j: int| 0 <= j < i - 1 implies (#[trigger] rest[j]).0 != provider by {
            assert(rest[j] == route[j + 1]);
        }
        lemma_routed(rest, provider, i - 1);
    }
}

/// Before there was one queue, accounts were used by the configured rank of their provider: the
/// order of old goes by it, and holds every account.
pub proof fn order_of_old_goes_by_rank(
    s: Seq<Fields>,
    route: Seq<(Seq<char>, u32)>,
    rules: RulesView,
    i: int,
    j: int,
    a: int,
    b: int,
)
    requires
        0 <= i < j < s.len(),
        0 <= a < route.len(),
        0 <= b < route.len(),
        ({
            let q = legacy_order(s, route, rules);
            &&& route[a].0 == provider_of(q[i])
            &&& route[b].0 == provider_of(q[j])
        }),
        forall|k: int| 0 <= k < a ==> (#[trigger] route[k]).0 != route[a].0,
        forall|k: int| 0 <= k < b ==> (#[trigger] route[k]).0 != route[b].0,
    ensures
        legacy_order(s, route, rules).len() == s.len(),
        route[a].1 <= route[b].1,
        legacy_order(s, route, rules).contains(s[i]),
        legacy_order(s, route, rules).contains(s[j]),
{
    let keys = legacy_keys(s, route, rules);
    let o = stable_order(keys);
    order_is_stable_sort(keys);
    order_holds_every_position(keys, i);
    order_holds_every_position(keys, j);
    let x = choose|x: int| 0 <= x < o.len() && o[x] == i;
    let y = choose|y: int| 0 <= y < o.len() && o[y] == j;
    let q = legacy_order(s, route, rules);
    assert(q[x] == s[i]);
    assert(q[y] == s[j]);
    assert(q[i] == s[o[i]] && q[j] == s[o[j]]);
    lemma_routed(route, provider_of(q[i]), a);
    lemma_routed(route, provider_of(q[j]), b);
    assert(key_le(keys[o[i]], keys[o[j]]));
}

} // verus!
