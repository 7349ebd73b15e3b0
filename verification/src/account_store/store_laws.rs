//! What holds of the queue whatever is done to the accounts.
use vstd::prelude::*;
use crate::account_store::priority::{free_behind_is_last, holder_is_none, holds_priority, PriorityBand};
use crate::account_store::state::{id_of, others_than, priority_of, priority_reads_back};
use crate::account_store::store::{public_fields, AccountStoreError, RulesView};
use crate::account_store::store_admin::{limit_entry, limited_record, FALLBACK_COOLDOWN_MS};
use crate::account_store::store_crud::{
    add_refusal, added_priority, added_record, band_holds, distinct_ids, distinct_priorities,
    entries_of, kept_others, lemma_others_distinct, lemma_priority_in_band, none_of, patched,
    priorities_of, replaced, ProxyPatch,
};
use crate::json::{field, find, find_of_put, json_int, put, Fields, Json, JsonValue};
use crate::number::{int_number, small_integers_are_doubles, EXACT_BELOW, NumberView};
use crate::routing::{limit_end, limited};

verus! {

/// Removing an account keeps the numbers of the others distinct.
pub proof fn removal_keeps_priorities_distinct(s: Seq<Fields>, id: Seq<char>, band: PriorityBand)
    requires
        distinct_priorities(s, band),
    ensures
        distinct_priorities(others_than(s, id), band),
{
    lemma_others_distinct(s, id, band);
}

/// Removing several accounts keeps the numbers of the others distinct.
pub proof fn removals_keep_priorities_distinct(
    s: Seq<Fields>,
    ids: Seq<Seq<char>>,
    band: PriorityBand,
)
    requires
        distinct_priorities(s, band),
    ensures
        distinct_priorities(none_of(s, ids), band),
    decreases ids.len(),
{
    if ids.len() > 0 {
        removals_keep_priorities_distinct(s, ids.drop_last(), band);
        lemma_others_distinct(none_of(s, ids.drop_last()), ids.last(), band);
    }
}

/// A patch that is accepted keeps the numbers of the queue distinct.
pub proof fn patch_keeps_priorities_distinct(
    s: Seq<Fields>,
    i: int,
    patch: Fields,
    proxy: Result<ProxyPatch, AccountStoreError>,
    band: PriorityBand,
    now: i64,
)
    requires
        distinct_ids(s),
        distinct_priorities(s, band),
        band_holds(band, 0),
        0 <= i < s.len(),
        patched(s[i], patch, proxy, s, band) is Ok,
    ensures
        distinct_priorities(
            s.update(
                i,
                put(
                    patched(s[i], patch, proxy, s, band)->Ok_0.record,
                    "updatedAt"@,
                    json_int(now as int),
                ),
            ),
            band,
        ),
{
    broadcast use find_of_put;

    reveal_strlit("name");
    reveal_strlit("priority");
    reveal_strlit("enabled");
    reveal_strlit("proxy");
    reveal_strlit("updatedAt");
    reveal_strlit("id");
    assert("name"@.len() == 4 && "priority"@.len() == 8 && "enabled"@.len() == 7 && "proxy"@.len()
        == 5 && "updatedAt"@.len() == 9 && "id"@.len() == 2);
    let record = patched(s[i], patch, proxy, s, band)->Ok_0.record;
    let saved = put(record, "updatedAt"@, json_int(now as int));
    let all = s.update(i, saved);
    assert(priority_of(saved, band) == priority_of(record, band));
    lemma_priority_in_band(s[i], band);
    let current = priority_of(s[i], band);
    let next = priority_of(record, band);
    assert(next == current || forall|k: int|
        0 <= k < s.len() && k != i ==> priority_of(#[trigger] s[k], band) != next) by {
        if find(patch, "priority"@) is Some {
            let wanted = crate::account_store::priority::priority_from(
                find(patch, "priority"@),
                current,
                band,
            );
            if wanted != current {
                holder_is_none(entries_of(s, band), wanted as i64, Some(id_of(s[i])));
                priority_reads_back(Seq::empty(), wanted as i64, band);
                assert(find(record, "priority"@) == Some(json_int(wanted)));
                assert(next == wanted);
                assert forall|k: int| 0 <= k < s.len() && k != i implies priority_of(
                    #[trigger] s[k],
                    band,
                ) != next by {
                    let e = entries_of(s, band)[k];
                    assert(!holds_priority(e, wanted as i64, Some(id_of(s[i]))));
                    lemma_priority_in_band(s[k], band);
                    if k < i {
                        assert(id_of(s[k]) != id_of(s[i]));
                    } else {
                        assert(id_of(s[i]) != id_of(s[k]));
                    }
                }
            } else {
                assert(find(record, "priority"@) == find(s[i], "priority"@));
            }
        } else {
            assert(find(record, "priority"@) == find(s[i], "priority"@));
        }
    }
    assert forall|a: int, b: int| 0 <= a < b < all.len() implies priority_of(#[trigger] all[a], band)
        != priority_of(#[trigger] all[b], band) by {
        if a != i {
            assert(all[a] == s[a]);
        }
        if b != i {
            assert(all[b] == s[b]);
        }
        assert(priority_of(s[a], band) != priority_of(s[b], band));
    }
}

/// A new account for which no number is asked joins the queue behind all others.
pub proof fn new_account_is_last(
    s: Seq<Fields>,
    payload: Json,
    proxy: Result<JsonValue, AccountStoreError>,
    rules: RulesView,
    k: int,
)
    requires
        rules.band.wf(),
        add_refusal(s, payload, proxy, rules.band) is None,
        find(payload->Obj_0, "priority"@) is None,
        replaced(s, payload->Obj_0) is None,
        0 <= k < kept_others(s, payload->Obj_0).len(),
    ensures
        priority_of(kept_others(s, payload->Obj_0)[k], rules.band) < added_priority(
            s,
            payload->Obj_0,
            rules.band,
        ),
{
    let others = kept_others(s, payload->Obj_0);
    let taken = priorities_of(others, rules.band);
    free_behind_is_last(taken, rules.band, k);
    lemma_priority_in_band(others[k], rules.band);
}

/// When a limit ends: at the time that the provider names, or after a rest.
pub open spec fn end_of_limit(reset: Option<i64>, now: i64) -> int {
    match reset {
        Some(r) => r as int,
        None => now + FALLBACK_COOLDOWN_MS,
    }
}

proof fn lemma_shown_limits(f: Fields, rules: RulesView, proxy: Json, limits: Fields)
    requires
        find(f, "rateLimits"@) == Some(Json::Obj(limits)),
    ensures
        find(public_fields(f, rules, proxy), "rateLimits"@) == Some(Json::Obj(limits)),
{
    reveal_strlit("rateLimits");
    reveal_strlit("available");
    assert("rateLimits"@.len() == 10 && "available"@.len() == 9);
    let shown = public_fields(f, rules, proxy);
    assert(shown.last() == ("available"@, Json::Bool(true)));
    assert(shown.drop_last().last() == ("rateLimits"@, Json::Obj(limits)));
    reveal_with_fuel(find, 3);
}

proof fn lemma_entry_end(
    status: i64,
    code: Option<i64>,
    reset_at: Option<NumberView>,
    message: Seq<char>,
    now: i64,
)
    ensures
        field(limit_entry(status, code, reset_at, message, now), "resetAt"@) == Some(
            crate::account_store::store_admin::reset_time(reset_at, now),
        ),
{
    reveal_strlit("resetAt");
    reveal_strlit("message");
    reveal_strlit("at");
    assert("resetAt"@.len() == 7 && "message"@.len() == 7 && "at"@.len() == 2);
    assert("resetAt"@[0] != "message"@[0]);
    let o = limit_entry(status, code, reset_at, message, now)->Obj_0;
    assert(o.last().0 == "at"@);
    assert(o.drop_last().last().0 == "message"@);
    assert(o.drop_last().drop_last().last() == (
        "resetAt"@,
        crate::account_store::store_admin::reset_time(reset_at, now),
    ));
    reveal_with_fuel(find, 4);
}

/// An account that is limited for a model is passed over for this model until the limit ends, and
/// not a moment longer.
pub proof fn limit_lasts_until_its_end(
    f: Fields,
    model: Seq<char>,
    status: i64,
    code: Option<i64>,
    reset: Option<i64>,
    message: Seq<char>,
    now: i64,
    rules: RulesView,
    proxy: Json,
    t: i64,
)
    requires
        0 <= now,
        now + FALLBACK_COOLDOWN_MS < EXACT_BELOW,
        reset is Some ==> now < reset->0 < EXACT_BELOW,
        0 <= t < EXACT_BELOW,
    ensures
        ({
            let reset_at = match reset {
                Some(r) => Some(int_number(r as int)),
                None => None,
            };
            let entry = limit_entry(status, code, reset_at, message, now);
            let shown = public_fields(limited_record(f, model, entry, now), rules, proxy);
            &&& limited(Json::Obj(shown), model, t) == (t < end_of_limit(reset, now))
            &&& t < end_of_limit(reset, now) ==> limit_end(Json::Obj(shown), model, t)
                == end_of_limit(reset, now)
        }),
{
    broadcast use find_of_put;

    let reset_at = match reset {
        Some(r) => Some(int_number(r as int)),
        None => None,
    };
    let entry = limit_entry(status, code, reset_at, message, now);
    let g = limited_record(f, model, entry, now);
    let limits = put(crate::account_store::store_admin::limits_of(f), model, entry);
    reveal_strlit("rateLimits");
    reveal_strlit("updatedAt");
    assert("rateLimits"@.len() != "updatedAt"@.len());
    assert(find(g, "rateLimits"@) == Some(Json::Obj(limits)));
    lemma_shown_limits(g, rules, proxy, limits);
    lemma_entry_end(status, code, reset_at, message, now);
    let end = end_of_limit(reset, now);
    small_integers_are_doubles(end);
    small_integers_are_doubles(now as int);
    small_integers_are_doubles(t as int);
    assert(find(limits, model) == Some(entry));
}

} // verus!
