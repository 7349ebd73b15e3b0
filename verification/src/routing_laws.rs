//! Which account a request goes to, in terms of what the accounts say of themselves.
use vstd::prelude::*;
use crate::account_store::priority::PriorityBand;
use crate::checkin::{
    checkin_refused, eligible, result_json, results_of, skipped_of, success_count, summary_json,
    targets_of, with_this_id, ClaimView,
};
use crate::json::{field, json_int, lemma_find_at, Json};
use crate::number::{small_integers_are_doubles, EXACT_BELOW};
use crate::order::key_le;
use crate::protocol::stream_laws::{part_of, said};
use crate::routing::{
    all_left_out, candidate, candidate_count, choice_is_first_candidate, chosen, decision,
    limit_end, limited, queue_key,
};

verus! {

/// The account has an id that was not tried.
pub open spec fn untried(account: Json, tried: Seq<Seq<char>>) -> bool {
    part_of(account, "id"@) is Str && said(part_of(account, "id"@)).len() > 0 && !tried.contains(
        said(part_of(account, "id"@)),
    )
}

/// The account is switched off.
pub open spec fn off(account: Json) -> bool {
    part_of(account, "enabled"@) == Json::Bool(false)
}

/// The end of the limit of an account for a model.
pub open spec fn reset_of(account: Json, model: Seq<char>) -> Json {
    part_of(part_of(part_of(account, "rateLimits"@), model), "resetAt"@)
}

/// The account is at its limit for a model until `t`.
pub open spec fn limited_until(account: Json, model: Seq<char>, t: int) -> bool {
    0 <= t < EXACT_BELOW && reset_of(account, model) == json_int(t)
}

/// The account knows no limit for a model.
pub open spec fn unlimited(account: Json, model: Seq<char>) -> bool {
    field(part_of(account, "rateLimits"@), model) is None
}

proof fn lemma_limited(account: Json, model: Seq<char>, t: int, now: i64)
    requires
        0 <= now < EXACT_BELOW,
        limited_until(account, model, t),
    ensures
        limited(account, model, now) == (now < t),
        now < t ==> limit_end(account, model, now) == t,
{
    small_integers_are_doubles(t);
    small_integers_are_doubles(now as int);
}

/// A request never goes to an account that is switched off, that was tried, or that is at its
/// limit for the model.
pub proof fn request_spares_unusable_accounts(
    accounts: Seq<Json>,
    model: Seq<char>,
    tried: Seq<Seq<char>>,
    now: i64,
    band: PriorityBand,
    t: int,
)
    requires
        0 <= now < EXACT_BELOW,
    ensures
        match chosen(accounts, model, tried, now, band) {
            Some(i) => {
                &&& 0 <= i < accounts.len()
                &&& untried(accounts[i], tried)
                &&& !off(accounts[i])
                &&& limited_until(accounts[i], model, t) ==> t <= now
            },
            None => true,
        },
{
    choice_is_first_candidate(accounts, model, tried, now, band);
    match chosen(accounts, model, tried, now, band) {
        Some(i) => {
            if limited_until(accounts[i], model, t) {
                lemma_limited(accounts[i], model, t, now);
            }
        },
        None => {},
    }
}

/// An account that is not switched off, was not tried and has no limit that lasts is not passed
/// over: some account is chosen, and none with a higher number.
pub proof fn usable_account_gets_its_turn(
    accounts: Seq<Json>,
    model: Seq<char>,
    tried: Seq<Seq<char>>,
    now: i64,
    band: PriorityBand,
    j: int,
    t: int,
)
    requires
        0 <= now < EXACT_BELOW,
        0 <= j < accounts.len(),
        untried(accounts[j], tried),
        !off(accounts[j]),
        unlimited(accounts[j], model) || (limited_until(accounts[j], model, t) && t <= now),
    ensures
        chosen(accounts, model, tried, now, band) is Some,
        ({
            let i = chosen(accounts, model, tried, now, band)->0;
            let p = part_of(accounts[i], "priority"@);
            let q = part_of(accounts[j], "priority"@);
            forall|a: int, b: int|
                p == #[trigger] json_int(a) && q == #[trigger] json_int(b) && band.lowest <= a
                    <= band.highest && band.lowest <= b <= band.highest && -(EXACT_BELOW as int) < a
                    < EXACT_BELOW && -(EXACT_BELOW as int) < b < EXACT_BELOW ==> a <= b
        }),
{
    choice_is_first_candidate(accounts, model, tried, now, band);
    if limited_until(accounts[j], model, t) {
        lemma_limited(accounts[j], model, t, now);
    }
    assert(candidate(accounts[j], model, tried, now));
    let i = chosen(accounts, model, tried, now, band)->0;
    let p = part_of(accounts[i], "priority"@);
    let q = part_of(accounts[j], "priority"@);
    assert forall|a: int, b: int|
        p == #[trigger] json_int(a) && q == #[trigger] json_int(b) && band.lowest <= a
            <= band.highest && band.lowest <= b <= band.highest && -(EXACT_BELOW as int) < a
            < EXACT_BELOW && -(EXACT_BELOW as int) < b < EXACT_BELOW implies a <= b by {
        small_integers_are_doubles(a);
        small_integers_are_doubles(b);
        assert(key_le(queue_key(accounts[i], band), queue_key(accounts[j], band)));
        assert(queue_key(accounts[i], band).major == a);
        assert(queue_key(accounts[j], band).major == b);
    }
}

/// Of two accounts with the same number the one that was added first is chosen.
pub proof fn earlier_account_goes_first(
    accounts: Seq<Json>,
    model: Seq<char>,
    tried: Seq<Seq<char>>,
    now: i64,
    band: PriorityBand,
    i: int,
    j: int,
    a: int,
    b: int,
)
    requires
        chosen(accounts, model, tried, now, band) == Some(i),
        0 <= j < accounts.len(),
        candidate(accounts[j], model, tried, now),
        part_of(accounts[i], "priority"@) == part_of(accounts[j], "priority"@),
        part_of(accounts[i], "priority"@) != Json::Null,
        part_of(accounts[i], "addedAt"@) == json_int(a),
        part_of(accounts[j], "addedAt"@) == json_int(b),
        0 <= a < EXACT_BELOW,
        0 <= b < EXACT_BELOW,
    ensures
        a <= b,
{
    choice_is_first_candidate(accounts, model, tried, now, band);
    small_integers_are_doubles(a);
    small_integers_are_doubles(b);
    assert(field(accounts[i], "priority"@) == field(accounts[j], "priority"@));
    assert(key_le(queue_key(accounts[i], band), queue_key(accounts[j], band)));
    assert(queue_key(accounts[i], band).minor == a);
    assert(queue_key(accounts[j], band).minor == b);
}

// ─── How a choice came about ─────────────────────────────────

proof fn lemma_decision_keys()
    ensures
        "picked"@.len() == 6,
        "priority"@.len() == 8,
        "candidateCount"@.len() == 14,
        "blocked"@.len() == 7,
        "total"@.len() == 5,
        "id"@.len() == 2,
        "name"@.len() == 4,
        "reason"@.len() == 6,
        "picked"@ != "reason"@,
{
    reveal_strlit("picked");
    reveal_strlit("priority");
    reveal_strlit("candidateCount");
    reveal_strlit("blocked");
    reveal_strlit("total");
    reveal_strlit("id");
    reveal_strlit("name");
    reveal_strlit("reason");
    assert("picked"@[0] != "reason"@[0]);
}

/// The report of a choice names the account that was chosen, how many there were to choose from
/// and how many accounts there are.
pub proof fn decision_names_the_choice(
    accounts: Seq<Json>,
    model: Seq<char>,
    tried: Seq<Seq<char>>,
    now: i64,
    band: PriorityBand,
)
    ensures
        ({
            let d = decision(accounts, model, tried, now, band);
            &&& chosen(accounts, model, tried, now, band) matches Some(i) ==> part_of(d, "picked"@)
                == accounts[i]
            &&& chosen(accounts, model, tried, now, band) is None ==> part_of(d, "picked"@)
                == Json::Null && part_of(d, "priority"@) == Json::Null
            &&& part_of(d, "candidateCount"@) == json_int(
                accounts.filter(|a: Json| candidate(a, model, tried, now)).len() as int,
            )
            &&& part_of(d, "blocked"@) == Json::Arr(all_left_out(accounts, model, tried, now))
            &&& part_of(d, "total"@) == json_int(accounts.len() as int)
        }),
{
    lemma_decision_keys();
    lemma_candidate_count(accounts, model, tried, now);
    let o = decision(accounts, model, tried, now, band)->Obj_0;
    lemma_find_at(o, "picked"@, 0);
    lemma_find_at(o, "priority"@, 1);
    lemma_find_at(o, "candidateCount"@, 2);
    lemma_find_at(o, "blocked"@, 3);
    lemma_find_at(o, "total"@, 4);
}

proof fn lemma_candidate_count(
    accounts: Seq<Json>,
    model: Seq<char>,
    tried: Seq<Seq<char>>,
    now: i64,
)
    ensures
        candidate_count(accounts, model, tried, now) == accounts.filter(
            |a: Json| candidate(a, model, tried, now),
        ).len(),
    decreases accounts.len(),
{
    reveal(Seq::filter);
    if accounts.len() > 0 {
        lemma_candidate_count(accounts.drop_last(), model, tried, now);
    }
}

/// An account that is left out is named with the reason: that it was tried, else that it is
/// switched off, else that it is at its limit.
pub proof fn left_out_account_is_named(
    accounts: Seq<Json>,
    model: Seq<char>,
    tried: Seq<Seq<char>>,
    now: i64,
    i: int,
)
    requires
        0 <= i < accounts.len(),
        part_of(accounts[i], "id"@) is Str,
        said(part_of(accounts[i], "id"@)).len() > 0,
        tried.contains(said(part_of(accounts[i], "id"@))) || off(accounts[i]) || limited(
            accounts[i],
            model,
            now,
        ),
    ensures
        exists|k: int|
            0 <= k < all_left_out(accounts, model, tried, now).len() && {
                let e = #[trigger] all_left_out(accounts, model, tried, now)[k];
                &&& part_of(e, "id"@) == part_of(accounts[i], "id"@)
                &&& tried.contains(said(part_of(accounts[i], "id"@))) ==> part_of(e, "reason"@)
                    == Json::Str("tried"@)
                &&& !tried.contains(said(part_of(accounts[i], "id"@))) && off(accounts[i])
                    ==> part_of(e, "reason"@) == Json::Str("disabled"@)
                &&& !tried.contains(said(part_of(accounts[i], "id"@))) && !off(accounts[i])
                    ==> part_of(e, "reason"@) == Json::Str("rate-limited"@)
            },
    decreases accounts.len(),
{
    let short = accounts.drop_last();
    let all = all_left_out(accounts, model, tried, now);
    let before = all_left_out(short, model, tried, now);
    if i < short.len() {
        left_out_account_is_named(short, model, tried, now, i);
        let k = choose|k: int|
            0 <= k < before.len() && {
                let e = #[trigger] before[k];
                &&& part_of(e, "id"@) == part_of(short[i], "id"@)
                &&& tried.contains(said(part_of(short[i], "id"@))) ==> part_of(e, "reason"@)
                    == Json::Str("tried"@)
                &&& !tried.contains(said(part_of(short[i], "id"@))) && off(short[i]) ==> part_of(
                    e,
                    "reason"@,
                ) == Json::Str("disabled"@)
                &&& !tried.contains(said(part_of(short[i], "id"@))) && !off(short[i]) ==> part_of(
                    e,
                    "reason"@,
                ) == Json::Str("rate-limited"@)
            };
        assert(all[k] == before[k]);
    } else {
        lemma_decision_keys();
        let o = all.last()->Obj_0;
        lemma_find_at(o, "id"@, 0);
        lemma_find_at(o, "reason"@, 2);
        assert(all[all.len() - 1] == all.last());
    }
}

// ─── Check-ins ───────────────────────────────────────────────

/// The account takes part in the daily check-in: it is neither unavailable nor switched off, and
/// not of the international edition.
pub open spec fn checks_in(account: Json) -> bool {
    &&& part_of(account, "available"@) != Json::Bool(false)
    &&& part_of(account, "enabled"@) != Json::Bool(false)
    &&& part_of(account, "edition"@) != Json::Str("intl"@)
}

proof fn lemma_eligible(accounts: Seq<Json>)
    ensures
        eligible(accounts) == accounts.filter(|a: Json| checks_in(a)),
        skipped_of(accounts) == accounts.filter(
            |a: Json| part_of(a, "available"@) != Json::Bool(false) && !checks_in(a),
        ).len(),
    decreases accounts.len(),
{
    reveal(Seq::filter);
    if accounts.len() > 0 {
        lemma_eligible(accounts.drop_last());
    }
}

proof fn lemma_with_this_id(accounts: Seq<Json>, id: Seq<char>)
    ensures
        with_this_id(accounts, id) == accounts.filter(
            |a: Json| part_of(a, "id"@) == Json::Str(id),
        ),
    decreases accounts.len(),
{
    reveal(Seq::filter);
    if accounts.len() > 0 {
        lemma_with_this_id(accounts.drop_last(), id);
    }
}

/// Asked for all, the check-in is for every account that takes part, in their order; asked for
/// one, it is for the accounts with that id.
pub proof fn check_in_is_for_those_meant(accounts: Seq<Json>, id: Option<Seq<char>>)
    ensures
        id is None || id->0.len() == 0 ==> targets_of(accounts, id) == accounts.filter(
            |a: Json| checks_in(a),
        ) && checkin_refused(accounts, id) is None,
        id is Some && id->0.len() > 0 ==> targets_of(accounts, id) == accounts.filter(
            |a: Json| part_of(a, "id"@) == Json::Str(id->0),
        ),
        id is Some && id->0.len() > 0 && targets_of(accounts, id).len() == 0 ==> (checkin_refused(
            accounts,
            id,
        ) matches Some(e) && e.1 == 404),
        id is Some && id->0.len() > 0 && targets_of(accounts, id).len() > 0 && part_of(
            targets_of(accounts, id)[0],
            "edition"@,
        ) == Json::Str("intl"@) ==> (checkin_refused(accounts, id) matches Some(e) && e.1 == 400),
        id is Some && id->0.len() > 0 && targets_of(accounts, id).len() > 0 && part_of(
            targets_of(accounts, id)[0],
            "edition"@,
        ) != Json::Str("intl"@) ==> checkin_refused(accounts, id) is None,
{
    lemma_eligible(accounts);
    if id is Some {
        lemma_with_this_id(accounts, id->0);
    }
}

proof fn lemma_checkin_keys()
    ensures
        "id"@.len() == 2,
        "name"@.len() == 4,
        "claim"@.len() == 5,
        "error"@.len() == 5,
        "results"@.len() == 7,
        "succeeded"@.len() == 9,
        "total"@.len() == 5,
        "skipped"@.len() == 7,
        "claim"@ != "error"@,
        "claim"@ != "total"@,
        "error"@ != "total"@,
        "results"@ != "skipped"@,
{
    reveal_strlit("id");
    reveal_strlit("name");
    reveal_strlit("claim");
    reveal_strlit("error");
    reveal_strlit("results");
    reveal_strlit("succeeded");
    reveal_strlit("total");
    reveal_strlit("skipped");
    assert("claim"@[0] != "error"@[0]);
    assert("claim"@[0] != "total"@[0]);
    assert("error"@[0] != "total"@[0]);
    assert("results"@[0] != "skipped"@[0]);
}

/// What is told of each account is what came of it: an answer as it is, or why there was none.
pub proof fn check_in_tells_what_came(targets: Seq<Json>, outcomes: Seq<ClaimView>, i: int)
    requires
        0 <= i < outcomes.len() <= targets.len(),
    ensures
        ({
            let r = results_of(targets, outcomes)[i];
            &&& results_of(targets, outcomes).len() == outcomes.len()
            &&& part_of(targets[i], "id"@) is Str ==> part_of(r, "id"@) == part_of(
                targets[i],
                "id"@,
            )
            &&& part_of(r, "name"@) == part_of(targets[i], "name"@)
            &&& outcomes[i] matches ClaimView::Answered(v) ==> part_of(r, "claim"@) == v && part_of(
                r,
                "error"@,
            ) == Json::Null
            &&& outcomes[i] matches ClaimView::Failed(e) ==> part_of(r, "claim"@) == Json::Null
                && part_of(r, "error"@) == Json::Str(e)
            &&& outcomes[i] is NoSession ==> part_of(r, "claim"@) == Json::Null && part_of(
                r,
                "error"@,
            ) is Str
        }),
{
    lemma_checkin_keys();
    let o = result_json(targets[i], outcomes[i])->Obj_0;
    lemma_find_at(o, "id"@, 0);
    lemma_find_at(o, "name"@, 1);
    lemma_find_at(o, "claim"@, 2);
    lemma_find_at(o, "error"@, 3);
}

proof fn lemma_success_count(results: Seq<Json>)
    ensures
        success_count(results) == results.filter(
            |r: Json| part_of(part_of(r, "claim"@), "success"@) == Json::Bool(true),
        ).len(),
    decreases results.len(),
{
    reveal(Seq::filter);
    if results.len() > 0 {
        lemma_success_count(results.drop_last());
    }
}

/// The summary of a check-in has every result, counts those whose claim says that it succeeded,
/// and says how many there were and how many were passed over.
pub proof fn check_in_is_summed_up(results: Seq<Json>, skipped: nat)
    ensures
        ({
            let r = summary_json(results, skipped);
            &&& part_of(r, "results"@) == Json::Arr(results)
            &&& part_of(r, "succeeded"@) == json_int(
                results.filter(
                    |r: Json| part_of(part_of(r, "claim"@), "success"@) == Json::Bool(true),
                ).len() as int,
            )
            &&& part_of(r, "total"@) == json_int(results.len() as int)
            &&& part_of(r, "skipped"@) == json_int(skipped as int)
        }),
{
    lemma_checkin_keys();
    lemma_success_count(results);
    let o = summary_json(results, skipped)->Obj_0;
    lemma_find_at(o, "results"@, 0);
    lemma_find_at(o, "succeeded"@, 1);
    lemma_find_at(o, "total"@, 2);
    lemma_find_at(o, "skipped"@, 3);
}

} // verus!
