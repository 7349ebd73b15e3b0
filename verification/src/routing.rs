//! Which account a request is sent with: of those that can be used for the model, the one that is
//! first in the queue.
//!
//! Accounts are looked at in the form in which they are shown, and leniently: what is missing or
//! odd in one never rules it out.
use vstd::prelude::*;
use crate::account_store::priority::{normalize_priority, priority_from, PriorityBand, DEFAULT_PRIORITY};
use crate::desensitize::state::{js_number, js_number_of};
use crate::js::{js_string, js_text, js_truthy, truthy};
use crate::json::{
    field, json_int, list_view, or_null, push_value, seen, text_seen, Json, JsonValue, Object,
};
use crate::number::{int_number, number_exceeds, number_truncated, Number, NumberView};
use crate::order::{best, best_is_first_marked, best_of, key_le, SortKey};
use crate::text::same;
use crate::words::{holds_word, words};

verus! {

// ─── Limits ──────────────────────────────────────────────────

/// The number that a value is read as; zero where it is none.
pub open spec fn number_or_nothing(v: Option<Json>) -> NumberView {
    match js_number_of(or_null(v)) {
        Some(n) => n,
        None => int_number(0),
    }
}

/// When the limit of an account for a model ends: zero where it has none that lasts.
pub open spec fn limit_end(account: Json, model: Seq<char>, now: i64) -> int {
    match field(or_null(field(account, "rateLimits"@)), model) {
        Some(limit) => {
            let reset = number_or_nothing(field(limit, "resetAt"@));
            if number_exceeds(reset, now) {
                number_truncated(reset)
            } else {
                0
            }
        },
        None => 0,
    }
}

pub open spec fn limited(account: Json, model: Seq<char>, now: i64) -> bool {
    limit_end(account, model, now) > 0
}

fn read_or_zero(v: Option<&JsonValue>) -> (out: Number)
    ensures
        out@ == number_or_nothing(seen(v)),
{
    let n = match v {
        Some(x) => js_number(x),
        None => js_number(&JsonValue::Null),
    };
    match n {
        Some(n) => n,
        None => Number::from_i64(0),
    }
}

/// [`limit_end`].
pub fn rate_limit_reset_at(account: &JsonValue, model: &str, now: i64) -> (r: i64)
    ensures
        r == limit_end(account@, model@, now),
{
    let limits = match account.get("rateLimits") {
        Some(v) => v,
        None => return 0,
    };
    let limit = match limits.get(model) {
        Some(v) => v,
        None => return 0,
    };
    let reset = read_or_zero(limit.get("resetAt"));
    if reset.exceeds(now) {
        reset.truncated()
    } else {
        0
    }
}

/// [`limited`].
pub fn is_rate_limited(account: &JsonValue, model: &str, now: i64) -> (r: bool)
    ensures
        r == limited(account@, model@, now),
{
    rate_limit_reset_at(account, model, now) > 0
}

/// Of a limit that has ended nothing is left.
pub proof fn ended_limits_do_not_count(account: Json, model: Seq<char>, now: i64)
    requires
        match field(or_null(field(account, "rateLimits"@)), model) {
            Some(limit) => !number_exceeds(number_or_nothing(field(limit, "resetAt"@)), now),
            None => true,
        },
    ensures
        !limited(account, model, now),
{
}

// ─── Use ─────────────────────────────────────────────────────

/// Why an account cannot be used for a model. Only an account that is plainly switched off is.
pub open spec fn unusable(account: Json, model: Seq<char>, now: i64) -> Option<Seq<char>> {
    if field(account, "enabled"@) == Some(Json::Bool(false)) {
        Some("disabled"@)
    } else if limited(account, model, now) {
        Some("rate-limited"@)
    } else {
        None
    }
}

/// Whether an account can be used for a model, and why it cannot.
pub struct AccountUsability {
    pub usable: bool,
    pub reason: Option<&'static str>,
}

/// [`unusable`].
pub fn account_usability(account: &JsonValue, model: &str, now: i64) -> (out: AccountUsability)
    ensures
        text_seen(out.reason) == unusable(account@, model@, now),
        out.usable == (unusable(account@, model@, now) is None),
{
    if let Some(JsonValue::Bool(b)) = account.get("enabled") {
        if !*b {
            return AccountUsability { usable: false, reason: Some("disabled") };
        }
    }
    if is_rate_limited(account, model, now) {
        return AccountUsability { usable: false, reason: Some("rate-limited") };
    }
    AccountUsability { usable: true, reason: None }
}

/// The id of an account, where it has one.
pub open spec fn id_of(account: Json) -> Option<Seq<char>> {
    match field(account, "id"@) {
        Some(Json::Str(s)) => if s.len() > 0 {
            Some(s)
        } else {
            None
        },
        _ => None,
    }
}

/// [`id_of`].
pub fn account_id(account: &JsonValue) -> (r: Option<&str>)
    ensures
        text_seen(r) == id_of(account@),
{
    match account.get("id") {
        Some(JsonValue::Str(s)) => if s.as_str().is_empty() {
            None
        } else {
            Some(s.as_str())
        },
        _ => None,
    }
}

/// The name under which an account is shown: its own, or its id.
pub open spec fn name_of(account: Json, id: Seq<char>) -> Seq<char> {
    match field(account, "name"@) {
        Some(v) => if truthy(v) {
            js_text(v)
        } else {
            id
        },
        None => id,
    }
}

/// [`name_of`].
pub fn account_name(account: &JsonValue, id: &str) -> (out: String)
    ensures
        out@ == name_of(account@, id@),
{
    match account.get("name") {
        Some(v) => if js_truthy(v) {
            js_string(v)
        } else {
            id.to_owned()
        },
        None => id.to_owned(),
    }
}

/// The accounts in a listing; none where it is odd.
pub open spec fn listed(snapshot: Json) -> Seq<Json> {
    match field(snapshot, "accounts"@) {
        Some(Json::Arr(items)) => items,
        _ => Seq::empty(),
    }
}

/// [`listed`].
pub fn accounts_of(snapshot: &JsonValue) -> (out: Vec<JsonValue>)
    ensures
        list_view(out) == listed(snapshot@),
{
    match snapshot.get("accounts") {
        Some(JsonValue::Arr(items)) => crate::json::dup_list(items),
        _ => {
            let out: Vec<JsonValue> = Vec::new();
            assert(list_view(out) =~= Seq::empty());
            out
        },
    }
}

// ─── Choice ──────────────────────────────────────────────────

/// The account has an id, was not tried yet and can be used.
pub open spec fn candidate(account: Json, model: Seq<char>, tried: Seq<Seq<char>>, now: i64) -> bool {
    match id_of(account) {
        Some(id) => !tried.contains(id) && unusable(account, model, now) is None,
        None => false,
    }
}

/// The place of an account in the queue: its priority, then the time at which it was added.
pub open spec fn queue_key(account: Json, band: PriorityBand) -> SortKey {
    SortKey {
        rank: 0,
        major: priority_from(
            field(account, "priority"@),
            DEFAULT_PRIORITY as int,
            band,
        ) as i64,
        minor: number_truncated(number_or_nothing(field(account, "addedAt"@))) as i64,
    }
}

pub open spec fn candidates(
    accounts: Seq<Json>,
    model: Seq<char>,
    tried: Seq<Seq<char>>,
    now: i64,
) -> Seq<bool> {
    accounts.map_values(|a: Json| candidate(a, model, tried, now))
}

pub open spec fn queue_keys(accounts: Seq<Json>, band: PriorityBand) -> Seq<SortKey> {
    accounts.map_values(|a: Json| queue_key(a, band))
}

/// Where the account stands that is chosen.
pub open spec fn chosen(
    accounts: Seq<Json>,
    model: Seq<char>,
    tried: Seq<Seq<char>>,
    now: i64,
    band: PriorityBand,
) -> Option<int> {
    best(candidates(accounts, model, tried, now), queue_keys(accounts, band))
}

/// The chosen account can be used, was not tried, and no other that could be chosen is before it
/// in the queue. None is chosen exactly where none can be.
pub proof fn choice_is_first_candidate(
    accounts: Seq<Json>,
    model: Seq<char>,
    tried: Seq<Seq<char>>,
    now: i64,
    band: PriorityBand,
)
    ensures
        match chosen(accounts, model, tried, now, band) {
            Some(i) => {
                &&& 0 <= i < accounts.len()
                &&& candidate(accounts[i], model, tried, now)
                &&& forall|j: int|
                    0 <= j < accounts.len() && candidate(
                        #[trigger] accounts[j],
                        model,
                        tried,
                        now,
                    ) ==> key_le(queue_key(accounts[i], band), queue_key(accounts[j], band))
            },
            None => forall|j: int|
                0 <= j < accounts.len() ==> !candidate(#[trigger] accounts[j], model, tried, now),
        },
{
    let marked = candidates(accounts, model, tried, now);
    let keys = queue_keys(accounts, band);
    best_is_first_marked(marked, keys);
    assert forall|j: int| 0 <= j < accounts.len() implies marked[j] == candidate(
        #[trigger] accounts[j],
        model,
        tried,
        now,
    ) && keys[j] == queue_key(accounts[j], band) by {}
    match chosen(accounts, model, tried, now, band) {
        Some(i) => {
            assert(marked[i]);
        },
        None => {},
    }
}

/// An account that was tried is not chosen again: trying one after the other comes to an end.
pub proof fn tried_accounts_are_not_chosen(
    accounts: Seq<Json>,
    model: Seq<char>,
    tried: Seq<Seq<char>>,
    now: i64,
    band: PriorityBand,
    i: int,
)
    requires
        0 <= i < accounts.len(),
        id_of(accounts[i]) is Some,
        tried.contains(id_of(accounts[i])->0),
    ensures
        chosen(accounts, model, tried, now, band) != Some(i),
{
    choice_is_first_candidate(accounts, model, tried, now, band);
}

fn is_candidate(account: &JsonValue, model: &str, tried: &Vec<String>, now: i64) -> (r: bool)
    ensures
        r == candidate(account@, model@, words(tried@), now),
{
    match account_id(account) {
        Some(id) => !holds_word(tried, id) && account_usability(account, model, now).usable,
        None => false,
    }
}

fn key_of(account: &JsonValue, band: PriorityBand) -> (out: SortKey)
    ensures
        out == queue_key(account@, band),
{
    SortKey {
        rank: 0,
        major: normalize_priority(account.get("priority"), DEFAULT_PRIORITY, band),
        minor: read_or_zero(account.get("addedAt")).truncated(),
    }
}

fn pick_position(
    accounts: &Vec<JsonValue>,
    model: &str,
    tried: &Vec<String>,
    now: i64,
    band: PriorityBand,
) -> (r: Option<usize>)
    ensures
        match r {
            Some(i) => i < accounts@.len() && chosen(
                list_view(*accounts),
                model@,
                words(tried@),
                now,
                band,
            ) == Some(i as int),
            None => chosen(list_view(*accounts), model@, words(tried@), now, band) is None,
        },
{
    let ghost all = list_view(*accounts);
    let mut marked: Vec<bool> = Vec::new();
    let mut keys: Vec<SortKey> = Vec::new();
    for i in 0..accounts.len()
        invariant
            all == list_view(*accounts),
            marked@ =~= candidates(all, model@, words(tried@), now).take(i as int),
            keys@ =~= queue_keys(all, band).take(i as int),
    {
        assert(all[i as int] == accounts@[i as int]@);
        marked.push(is_candidate(&accounts[i], model, tried, now));
        keys.push(key_of(&accounts[i], band));
    }
    assert(marked@ =~= candidates(all, model@, words(tried@), now));
    assert(keys@ =~= queue_keys(all, band));
    best_of(&marked, &keys)
}

/// The account that a request is sent with, where there is one: [`chosen`].
pub fn pick_account_by_priority(
    accounts: &Vec<JsonValue>,
    model: &str,
    exclude_ids: &Vec<String>,
    now: i64,
    band: PriorityBand,
) -> (r: Option<JsonValue>)
    ensures
        match chosen(list_view(*accounts), model@, words(exclude_ids@), now, band) {
            Some(i) => r is Some && r->0@ == list_view(*accounts)[i],
            None => r is None,
        },
{
    match pick_position(accounts, model, exclude_ids, now, band) {
        Some(i) => Some(accounts[i].dup()),
        None => None,
    }
}

// ─── Telling why ─────────────────────────────────────────────

/// Why an account with an id is left out.
pub open spec fn left_out(
    account: Json,
    id: Seq<char>,
    model: Seq<char>,
    tried: Seq<Seq<char>>,
    now: i64,
) -> Option<Seq<char>> {
    if tried.contains(id) {
        Some("tried"@)
    } else {
        unusable(account, model, now)
    }
}

pub open spec fn left_out_json(account: Json, id: Seq<char>, reason: Seq<char>) -> Json {
    Json::Obj(
        seq![
            ("id"@, Json::Str(id)),
            ("name"@, Json::Str(name_of(account, id))),
            ("reason"@, Json::Str(reason)),
        ],
    )
}

/// The accounts that are left out, each with the reason.
pub open spec fn all_left_out(
    accounts: Seq<Json>,
    model: Seq<char>,
    tried: Seq<Seq<char>>,
    now: i64,
) -> Seq<Json>
    decreases accounts.len(),
{
    if accounts.len() == 0 {
        Seq::empty()
    } else {
        let before = all_left_out(accounts.drop_last(), model, tried, now);
        let a = accounts.last();
        match id_of(a) {
            Some(id) => match left_out(a, id, model, tried, now) {
                Some(reason) => before.push(left_out_json(a, id, reason)),
                None => before,
            },
            None => before,
        }
    }
}

/// How many accounts could be chosen.
pub open spec fn candidate_count(
    accounts: Seq<Json>,
    model: Seq<char>,
    tried: Seq<Seq<char>>,
    now: i64,
) -> nat
    decreases accounts.len(),
{
    if accounts.len() == 0 {
        0
    } else {
        candidate_count(accounts.drop_last(), model, tried, now) + if candidate(
            accounts.last(),
            model,
            tried,
            now,
        ) {
            1nat
        } else {
            0nat
        }
    }
}

/// How many accounts have an id.
pub open spec fn with_id(accounts: Seq<Json>) -> nat
    decreases accounts.len(),
{
    if accounts.len() == 0 {
        0
    } else {
        with_id(accounts.drop_last()) + if id_of(accounts.last()) is Some {
            1nat
        } else {
            0nat
        }
    }
}

/// Every account with an id could be chosen or is left out for a reason, and never both.
pub proof fn every_account_is_accounted_for(
    accounts: Seq<Json>,
    model: Seq<char>,
    tried: Seq<Seq<char>>,
    now: i64,
)
    ensures
        candidate_count(accounts, model, tried, now) + all_left_out(
            accounts,
            model,
            tried,
            now,
        ).len() == with_id(accounts),
    decreases accounts.len(),
{
    if accounts.len() > 0 {
        every_account_is_accounted_for(accounts.drop_last(), model, tried, now);
    }
}

/// How a choice came about.
pub open spec fn decision(
    accounts: Seq<Json>,
    model: Seq<char>,
    tried: Seq<Seq<char>>,
    now: i64,
    band: PriorityBand,
) -> Json {
    let at = chosen(accounts, model, tried, now, band);
    Json::Obj(
        seq![
            (
                "picked"@,
                match at {
                    Some(i) => accounts[i],
                    None => Json::Null,
                },
            ),
            (
                "priority"@,
                match at {
                    Some(i) => json_int(queue_key(accounts[i], band).major as int),
                    None => Json::Null,
                },
            ),
            ("candidateCount"@, json_int(candidate_count(accounts, model, tried, now) as int)),
            ("blocked"@, Json::Arr(all_left_out(accounts, model, tried, now))),
            ("total"@, json_int(accounts.len() as int)),
        ],
    )
}

fn left_out_value(account: &JsonValue, id: &str, reason: &str) -> (out: JsonValue)
    ensures
        out@ == left_out_json(account@, id@, reason@),
{
    let mut o = Object::new();
    o.push("id", JsonValue::text(id));
    o.push("name", JsonValue::Str(account_name(account, id)));
    o.push("reason", JsonValue::text(reason));
    assert(o@ =~= left_out_json(account@, id@, reason@)->Obj_0);
    JsonValue::Obj(o)
}

/// [`decision`].
pub fn describe_route_decision(
    accounts: &Vec<JsonValue>,
    model: &str,
    exclude_ids: &Vec<String>,
    now: i64,
    band: PriorityBand,
) -> (out: JsonValue)
    ensures
        out@ == decision(list_view(*accounts), model@, words(exclude_ids@), now, band),
{
    let ghost all = list_view(*accounts);
    let ghost tried = words(exclude_ids@);
    let mut blocked: Vec<JsonValue> = Vec::new();
    let mut count: u64 = 0;
    assert(all.take(0) =~= Seq::empty());
    assert(list_view(blocked) =~= Seq::empty());
    for i in 0..accounts.len()
        invariant
            all == list_view(*accounts),
            tried == words(exclude_ids@),
            count <= i,
            count == candidate_count(all.take(i as int), model@, tried, now),
            list_view(blocked) == all_left_out(all.take(i as int), model@, tried, now),
    {
        let account = &accounts[i];
        assert(all.take(i + 1).drop_last() =~= all.take(i as int));
        assert(all.take(i + 1).last() == account@);
        if let Some(id) = account_id(account) {
            if holds_word(exclude_ids, id) {
                push_value(&mut blocked, left_out_value(account, id, "tried"));
            } else {
                let usability = account_usability(account, model, now);
                match usability.reason {
                    Some(reason) => push_value(&mut blocked, left_out_value(account, id, reason)),
                    None => count = count + 1,
                }
            }
        }
    }
    assert(all.take(all.len() as int) =~= all);
    let at = pick_position(accounts, model, exclude_ids, now, band);
    let mut o = Object::new();
    match at {
        Some(i) => {
            o.push("picked", accounts[i].dup());
            o.push("priority", JsonValue::integer(key_of(&accounts[i], band).major));
        },
        None => {
            o.push("picked", JsonValue::Null);
            o.push("priority", JsonValue::Null);
        },
    }
    o.push("candidateCount", JsonValue::natural(count));
    o.push("blocked", JsonValue::Arr(blocked));
    o.push("total", JsonValue::natural(accounts.len() as u64));
    assert(o@ =~= decision(all, model@, tried, now, band)->Obj_0);
    JsonValue::Obj(o)
}

} // verus!
