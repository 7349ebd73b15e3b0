//! Adding, changing, moving and removing accounts.
use vstd::prelude::*;
use crate::account_store::priority::{
    assignments_view, consecutive, entries_view, find_priority_holder, free_behind, holder,
    next_free_priority, normalize_priority, priority_from, renumber_consecutively, AssignmentView,
    PriorityAssignment, PriorityBand, QueueEntry, QueueEntryView, DEFAULT_PRIORITY,
};
use crate::account_store::state::{
    added_at_of, all_but, dup_accounts, enabled_of, find_index, id_of, index_of, index_of_is_first,
    name_of, others_than, positive_of, priority_of, records, type_of, StoredAccount,
};
use crate::account_store::store::{
    current_of, edition_for, json_id_at, keys_of, listing, refusal, sort_keys, unwrapped,
    AccountStore, AccountStoreError, EditionInfo, EditionView, Refusal, RulesView,
};
use crate::account_store::{MAX_ACCOUNTS, MAX_TOKEN_LENGTH};
use crate::js::{
    either, fields_of, filled_text, first_token, js_string, js_text, json_number, number_or,
    number_or_else, object_or_empty, optional_text, or_falsy, or_nullish, pick_token, plain_number,
    texts, token_tail_of, value_or, value_or_nullish,
};
use crate::json::{
    find, find_of_put, json_int, list_view, put, seen, text_or_empty, text_seen, text_view, Fields,
    Json, JsonValue, Object, push_value,
};
use crate::order::{order_of, stable_order};
use crate::text::{
    char_count, concat, concat3, decimal, decimal_i64, head, same, tail, trim, trimmed,
    truncate_chars,
};
use crate::words::{push_word, words};

verus! {

// ─── Adding ──────────────────────────────────────────────────

pub open spec fn auth_part(p: Fields) -> Fields {
    fields_of(find(p, "auth"@))
}

pub open spec fn account_part(p: Fields) -> Fields {
    fields_of(find(p, "account"@))
}

/// The access token: in the session's credentials, or bare in the payload.
pub open spec fn added_access(p: Fields) -> Seq<char> {
    first_token(auth_part(p), p, seq!["accessToken"@, "token"@, "access_token"@])
}

/// The refresh token: in the session's credentials, or bare in the payload.
pub open spec fn added_refresh(p: Fields) -> Seq<char> {
    first_token(auth_part(p), p, seq!["refreshToken"@, "refresh_token"@])
}

/// The user that the account belongs to.
pub open spec fn added_uid(p: Fields) -> Seq<char> {
    trimmed(
        js_text(
            or_falsy(
                either(find(account_part(p), "uid"@), find(p, "uid"@)),
                Json::Str(Seq::empty()),
            ),
        ),
    )
}

/// An account is known by its user.
pub open spec fn user_id(uid: Seq<char>) -> Seq<char> {
    "user-"@ + uid
}

/// The record that an addition replaces.
pub open spec fn replaced(s: Seq<Fields>, p: Fields) -> Option<Fields> {
    let i = index_of(s, user_id(added_uid(p)));
    if i < s.len() {
        Some(s[i])
    } else {
        None
    }
}

pub open spec fn kept_others(s: Seq<Fields>, p: Fields) -> Seq<Fields> {
    others_than(s, user_id(added_uid(p)))
}

pub open spec fn priorities_of(s: Seq<Fields>, band: PriorityBand) -> Seq<i64> {
    s.map_values(|f: Fields| priority_of(f, band) as i64)
}

/// The queue as entries of id, name and number.
pub open spec fn entries_of(s: Seq<Fields>, band: PriorityBand) -> Seq<QueueEntryView> {
    s.map_values(
        |f: Fields|
            QueueEntryView { id: id_of(f), name: name_of(f), priority: priority_of(f, band) as i64 },
    )
}

/// The number of the added account: the one asked for, else its old one, else the one behind
/// the last of the queue.
pub open spec fn added_priority(s: Seq<Fields>, p: Fields, band: PriorityBand) -> int {
    let before = replaced(s, p);
    match find(p, "priority"@) {
        Some(v) => priority_from(
            Some(v),
            match before {
                Some(f) => priority_of(f, band),
                None => DEFAULT_PRIORITY as int,
            },
            band,
        ),
        None => match before {
            Some(f) => priority_of(f, band),
            None => free_behind(priorities_of(kept_others(s, p), band), band),
        },
    }
}

/// The message for a number that is taken.
pub open spec fn taken_message(priority: int, name: Seq<char>) -> Seq<char> {
    "优先级 "@ + decimal(priority) + " 已被账号「"@ + name + "」占用，请换一个（优先级需全局唯一）"@
}

pub open spec fn too_many_message() -> Seq<char> {
    "最多保存 "@ + decimal(MAX_ACCOUNTS as int) + " 个账号"@
}

/// Why an addition is refused, if it is. `proxy` is what became of the payload's proxy setting.
pub open spec fn add_refusal(
    s: Seq<Fields>,
    payload: Json,
    proxy: Result<JsonValue, AccountStoreError>,
    band: PriorityBand,
) -> Option<Refusal> {
    match payload {
        Json::Obj(p) => if added_access(p).len() == 0 {
            Some(refusal("缺少 accessToken"@, 400))
        } else if added_access(p).len() > MAX_TOKEN_LENGTH || added_refresh(p).len()
            > MAX_TOKEN_LENGTH {
            Some(refusal("token 过长"@, 400))
        } else if added_uid(p).len() == 0 {
            Some(refusal("缺少 uid（无法标识账号）"@, 400))
        } else if replaced(s, p) is None && kept_others(s, p).len() >= MAX_ACCOUNTS {
            Some(refusal(too_many_message(), 400))
        } else if find(p, "proxy"@) is Some && proxy is Err {
            Some(proxy->Err_0@)
        } else {
            let priority = added_priority(s, p, band);
            match holder(entries_of(kept_others(s, p), band), priority as i64, None) {
                Some(e) => Some(refusal(taken_message(priority, e.name), 409)),
                None => None,
            }
        },
        _ => Some(refusal("账号内容必须是 JSON 对象"@, 400)),
    }
}

/// The proxy setting of the added account.
pub open spec fn added_proxy(
    p: Fields,
    before: Option<Fields>,
    proxy: Result<JsonValue, AccountStoreError>,
) -> Json {
    if find(p, "proxy"@) is Some {
        proxy->Ok_0@
    } else {
        match before {
            Some(f) => or_nullish(find(f, "proxy"@), Json::Null),
            None => Json::Null,
        }
    }
}

/// The edition that the payload asks for, else the record's.
pub open spec fn added_edition_id(p: Fields, before: Option<Fields>) -> Option<Seq<char>> {
    match find(p, "edition"@) {
        Some(Json::Null) => before_text(before, "edition"@),
        Some(v) => Some(js_text(v)),
        None => before_text(before, "edition"@),
    }
}

/// A filled text of the record that was there before.
pub open spec fn before_text(before: Option<Fields>, key: Seq<char>) -> Option<Seq<char>> {
    match before {
        Some(f) => filled_text(find(f, key)),
        None => None,
    }
}

/// What the record that was there before holds under a key.
pub open spec fn before_field(before: Option<Fields>, key: Seq<char>) -> Option<Json> {
    match before {
        Some(f) => find(f, key),
        None => None,
    }
}

/// A filled text of the payload's account, else of the payload.
pub open spec fn given_text(p: Fields, key: Seq<char>) -> Option<Seq<char>> {
    either(filled_text(find(account_part(p), key)), filled_text(find(p, key)))
}

/// The name that the caller asks for: trimmed, at most a hundred characters.
pub open spec fn explicit_name(name: Option<Seq<char>>) -> Option<Seq<char>> {
    match name {
        Some(n) => if trimmed(n).len() > 0 {
            Some(head(trimmed(n), 100))
        } else {
            None
        },
        None => None,
    }
}

/// The name of the added account: asked for, else the nickname, else the old name, else one made
/// from the user.
pub open spec fn added_name(p: Fields, name: Option<Seq<char>>, before: Option<Fields>) -> Seq<
    char,
> {
    unwrapped(
        either(
            either(explicit_name(name), given_text(p, "nickname"@)),
            before_text(before, "name"@),
        ),
        "账号 "@ + head(added_uid(p), 8),
    )
}

/// A text of the record that was there before, or empty.
pub open spec fn before_plain(before: Option<Fields>, key: Seq<char>) -> Seq<char> {
    text_or_empty(before_field(before, key))
}

pub open spec fn added_type(p: Fields, before: Option<Fields>) -> Seq<char> {
    unwrapped(
        given_text(p, "type"@),
        match before {
            Some(f) => type_of(f),
            None => "personal"@,
        },
    )
}

/// A time of expiry: the one given, else the old one, else null.
pub open spec fn added_time(p: Fields, before: Option<Fields>, key: Seq<char>) -> Json {
    number_or_else(
        either(find(auth_part(p), key), find(p, key)),
        match positive_of(before_field(before, key)) {
            Some(n) => plain_number(n),
            None => Json::Null,
        },
    )
}

pub open spec fn added_domain(p: Fields, before: Option<Fields>) -> Seq<char> {
    unwrapped(
        either(filled_text(find(auth_part(p), "domain"@)), filled_text(find(p, "domain"@))),
        before_plain(before, "domain"@),
    )
}

/// Where requests go: as given, else as before, else as the edition has it.
pub open spec fn added_route(
    p: Fields,
    before: Option<Fields>,
    key: Seq<char>,
    default: Seq<char>,
) -> Json {
    or_nullish(either(find(p, key), before_field(before, key)), Json::Str(default))
}

pub open spec fn added_enabled(p: Fields, before: Option<Fields>) -> bool {
    match find(p, "enabled"@) {
        Some(v) => v != Json::Bool(false),
        None => match before {
            Some(f) => enabled_of(f),
            None => true,
        },
    }
}

pub open spec fn added_added_at(before: Option<Fields>, now: i64) -> int {
    match before {
        Some(f) => if added_at_of(f) != 0 {
            added_at_of(f)
        } else {
            now as int
        },
        None => now as int,
    }
}

/// Who the added account is: the first fields of its record, over those it had before.
pub open spec fn identity_fields(p: Fields, name: Option<Seq<char>>, before: Option<Fields>) -> Fields {
    let r = match before {
        Some(f) => f,
        None => Seq::empty(),
    };
    let r = put(r, "id"@, Json::Str(user_id(added_uid(p))));
    let r = put(r, "name"@, Json::Str(added_name(p, name, before)));
    let r = put(r, "uid"@, Json::Str(added_uid(p)));
    let r = put(
        r,
        "nickname"@,
        Json::Str(unwrapped(given_text(p, "nickname"@), before_plain(before, "nickname"@))),
    );
    let r = put(r, "type"@, Json::Str(added_type(p, before)));
    let r = put(
        r,
        "enterpriseId"@,
        Json::Str(
            unwrapped(
                either(given_text(p, "enterpriseId"@), before_text(before, "enterpriseId"@)),
                Seq::empty(),
            ),
        ),
    );
    put(
        r,
        "enterpriseName"@,
        Json::Str(
            unwrapped(
                either(given_text(p, "enterpriseName"@), before_text(before, "enterpriseName"@)),
                Seq::empty(),
            ),
        ),
    )
}

/// What the account logs in with, over the fields `r`.
pub open spec fn token_fields(r: Fields, p: Fields, before: Option<Fields>) -> Fields {
    let r = put(r, "accessToken"@, Json::Str(added_access(p)));
    let r = put(
        r,
        "refreshToken"@,
        Json::Str(
            if added_refresh(p).len() > 0 {
                added_refresh(p)
            } else {
                before_plain(before, "refreshToken"@)
            },
        ),
    );
    let r = put(r, "tokenTail"@, Json::Str(tail(added_access(p), 4)));
    let r = put(r, "expiresAt"@, added_time(p, before, "expiresAt"@));
    let r = put(r, "refreshExpiresAt"@, added_time(p, before, "refreshExpiresAt"@));
    put(r, "domain"@, Json::Str(added_domain(p, before)))
}

/// Where its requests go, over the fields `r`.
pub open spec fn route_fields(
    r: Fields,
    p: Fields,
    before: Option<Fields>,
    edition: EditionView,
) -> Fields {
    let r = put(r, "edition"@, Json::Str(edition.id));
    let r = put(r, "prefixPath"@, added_route(p, before, "prefixPath"@, edition.prefix_path));
    let r = put(r, "endpoint"@, added_route(p, before, "endpoint"@, edition.endpoint));
    put(r, "platform"@, added_route(p, before, "platform"@, edition.platform))
}

/// How it stands in the queue, over the fields `r`.
pub open spec fn queue_fields(
    r: Fields,
    p: Fields,
    before: Option<Fields>,
    priority: int,
    proxy: Json,
    now: i64,
) -> Fields {
    let r = put(r, "priority"@, json_int(priority));
    let r = put(r, "enabled"@, Json::Bool(added_enabled(p, before)));
    let r = put(r, "proxy"@, proxy);
    let r = put(r, "addedAt"@, json_int(added_added_at(before, now)));
    put(r, "updatedAt"@, json_int(now as int))
}

/// The record of an added account. Fields that an addition does not set stay as they were.
pub open spec fn added_record(
    s: Seq<Fields>,
    p: Fields,
    name: Option<Seq<char>>,
    proxy: Result<JsonValue, AccountStoreError>,
    rules: RulesView,
    now: i64,
) -> Fields {
    let before = replaced(s, p);
    let r = identity_fields(p, name, before);
    let r = token_fields(r, p, before);
    let r = route_fields(r, p, before, edition_for(rules, added_edition_id(p, before)));
    queue_fields(
        r,
        p,
        before,
        added_priority(s, p, rules.band),
        added_proxy(p, before, proxy),
        now,
    )
}

/// The fields that an addition sets.
pub open spec fn fields_set_by_add() -> Set<Seq<char>> {
    set![
        "id"@,
        "name"@,
        "uid"@,
        "nickname"@,
        "type"@,
        "enterpriseId"@,
        "enterpriseName"@,
        "accessToken"@,
        "refreshToken"@,
        "tokenTail"@,
        "expiresAt"@,
        "refreshExpiresAt"@,
        "domain"@,
        "edition"@,
        "prefixPath"@,
        "endpoint"@,
        "platform"@,
        "priority"@,
        "enabled"@,
        "proxy"@,
        "addedAt"@,
        "updatedAt"@,
    ]
}

/// Adding an account again keeps every field of its record that an addition does not set.
pub proof fn add_keeps_other_fields(
    s: Seq<Fields>,
    p: Fields,
    name: Option<Seq<char>>,
    proxy: Result<JsonValue, AccountStoreError>,
    rules: RulesView,
    now: i64,
    key: Seq<char>,
)
    requires
        !fields_set_by_add().contains(key),
    ensures
        find(added_record(s, p, name, proxy, rules, now), key) == before_field(
            replaced(s, p),
            key,
        ),
{
    broadcast use find_of_put;

}

/// A copy of the value, null where there is none.
fn text_or(v: Option<String>, other: &str) -> (out: String)
    ensures
        out@ == unwrapped(text_view(v), other@),
{
    match v {
        Some(s) => s,
        None => other.to_owned(),
    }
}

fn or_text(a: Option<String>, b: Option<String>) -> (r: Option<String>)
    ensures
        text_view(r) == either(text_view(a), text_view(b)),
{
    match a {
        Some(s) => Some(s),
        None => b,
    }
}

fn or_value<'a>(a: Option<&'a JsonValue>, b: Option<&'a JsonValue>) -> (r: Option<&'a JsonValue>)
    ensures
        seen(r) == either(seen(a), seen(b)),
{
    match a {
        Some(v) => Some(v),
        None => b,
    }
}

fn text_given(account: &Object, payload: &Object, key: &str) -> (r: Option<String>)
    ensures
        text_view(r) == either(filled_text(find(account@, key@)), filled_text(find(payload@, key@))),
{
    or_text(optional_text(account.get(key)), optional_text(payload.get(key)))
}

/// The plain value of the record that was there before.
pub open spec fn seen_record(before: Option<&StoredAccount>) -> Option<Fields> {
    match before {
        Some(a) => Some(a@),
        None => None,
    }
}

fn field_before<'a>(before: Option<&'a StoredAccount>, key: &str) -> (r: Option<&'a JsonValue>)
    ensures
        seen(r) == before_field(seen_record(before), key@),
{
    match before {
        Some(a) => a.get(key),
        None => None,
    }
}

fn text_before(before: Option<&StoredAccount>, key: &str) -> (r: Option<String>)
    ensures
        text_view(r) == before_text(seen_record(before), key@),
{
    optional_text(field_before(before, key))
}

fn plain_before(before: Option<&StoredAccount>, key: &str) -> (out: String)
    ensures
        out@ == before_plain(seen_record(before), key@),
{
    crate::json::text_in(field_before(before, key))
}

fn uid_in(payload: &Object, account: &Object) -> (out: String)
    requires
        account@ == account_part(payload@),
    ensures
        out@ == added_uid(payload@),
{
    let candidate = value_or(
        or_value(account.get("uid"), payload.get("uid")),
        JsonValue::text(""),
    );
    proof {
        reveal_strlit("");
        assert(""@ =~= Seq::<char>::empty());
    }
    trim(js_string(&candidate).as_str())
}

fn name_for(
    payload: &Object,
    account: &Object,
    uid: &str,
    name: Option<&str>,
    before: Option<&StoredAccount>,
) -> (out: String)
    requires
        account@ == account_part(payload@),
        uid@ == added_uid(payload@),
    ensures
        out@ == added_name(payload@, text_seen(name), seen_record(before)),
{
    let explicit = match name {
        Some(n) => {
            let wanted = trim(n);
            if wanted.as_str().is_empty() {
                None
            } else {
                Some(truncate_chars(wanted.as_str(), 100))
            }
        },
        None => None,
    };
    let made = concat("账号 ", truncate_chars(uid, 8).as_str());
    text_or(
        or_text(
            or_text(explicit, text_given(account, payload, "nickname")),
            text_before(before, "name"),
        ),
        made.as_str(),
    )
}

fn put_identity(
    payload: &Object,
    account: &Object,
    uid: &str,
    name: Option<&str>,
    before: Option<&StoredAccount>,
) -> (out: StoredAccount)
    requires
        account@ == account_part(payload@),
        uid@ == added_uid(payload@),
    ensures
        out@ == identity_fields(payload@, text_seen(name), seen_record(before)),
{
    let mut r = match before {
        Some(a) => a.dup(),
        None => StoredAccount::from_map(Object::new()),
    };
    r.set("id", JsonValue::Str(concat("user-", uid)));
    r.set("name", JsonValue::Str(name_for(payload, account, uid, name, before)));
    r.set("uid", JsonValue::text(uid));
    r.set(
        "nickname",
        JsonValue::Str(
            text_or(
                text_given(account, payload, "nickname"),
                plain_before(before, "nickname").as_str(),
            ),
        ),
    );
    let old_type = match before {
        Some(a) => a.account_type(),
        None => "personal".to_owned(),
    };
    r.set(
        "type",
        JsonValue::Str(text_or(text_given(account, payload, "type"), old_type.as_str())),
    );
    proof {
        reveal_strlit("");
        assert(""@ =~= Seq::<char>::empty());
    }
    r.set(
        "enterpriseId",
        JsonValue::Str(
            text_or(
                or_text(
                    text_given(account, payload, "enterpriseId"),
                    text_before(before, "enterpriseId"),
                ),
                "",
            ),
        ),
    );
    r.set(
        "enterpriseName",
        JsonValue::Str(
            text_or(
                or_text(
                    text_given(account, payload, "enterpriseName"),
                    text_before(before, "enterpriseName"),
                ),
                "",
            ),
        ),
    );
    r
}

fn time_for(
    payload: &Object,
    auth: &Object,
    before: Option<&StoredAccount>,
    key: &str,
) -> (out: JsonValue)
    requires
        auth@ == auth_part(payload@),
    ensures
        out@ == added_time(payload@, seen_record(before), key@),
{
    let old = match crate::json::read_number(field_before(before, key)) {
        Some(n) => if n.is_positive() {
            json_number(&n)
        } else {
            JsonValue::Null
        },
        None => JsonValue::Null,
    };
    number_or(or_value(auth.get(key), payload.get(key)), old)
}

fn put_tokens(
    r: &mut StoredAccount,
    payload: &Object,
    auth: &Object,
    access: &str,
    refresh: &str,
    before: Option<&StoredAccount>,
)
    requires
        auth@ == auth_part(payload@),
        access@ == added_access(payload@),
        refresh@ == added_refresh(payload@),
    ensures
        final(r)@ == token_fields(old(r)@, payload@, seen_record(before)),
{
    r.set("accessToken", JsonValue::text(access));
    let kept = if refresh.is_empty() {
        plain_before(before, "refreshToken")
    } else {
        refresh.to_owned()
    };
    r.set("refreshToken", JsonValue::Str(kept));
    r.set("tokenTail", JsonValue::Str(token_tail_of(access)));
    r.set("expiresAt", time_for(payload, auth, before, "expiresAt"));
    r.set("refreshExpiresAt", time_for(payload, auth, before, "refreshExpiresAt"));
    let domain = text_or(
        or_text(optional_text(auth.get("domain")), optional_text(payload.get("domain"))),
        plain_before(before, "domain").as_str(),
    );
    r.set("domain", JsonValue::Str(domain));
}

fn put_route(
    r: &mut StoredAccount,
    payload: &Object,
    before: Option<&StoredAccount>,
    edition: &EditionInfo,
)
    ensures
        final(r)@ == route_fields(old(r)@, payload@, seen_record(before), edition@),
{
    r.set("edition", JsonValue::text(edition.id.as_str()));
    r.set(
        "prefixPath",
        value_or_nullish(
            or_value(payload.get("prefixPath"), field_before(before, "prefixPath")),
            JsonValue::text(edition.prefix_path.as_str()),
        ),
    );
    r.set(
        "endpoint",
        value_or_nullish(
            or_value(payload.get("endpoint"), field_before(before, "endpoint")),
            JsonValue::text(edition.endpoint.as_str()),
        ),
    );
    r.set(
        "platform",
        value_or_nullish(
            or_value(payload.get("platform"), field_before(before, "platform")),
            JsonValue::text(edition.platform.as_str()),
        ),
    );
}

fn put_queue(
    r: &mut StoredAccount,
    payload: &Object,
    before: Option<&StoredAccount>,
    priority: i64,
    proxy: JsonValue,
    now: i64,
)
    ensures
        final(r)@ == queue_fields(
            old(r)@,
            payload@,
            seen_record(before),
            priority as int,
            proxy@,
            now,
        ),
{
    r.set_priority(priority);
    let enabled = match payload.get("enabled") {
        Some(v) => match v {
            JsonValue::Bool(false) => false,
            _ => true,
        },
        None => match before {
            Some(a) => a.enabled(),
            None => true,
        },
    };
    r.set_enabled(enabled);
    r.set_proxy(proxy);
    let added_at: i64 = match before {
        Some(a) => if a.added_at() != 0 {
            a.added_at()
        } else {
            now
        },
        None => now,
    };
    r.set("addedAt", JsonValue::integer(added_at));
    r.set_updated_at(now);
}

/// [`priorities_of`].
pub fn taken_priorities(accounts: &Vec<StoredAccount>, band: PriorityBand) -> (out: Vec<i64>)
    ensures
        out@ == priorities_of(records(accounts@), band),
{
    let mut out: Vec<i64> = Vec::new();
    for i in 0..accounts.len()
        invariant
            out@ =~= priorities_of(records(accounts@), band).take(i as int),
    {
        out.push(accounts[i].priority(band));
    }
    out
}

/// [`entries_of`].
pub fn queue_entries(accounts: &Vec<StoredAccount>, band: PriorityBand) -> (out: Vec<QueueEntry>)
    ensures
        entries_view(out@) == entries_of(records(accounts@), band),
        out@.len() == accounts@.len(),
{
    let mut out: Vec<QueueEntry> = Vec::new();
    for i in 0..accounts.len()
        invariant
            out@.len() == i,
            entries_view(out@) =~= entries_of(records(accounts@), band).take(i as int),
    {
        out.push(
            QueueEntry {
                id: accounts[i].id(),
                name: accounts[i].name(),
                priority: accounts[i].priority(band),
            },
        );
    }
    out
}

fn taken_error(priority: i64, name: &str) -> (out: AccountStoreError)
    ensures
        out@ == refusal(taken_message(priority as int, name@), 409),
{
    let mut message = "优先级 ".to_owned();
    message.append(decimal_i64(priority).as_str());
    message.append(" 已被账号「");
    message.append(name);
    message.append("」占用，请换一个（优先级需全局唯一）");
    AccountStoreError::new(message.as_str(), 409)
}

/// Every number in a well-formed band has one behind it.
pub proof fn lemma_priority_in_band(f: Fields, band: PriorityBand)
    requires
        band.wf(),
    ensures
        band.lowest <= priority_of(f, band) <= band.highest,
{
}

impl AccountStore {
    /// Adds an account, or replaces the one of the same user. The payload is a session (`auth` and
    /// `account`) or bare credentials. `proxy` is what became of its proxy setting.
    pub fn add_account(
        &mut self,
        payload: &JsonValue,
        name: Option<&str>,
        proxy: Result<JsonValue, AccountStoreError>,
        now: i64,
    ) -> (r: Result<StoredAccount, AccountStoreError>)
        requires
            old(self).rules.band.wf(),
        ensures
            final(self).rules == old(self).rules,
            final(self).state@.scope == old(self).state@.scope,
            match add_refusal(old(self).state@.accounts, payload@, proxy, old(self).rules@.band) {
                Some(e) => r is Err && r->Err_0@ == e && final(self).state == old(self).state,
                None => {
                    let p = payload@->Obj_0;
                    let s = old(self).state@.accounts;
                    &&& r is Ok
                    &&& r->Ok_0@ == added_record(s, p, text_seen(name), proxy, old(self).rules@, now)
                    &&& final(self).state@.accounts == kept_others(s, p).push(r->Ok_0@)
                },
            },
    {
        let ghost s = self.state@.accounts;
        let p = match payload {
            JsonValue::Obj(p) => p,
            _ => {
                return Err(AccountStoreError::bad_request("账号内容必须是 JSON 对象"));
            },
        };
        let auth = object_or_empty(p.get("auth"));
        let account = object_or_empty(p.get("account"));
        let access_keys = vec!["accessToken", "token", "access_token"];
        let refresh_keys = vec!["refreshToken", "refresh_token"];
        assert(texts(access_keys@) =~= seq!["accessToken"@, "token"@, "access_token"@]);
        assert(texts(refresh_keys@) =~= seq!["refreshToken"@, "refresh_token"@]);
        let access = pick_token(&auth, p, &access_keys);
        let refresh = pick_token(&auth, p, &refresh_keys);
        if access.as_str().is_empty() {
            return Err(AccountStoreError::bad_request("缺少 accessToken"));
        }
        if char_count(access.as_str()) > MAX_TOKEN_LENGTH || char_count(refresh.as_str())
            > MAX_TOKEN_LENGTH {
            return Err(AccountStoreError::bad_request("token 过长"));
        }
        let uid = uid_in(p, &account);
        if uid.as_str().is_empty() {
            return Err(AccountStoreError::bad_request("缺少 uid（无法标识账号）"));
        }
        let id = concat("user-", uid.as_str());
        let at = find_index(&self.state.accounts, id.as_str());
        let before = if at < self.state.accounts.len() {
            Some(self.state.accounts[at].dup())
        } else {
            None
        };
        let before_ref = before.as_ref();
        assert(seen_record(before_ref) == replaced(s, p@));
        let others = all_but(&self.state.accounts, id.as_str());
        if before.is_none() && others.len() >= MAX_ACCOUNTS {
            let message = concat3("最多保存 ", decimal_i64(20).as_str(), " 个账号");
            return Err(AccountStoreError::bad_request(message.as_str()));
        }
        let ghost given = proxy;
        let resolved_proxy = match p.get("proxy") {
            Some(_) => match proxy {
                Ok(v) => v,
                Err(e) => {
                    return Err(e);
                },
            },
            None => value_or_nullish(field_before(before_ref, "proxy"), JsonValue::Null),
        };
        let band = self.rules.band;
        let priority: i64 = match p.get("priority") {
            Some(v) => normalize_priority(
                Some(v),
                match before_ref {
                    Some(a) => a.priority(band),
                    None => DEFAULT_PRIORITY,
                },
                band,
            ),
            None => match before_ref {
                Some(a) => a.priority(band),
                None => {
                    let taken = taken_priorities(&others, band);
                    next_free_priority(&taken, band)
                },
            },
        };
        let entries = queue_entries(&others, band);
        if let Some(holder_name) = find_priority_holder(&entries, priority, None) {
            return Err(taken_error(priority, holder_name.as_str()));
        }
        let edition_id = match p.get("edition") {
            Some(v) => if v.is_null() {
                text_before(before_ref, "edition")
            } else {
                Some(js_string(v))
            },
            None => text_before(before_ref, "edition"),
        };
        let edition = self.rules.resolve_edition(
            match &edition_id {
                Some(e) => Some(e.as_str()),
                None => None,
            },
        );
        let mut saved = put_identity(p, &account, uid.as_str(), name, before_ref);
        put_tokens(&mut saved, p, &auth, access.as_str(), refresh.as_str(), before_ref);
        put_route(&mut saved, p, before_ref, edition);
        put_queue(&mut saved, p, before_ref, priority, resolved_proxy, now);
        let mut merged = others;
        let ghost kept = merged@;
        merged.push(saved.dup());
        assert(records(merged@) =~= records(kept).push(saved@));
        self.state.accounts = merged;
        Ok(saved)
    }
}

// ─── Removing ────────────────────────────────────────────────

/// Taking away a record's id changes the number of records exactly where there is such a record.
pub proof fn lemma_others_shorter(s: Seq<Fields>, id: Seq<char>)
    ensures
        others_than(s, id).len() <= s.len(),
        others_than(s, id).len() == s.len() <==> index_of(s, id) == s.len(),
        index_of(s, id) == s.len() ==> others_than(s, id) == s,
        forall|i: int| 0 <= i < others_than(s, id).len() ==> id_of(#[trigger] others_than(s, id)[i]) != id,
    decreases s.len(),
{
    index_of_is_first(s, id);
    if s.len() > 0 {
        let short = s.drop_last();
        lemma_others_shorter(short, id);
        index_of_is_first(short, id);
        if id_of(s.last()) == id {
            assert(s[s.len() - 1] == s.last());
        } else {
            if index_of(s, id) < s.len() {
                let i = index_of(s, id);
                assert(short[i] == s[i]);
                if index_of(short, id) == short.len() {
                    assert(id_of(short[i]) != id);
                }
            } else {
                if index_of(short, id) < short.len() {
                    assert(s[index_of(short, id)] == short[index_of(short, id)]);
                }
                assert(others_than(s, id) =~= s);
            }
        }
    }
}

// ─── The order of the queue ──────────────────────────────────

/// The records in the order of the queue.
pub open spec fn ordered(s: Seq<Fields>, band: PriorityBand) -> Seq<Fields> {
    stable_order(keys_of(s, band)).map_values(|i: int| s[i])
}

/// [`ordered`].
pub fn in_order(accounts: &Vec<StoredAccount>, band: PriorityBand) -> (out: Vec<StoredAccount>)
    ensures
        records(out@) == ordered(records(accounts@), band),
        out@.len() == accounts@.len(),
{
    let keys = sort_keys(accounts, band);
    let order = order_of(&keys);
    let ghost positions = stable_order(keys@);
    let ghost all = ordered(records(accounts@), band);
    let mut out: Vec<StoredAccount> = Vec::new();
    for n in 0..order.len()
        invariant
            order@.len() == accounts@.len(),
            keys@.len() == accounts@.len(),
            out@.len() == n,
            positions == order@.map_values(|i: usize| i as int),
            all == positions.map_values(|i: int| records(accounts@)[i]),
            forall|i: int| 0 <= i < order@.len() ==> #[trigger] order@[i] < keys@.len(),
            records(out@) =~= all.take(n as int),
    {
        assert(positions[n as int] == order@[n as int] as int);
        out.push(accounts[order[n]].dup());
    }
    assert(records(out@) =~= all);
    out
}

/// The record with `id` that counts gets a value under a key.
pub open spec fn with_field(s: Seq<Fields>, id: Seq<char>, key: Seq<char>, value: Json) -> Seq<Fields> {
    let i = index_of(s, id);
    if i < s.len() {
        s.update(i, put(s[i], key, value))
    } else {
        s
    }
}

/// Each change of number is written to its record.
pub open spec fn apply_assignments(s: Seq<Fields>, changes: Seq<AssignmentView>) -> Seq<Fields>
    decreases changes.len(),
{
    if changes.len() == 0 {
        s
    } else {
        with_field(
            apply_assignments(s, changes.drop_last()),
            changes.last().id,
            "priority"@,
            json_int(changes.last().to),
        )
    }
}

/// The queue numbered without gaps from the start of the band.
pub open spec fn renumbered(s: Seq<Fields>, band: PriorityBand) -> Seq<Fields> {
    apply_assignments(s, consecutive(entries_of(s, band), band.lowest as int))
}

fn set_field(accounts: &mut Vec<StoredAccount>, id: &str, key: &str, value: JsonValue)
    ensures
        records(final(accounts)@) == with_field(records(old(accounts)@), id@, key@, value@),
        final(accounts)@.len() == old(accounts)@.len(),
{
    let at = find_index(accounts, id);
    if at < accounts.len() {
        let ghost before = accounts@;
        let mut record = accounts[at].dup();
        record.set(key, value);
        accounts.set(at, record);
        assert(records(accounts@) =~= records(before).update(at as int, record@));
    }
}

/// [`renumbered`], with the changes that were made.
pub fn renumber(accounts: &mut Vec<StoredAccount>, band: PriorityBand) -> (out: Vec<
    PriorityAssignment,
>)
    requires
        band.lowest + old(accounts)@.len() <= i64::MAX,
    ensures
        records(final(accounts)@) == renumbered(records(old(accounts)@), band),
        assignments_view(out@) == consecutive(
            entries_of(records(old(accounts)@), band),
            band.lowest as int,
        ),
        final(accounts)@.len() == old(accounts)@.len(),
{
    let ghost s = records(accounts@);
    let entries = queue_entries(accounts, band);
    let changes = renumber_consecutively(&entries, band);
    let ghost all = assignments_view(changes@);
    let ghost len = accounts@.len();
    assert(all.take(0) =~= Seq::empty());
    for n in 0..changes.len()
        invariant
            all == assignments_view(changes@),
            accounts@.len() == len,
            records(accounts@) == apply_assignments(s, all.take(n as int)),
    {
        assert(all.take(n + 1).drop_last() =~= all.take(n as int));
        set_field(accounts, changes[n].id.as_str(), "priority", JsonValue::integer(changes[n].to));
    }
    assert(all.take(all.len() as int) =~= all);
    changes
}

/// No two records share an id.
pub open spec fn distinct_ids(s: Seq<Fields>) -> bool {
    forall|i: int, j: int| 0 <= i < j < s.len() ==> id_of(#[trigger] s[i]) != id_of(#[trigger] s[j])
}

/// No two records share a priority.
pub open spec fn distinct_priorities(s: Seq<Fields>, band: PriorityBand) -> bool {
    forall|i: int, j: int|
        0 <= i < j < s.len() ==> priority_of(#[trigger] s[i], band) != priority_of(
            #[trigger] s[j],
            band,
        )
}

/// The band has a number for each of `n` accounts, all of them exact as doubles.
pub open spec fn band_holds(band: PriorityBand, n: nat) -> bool {
    &&& band.wf()
    &&& band.lowest + n <= band.highest + 1
    &&& -(crate::number::EXACT_BELOW as int) < band.lowest
    &&& band.highest < crate::number::EXACT_BELOW
}

proof fn lemma_index_of_at(s: Seq<Fields>, at: int)
    requires
        distinct_ids(s),
        0 <= at < s.len(),
    ensures
        index_of(s, id_of(s[at])) == at,
{
    let id = id_of(s[at]);
    index_of_is_first(s, id);
    let i = index_of(s, id);
    if i < at {
        assert(id_of(s[i]) != id_of(s[at]));
    }
}

/// Setting a field other than the id changes no id.
proof fn lemma_with_field_ids(s: Seq<Fields>, id: Seq<char>, key: Seq<char>, value: Json)
    requires
        key != "id"@,
    ensures
        with_field(s, id, key, value).len() == s.len(),
        forall|i: int|
            0 <= i < s.len() ==> id_of(#[trigger] with_field(s, id, key, value)[i]) == id_of(s[i]),
{
    broadcast use find_of_put;

    index_of_is_first(s, id);
}

proof fn lemma_renumber_prefix(s: Seq<Fields>, band: PriorityBand, n: nat)
    requires
        distinct_ids(s),
        band_holds(band, s.len()),
        n <= s.len(),
    ensures
        ({
            let changes = consecutive(entries_of(s, band).take(n as int), band.lowest as int);
            let r = apply_assignments(s, changes);
            &&& r.len() == s.len()
            &&& forall|i: int| 0 <= i < s.len() ==> id_of(#[trigger] r[i]) == id_of(s[i])
            &&& forall|i: int| n <= i < s.len() ==> #[trigger] r[i] == s[i]
            &&& forall|i: int|
                0 <= i < n ==> priority_of(#[trigger] r[i], band) == band.lowest + i
            &&& forall|i: int, key: Seq<char>|
                0 <= i < s.len() && key != "priority"@ ==> #[trigger] find(r[i], key) == find(s[i], key)
        }),
    decreases n,
{
    broadcast use find_of_put;

    let entries = entries_of(s, band);
    if n == 0 {
        assert(entries.take(0) =~= Seq::<QueueEntryView>::empty());
    } else {
        let m = (n - 1) as nat;
        lemma_renumber_prefix(s, band, m);
        let before = consecutive(entries.take(m as int), band.lowest as int);
        let r0 = apply_assignments(s, before);
        assert(entries.take(n as int).drop_last() =~= entries.take(m as int));
        let e = entries[m as int];
        assert(entries.take(n as int).last() == e);
        assert(e.id == id_of(s[m as int]));
        let to = band.lowest + m;
        let changes = consecutive(entries.take(n as int), band.lowest as int);
        if e.priority == to {
            assert(changes == before);
            lemma_priority_in_band(s[m as int], band);
            assert(priority_of(r0[m as int], band) == to);
        } else {
            assert(changes.drop_last() =~= before);
            assert(distinct_ids(r0)) by {
                assert forall|i: int, j: int| 0 <= i < j < r0.len() implies id_of(#[trigger] r0[i])
                    != id_of(#[trigger] r0[j]) by {
                    assert(id_of(s[i]) != id_of(s[j]));
                }
            }
            lemma_index_of_at(r0, m as int);
            let r = apply_assignments(s, changes);
            assert(r == r0.update(m as int, put(r0[m as int], "priority"@, json_int(to))));
            crate::account_store::state::priority_reads_back(r0[m as int], to as i64, band);
            reveal_strlit("priority");
            reveal_strlit("id");
            assert("priority"@.len() != "id"@.len());
            assert forall|i: int, key: Seq<char>|
                0 <= i < s.len() && key != "priority"@ implies #[trigger] find(r[i], key) == find(
                s[i],
                key,
            ) by {
                assert(find(r0[i], key) == find(s[i], key));
            }
            assert forall|i: int| 0 <= i < s.len() implies id_of(#[trigger] r[i]) == id_of(s[i]) by {
                assert(find(r[i], "id"@) == find(s[i], "id"@));
            }
        }
    }
}

/// Renumbering gives each place of the queue its own number, in order and without gaps, and
/// changes nothing else of any record.
pub proof fn renumbering_is_consecutive(s: Seq<Fields>, band: PriorityBand)
    requires
        distinct_ids(s),
        band_holds(band, s.len()),
    ensures
        renumbered(s, band).len() == s.len(),
        distinct_priorities(renumbered(s, band), band),
        forall|i: int|
            0 <= i < s.len() ==> priority_of(#[trigger] renumbered(s, band)[i], band) == band.lowest
                + i,
        forall|i: int, key: Seq<char>|
            0 <= i < s.len() && key != "priority"@ ==> #[trigger] find(renumbered(s, band)[i], key)
                == find(s[i], key),
{
    lemma_renumber_prefix(s, band, s.len());
    assert(entries_of(s, band).take(s.len() as int) =~= entries_of(s, band));
}

// ─── Promotion ───────────────────────────────────────────────

/// The record at `at` comes first; the others keep their order.
pub open spec fn moved_front(s: Seq<Fields>, at: int) -> Seq<Fields> {
    seq![s[at]] + s.remove(at)
}

/// The queue with the account enabled, before it is moved.
pub open spec fn enabled_in_queue(s: Seq<Fields>, id: Seq<char>, band: PriorityBand) -> Seq<Fields> {
    let o = ordered(s, band);
    if enabled_of(o[index_of(o, id)]) {
        o
    } else {
        with_field(o, id, "enabled"@, Json::Bool(true))
    }
}

/// The queue with the account enabled and at its front, numbered anew where it was not there.
pub open spec fn promoted(s: Seq<Fields>, id: Seq<char>, band: PriorityBand) -> Seq<Fields> {
    let o = enabled_in_queue(s, id, band);
    let at = index_of(o, id);
    if at > 0 {
        renumbered(moved_front(o, at), band)
    } else {
        o
    }
}

pub open spec fn promoted_message(priority: int) -> Seq<char> {
    "优先级 → "@ + decimal(priority) + "（置顶）"@
}

/// What a promotion changes, in words.
pub open spec fn promotion_changes(s: Seq<Fields>, id: Seq<char>, band: PriorityBand) -> Seq<
    Seq<char>,
> {
    let o = ordered(s, band);
    let at = index_of(o, id);
    let first = if enabled_of(o[at]) {
        Seq::empty()
    } else {
        seq!["已启用"@]
    };
    if index_of(enabled_in_queue(s, id, band), id) > 0 {
        first.push(promoted_message(priority_of(promoted(s, id, band)[0], band)))
    } else {
        first
    }
}

proof fn lemma_ordered_has(s: Seq<Fields>, id: Seq<char>, band: PriorityBand)
    ensures
        ordered(s, band).len() == s.len(),
        index_of(s, id) < s.len() ==> index_of(ordered(s, band), id) < s.len(),
{
    let keys = keys_of(s, band);
    crate::order::order_is_stable_sort(keys);
    let o = ordered(s, band);
    index_of_is_first(s, id);
    index_of_is_first(o, id);
    if index_of(s, id) < s.len() {
        let i = index_of(s, id);
        crate::order::order_holds_every_position(keys, i);
        let n = choose|n: int| 0 <= n < stable_order(keys).len() && stable_order(keys)[n] == i;
        assert(o[n] == s[i]);
        if index_of(o, id) == o.len() {
            assert(id_of(o[n]) != id);
        }
    }
}

/// Putting the records in order keeps their ids apart.
pub proof fn lemma_ordered_distinct(s: Seq<Fields>, band: PriorityBand)
    requires
        distinct_ids(s),
    ensures
        distinct_ids(ordered(s, band)),
        ordered(s, band).len() == s.len(),
{
    let keys = keys_of(s, band);
    crate::order::order_is_stable_sort(keys);
    let o = stable_order(keys);
    let q = ordered(s, band);
    assert forall|i: int, j: int| 0 <= i < j < q.len() implies id_of(#[trigger] q[i]) != id_of(
        #[trigger] q[j],
    ) by {
        assert(key_le_at(keys, o, i, j));
        assert(o[i] != o[j]);
        if o[i] < o[j] {
            assert(id_of(s[o[i]]) != id_of(s[o[j]]));
        } else {
            assert(id_of(s[o[j]]) != id_of(s[o[i]]));
        }
    }
}

spec fn key_le_at(keys: Seq<crate::order::SortKey>, o: Seq<int>, i: int, j: int) -> bool {
    crate::order::key_le(keys[o[i]], keys[o[j]])
}

/// A promoted account is the first of the queue, enabled, and every account has a number of its
/// own.
pub proof fn promotion_puts_first(s: Seq<Fields>, id: Seq<char>, band: PriorityBand)
    requires
        distinct_ids(s),
        band_holds(band, s.len()),
        index_of(s, id) < s.len(),
        distinct_priorities(s, band),
    ensures
        promoted(s, id, band).len() == s.len(),
        id_of(promoted(s, id, band)[0]) == id,
        enabled_of(promoted(s, id, band)[0]),
        forall|i: int|
            0 < i < s.len() ==> priority_of(promoted(s, id, band)[0], band) < priority_of(
                #[trigger] promoted(s, id, band)[i],
                band,
            ),
        distinct_priorities(promoted(s, id, band), band),
{
    broadcast use find_of_put;

    let q = ordered(s, band);
    lemma_ordered_has(s, id, band);
    lemma_ordered_distinct(s, band);
    index_of_is_first(q, id);
    let o = enabled_in_queue(s, id, band);
    let at = index_of(q, id);
    reveal_strlit("enabled");
    reveal_strlit("id");
    reveal_strlit("priority");
    assert("enabled"@.len() != "id"@.len());
    assert("enabled"@[0] != "priority"@[0]);
    assert("enabled"@ != "priority"@);
    assert("id"@.len() != "priority"@.len());
    lemma_with_field_ids(q, id, "enabled"@, Json::Bool(true));
    assert forall|i: int| 0 <= i < o.len() implies id_of(#[trigger] o[i]) == id_of(q[i]) by {}
    assert(distinct_ids(o)) by {
        assert forall|i: int, j: int| 0 <= i < j < o.len() implies id_of(#[trigger] o[i]) != id_of(
            #[trigger] o[j],
        ) by {
            assert(id_of(q[i]) != id_of(q[j]));
        }
    }
    lemma_index_of_at(o, at);
    assert(enabled_of(o[at]));
    assert forall|i: int| 0 <= i < o.len() implies priority_of(#[trigger] o[i], band) == priority_of(
        q[i],
        band,
    ) by {
        assert(find(o[i], "priority"@) == find(q[i], "priority"@));
    }
    if at > 0 {
        let m = moved_front(o, at);
        assert(m.len() == o.len());
        assert(distinct_ids(m)) by {
            assert forall|i: int, j: int| 0 <= i < j < m.len() implies id_of(#[trigger] m[i])
                != id_of(#[trigger] m[j]) by {
                let a = place_before(i, at);
                let b = place_before(j, at);
                assert(m[i] == o[a]);
                assert(m[j] == o[b]);
                if a < b {
                    assert(id_of(o[a]) != id_of(o[b]));
                } else {
                    assert(id_of(o[b]) != id_of(o[a]));
                }
            }
        }
        renumbering_is_consecutive(m, band);
        let r = renumbered(m, band);
        assert(find(r[0], "id"@) == find(m[0], "id"@));
        assert(find(r[0], "enabled"@) == find(m[0], "enabled"@));
    } else {
        lemma_ordered_by_priority(s, band);
        assert forall|i: int| 0 < i < s.len() implies priority_of(promoted(s, id, band)[0], band)
            < priority_of(#[trigger] promoted(s, id, band)[i], band) by {
            assert(priority_of(q[0], band) < priority_of(q[i], band));
            assert(priority_of(o[0], band) == priority_of(q[0], band));
            assert(priority_of(o[i], band) == priority_of(q[i], band));
        }
        assert forall|i: int, j: int| 0 <= i < j < o.len() implies priority_of(#[trigger] o[i], band)
            != priority_of(#[trigger] o[j], band) by {
            assert(priority_of(q[i], band) < priority_of(q[j], band));
        }
    }
}

/// Where the record stood that is at `i` after the one at `at` went to the front.
spec fn place_before(i: int, at: int) -> int {
    if i == 0 {
        at
    } else if i <= at {
        i - 1
    } else {
        i
    }
}

/// With distinct priorities, the order of the queue is that of the numbers alone.
pub proof fn lemma_ordered_by_priority(s: Seq<Fields>, band: PriorityBand)
    requires
        distinct_priorities(s, band),
        band.wf(),
    ensures
        forall|i: int, j: int|
            0 <= i < j < s.len() ==> priority_of(#[trigger] ordered(s, band)[i], band)
                < priority_of(#[trigger] ordered(s, band)[j], band),
{
    let keys = keys_of(s, band);
    crate::order::order_is_stable_sort(keys);
    let o = stable_order(keys);
    let q = ordered(s, band);
    assert forall|i: int, j: int| 0 <= i < j < s.len() implies priority_of(#[trigger] q[i], band)
        < priority_of(#[trigger] q[j], band) by {
        let a = o[i];
        let b = o[j];
        assert(key_le_at(keys, o, i, j));
        assert(a != b);
        lemma_priority_in_band(s[a], band);
        lemma_priority_in_band(s[b], band);
        if a < b {
            assert(priority_of(s[a], band) != priority_of(s[b], band));
        } else {
            assert(priority_of(s[b], band) != priority_of(s[a], band));
        }
        assert(keys[a].major == priority_of(s[a], band));
        assert(keys[b].major == priority_of(s[b], band));
    }
}

/// What a promotion did: nothing, where there are no changes.
pub struct Promotion {
    pub changes: Vec<String>,
}

// ─── Patches ─────────────────────────────────────────────────

/// A normalised proxy setting with the label it is described by.
pub struct ProxyPatch {
    pub value: JsonValue,
    pub label: Option<String>,
}

/// A record on its way through a patch, with what was changed so far.
pub struct Patched {
    pub record: Fields,
    pub changes: Seq<Seq<char>>,
}

/// The name that a patch gives: trimmed, at most a hundred characters, empty where it is no text.
pub open spec fn patched_name(v: Json) -> Seq<char> {
    match v {
        Json::Str(s) => head(trimmed(s), 100),
        _ => Seq::empty(),
    }
}

pub open spec fn patch_name(d: Patched, patch: Fields) -> Result<Patched, Refusal> {
    match find(patch, "name"@) {
        Some(v) => {
            let next = patched_name(v);
            if next == name_of(d.record) {
                Ok(d)
            } else if next.len() == 0 {
                Err(refusal("备注名不能为空"@, 400))
            } else {
                Ok(
                    Patched {
                        record: put(d.record, "name"@, Json::Str(next)),
                        changes: d.changes.push("备注名 → "@ + next),
                    },
                )
            }
        },
        None => Ok(d),
    }
}

/// A patch may not take a number that another account of the queue `s` holds.
pub open spec fn patch_priority(
    d: Patched,
    patch: Fields,
    s: Seq<Fields>,
    band: PriorityBand,
) -> Result<Patched, Refusal> {
    match find(patch, "priority"@) {
        Some(v) => {
            let current = priority_of(d.record, band);
            let next = priority_from(Some(v), current, band);
            if next == current {
                Ok(d)
            } else {
                match holder(entries_of(s, band), next as i64, Some(id_of(d.record))) {
                    Some(e) => Err(refusal(taken_message(next, e.name), 409)),
                    None => Ok(
                        Patched {
                            record: put(d.record, "priority"@, json_int(next)),
                            changes: d.changes.push("优先级 → "@ + decimal(next)),
                        },
                    ),
                }
            }
        },
        None => Ok(d),
    }
}

pub open spec fn patch_enabled(d: Patched, patch: Fields) -> Patched {
    match find(patch, "enabled"@) {
        Some(v) => {
            let next = v != Json::Bool(false);
            if next == enabled_of(d.record) {
                d
            } else {
                Patched {
                    record: put(d.record, "enabled"@, Json::Bool(next)),
                    changes: d.changes.push(
                        if next {
                            "已启用"@
                        } else {
                            "已禁用"@
                        },
                    ),
                }
            }
        },
        None => d,
    }
}

/// How a change of proxy is put in words.
pub open spec fn proxy_words(p: ProxyPatch) -> Seq<char> {
    if p.value@ == Json::Null {
        "无代理（直连）"@
    } else {
        unwrapped(text_view(p.label), "已设置"@)
    }
}

/// `proxy` is what became of the patch's proxy setting.
pub open spec fn patch_proxy(
    d: Patched,
    patch: Fields,
    proxy: Result<ProxyPatch, AccountStoreError>,
) -> Result<Patched, Refusal> {
    match find(patch, "proxy"@) {
        Some(_) => match proxy {
            Err(e) => Err(e@),
            Ok(p) => if p.value@ == or_nullish(find(d.record, "proxy"@), Json::Null) {
                Ok(d)
            } else {
                Ok(
                    Patched {
                        record: put(d.record, "proxy"@, p.value@),
                        changes: d.changes.push("代理 → "@ + proxy_words(p)),
                    },
                )
            },
        },
        None => Ok(d),
    }
}

/// A patch of a record of the queue `s`: name, number, whether it is enabled, and proxy, each
/// only where the patch has it.
pub open spec fn patched(
    f: Fields,
    patch: Fields,
    proxy: Result<ProxyPatch, AccountStoreError>,
    s: Seq<Fields>,
    band: PriorityBand,
) -> Result<Patched, Refusal> {
    match patch_name(Patched { record: f, changes: Seq::empty() }, patch) {
        Err(e) => Err(e),
        Ok(d1) => match patch_priority(d1, patch, s, band) {
            Err(e) => Err(e),
            Ok(d2) => patch_proxy(patch_enabled(d2, patch), patch, proxy),
        },
    }
}

/// A patch changes only the four fields that it may name.
pub proof fn patch_keeps_other_fields(
    f: Fields,
    patch: Fields,
    proxy: Result<ProxyPatch, AccountStoreError>,
    s: Seq<Fields>,
    band: PriorityBand,
    key: Seq<char>,
)
    requires
        patched(f, patch, proxy, s, band) is Ok,
        key != "name"@,
        key != "priority"@,
        key != "enabled"@,
        key != "proxy"@,
    ensures
        find(patched(f, patch, proxy, s, band)->Ok_0.record, key) == find(f, key),
{
    broadcast use find_of_put;

}

fn join_label(prefix: &str, label: &str) -> (out: String)
    ensures
        out@ == prefix@ + label@,
{
    concat(prefix, label)
}

/// [`proxy_words`].
pub fn proxy_label(p: &ProxyPatch) -> (out: String)
    ensures
        out@ == proxy_words(*p),
{
    if p.value.is_null() {
        "无代理（直连）".to_owned()
    } else {
        match &p.label {
            Some(s) => s.clone(),
            None => "已设置".to_owned(),
        }
    }
}

fn steps_name(record: &mut StoredAccount, changes: &mut Vec<String>, patch: &Object) -> (r: Result<
    (),
    AccountStoreError,
>)
    ensures
        match patch_name(
            Patched { record: old(record)@, changes: words(old(changes)@) },
            patch@,
        ) {
            Err(e) => r is Err && r->Err_0@ == e,
            Ok(d) => r is Ok && final(record)@ == d.record && words(final(changes)@) == d.changes,
        },
{
    if let Some(v) = patch.get("name") {
        let next = match v {
            JsonValue::Str(s) => truncate_chars(trim(s.as_str()).as_str(), 100),
            _ => String::new(),
        };
        assert(next@ =~= patched_name(v@));
        if !same(next.as_str(), record.name().as_str()) {
            if next.as_str().is_empty() {
                return Err(AccountStoreError::bad_request("备注名不能为空"));
            }
            record.set("name", JsonValue::text(next.as_str()));
            push_word(changes, join_label("备注名 → ", next.as_str()));
        }
    }
    Ok(())
}

fn steps_priority(
    record: &mut StoredAccount,
    changes: &mut Vec<String>,
    patch: &Object,
    accounts: &Vec<StoredAccount>,
    band: PriorityBand,
) -> (r: Result<(), AccountStoreError>)
    ensures
        match patch_priority(
            Patched { record: old(record)@, changes: words(old(changes)@) },
            patch@,
            records(accounts@),
            band,
        ) {
            Err(e) => r is Err && r->Err_0@ == e,
            Ok(d) => r is Ok && final(record)@ == d.record && words(final(changes)@) == d.changes,
        },
{
    if let Some(v) = patch.get("priority") {
        let current = record.priority(band);
        let next = normalize_priority(Some(v), current, band);
        if next != current {
            let entries = queue_entries(accounts, band);
            let id = record.id();
            if let Some(name) = find_priority_holder(&entries, next, Some(id.as_str())) {
                return Err(taken_error(next, name.as_str()));
            }
            record.set_priority(next);
            push_word(changes, join_label("优先级 → ", decimal_i64(next).as_str()));
        }
    }
    Ok(())
}

fn steps_enabled(record: &mut StoredAccount, changes: &mut Vec<String>, patch: &Object)
    ensures
        ({
            let d = patch_enabled(
                Patched { record: old(record)@, changes: words(old(changes)@) },
                patch@,
            );
            final(record)@ == d.record && words(final(changes)@) == d.changes
        }),
{
    if let Some(v) = patch.get("enabled") {
        let next = match v {
            JsonValue::Bool(false) => false,
            _ => true,
        };
        if next != record.enabled() {
            record.set_enabled(next);
            push_word(
                changes,
                if next {
                    "已启用".to_owned()
                } else {
                    "已禁用".to_owned()
                },
            );
        }
    }
}

fn steps_proxy(
    record: &mut StoredAccount,
    changes: &mut Vec<String>,
    patch: &Object,
    proxy: &Result<ProxyPatch, AccountStoreError>,
) -> (r: Result<(), AccountStoreError>)
    ensures
        match patch_proxy(
            Patched { record: old(record)@, changes: words(old(changes)@) },
            patch@,
            *proxy,
        ) {
            Err(e) => r is Err && r->Err_0@ == e,
            Ok(d) => r is Ok && final(record)@ == d.record && words(final(changes)@) == d.changes,
        },
{
    if patch.get("proxy").is_some() {
        match proxy {
            Err(e) => {
                return Err(AccountStoreError::new(e.message.as_str(), e.status_code));
            },
            Ok(p) => {
                let before = value_or_nullish(record.get("proxy"), JsonValue::Null);
                if !p.value.same(&before) {
                    record.set_proxy(p.value.dup());
                    push_word(changes, join_label("代理 → ", proxy_label(p).as_str()));
                }
            },
        }
    }
    Ok(())
}

/// [`patched`].
pub fn apply_patch(
    accounts: &Vec<StoredAccount>,
    index: usize,
    patch: &Object,
    proxy: &Result<ProxyPatch, AccountStoreError>,
    band: PriorityBand,
) -> (r: Result<(StoredAccount, Vec<String>), AccountStoreError>)
    requires
        index < accounts@.len(),
    ensures
        match patched(accounts@[index as int]@, patch@, *proxy, records(accounts@), band) {
            Err(e) => r is Err && r->Err_0@ == e,
            Ok(d) => r is Ok && r->Ok_0.0@ == d.record && words(r->Ok_0.1@) == d.changes,
        },
{
    let mut record = accounts[index].dup();
    let mut changes: Vec<String> = Vec::new();
    assert(words(changes@) =~= Seq::empty());
    match steps_name(&mut record, &mut changes, patch) {
        Err(e) => {
            return Err(e);
        },
        Ok(()) => {},
    }
    match steps_priority(&mut record, &mut changes, patch, accounts, band) {
        Err(e) => {
            return Err(e);
        },
        Ok(()) => {},
    }
    steps_enabled(&mut record, &mut changes, patch);
    match steps_proxy(&mut record, &mut changes, patch, proxy) {
        Err(e) => {
            return Err(e);
        },
        Ok(()) => {},
    }
    Ok((record, changes))
}

// ─── Moving ──────────────────────────────────────────────────

/// Where a record goes that is moved one place up or down from `at`.
pub open spec fn target_of(at: int, down: bool) -> int {
    if down {
        at + 1
    } else {
        at - 1
    }
}

/// Two neighbours of the queue exchange their numbers; the order of the file stays.
pub open spec fn swapped(s: Seq<Fields>, a: Fields, b: Fields, band: PriorityBand, now: i64) -> Seq<
    Fields,
> {
    let s1 = with_field(s, id_of(a), "priority"@, json_int(priority_of(b, band)));
    let s2 = with_field(s1, id_of(a), "updatedAt"@, json_int(now as int));
    let s3 = with_field(s2, id_of(b), "priority"@, json_int(priority_of(a, band)));
    with_field(s3, id_of(b), "updatedAt"@, json_int(now as int))
}

/// What a move did.
pub enum MoveOutcome {
    /// The account is at the end of the queue that it would move to.
    AtEnd { down: bool },
    /// The account and its neighbour exchanged numbers.
    Moved {
        id: String,
        new_priority: i64,
        other_id: String,
        other_name: String,
        other_priority: i64,
    },
}

proof fn lemma_put_priority(f: Fields, priority: int, band: PriorityBand, now: i64)
    requires
        band_holds(band, 0),
        band.lowest <= priority <= band.highest,
    ensures
        priority_of(
            put(put(f, "priority"@, json_int(priority)), "updatedAt"@, json_int(now as int)),
            band,
        ) == priority,
        id_of(put(put(f, "priority"@, json_int(priority)), "updatedAt"@, json_int(now as int)))
            == id_of(f),
{
    broadcast use find_of_put;

    crate::account_store::state::priority_reads_back(f, priority as i64, band);
    reveal_strlit("id");
    reveal_strlit("priority");
    reveal_strlit("updatedAt");
    assert("priority"@.len() == 8 && "updatedAt"@.len() == 9 && "id"@.len() == 2);
}

/// A move exchanges the numbers of the two accounts, and leaves those of all others, the ids and
/// the order of the file.
pub proof fn move_exchanges_priorities(
    s: Seq<Fields>,
    i: int,
    j: int,
    band: PriorityBand,
    now: i64,
)
    requires
        distinct_ids(s),
        band_holds(band, 0),
        0 <= i < s.len(),
        0 <= j < s.len(),
        i != j,
    ensures
        ({
            let r = swapped(s, s[i], s[j], band, now);
            &&& r.len() == s.len()
            &&& priority_of(r[i], band) == priority_of(s[j], band)
            &&& priority_of(r[j], band) == priority_of(s[i], band)
            &&& forall|k: int| 0 <= k < s.len() ==> id_of(#[trigger] r[k]) == id_of(s[k])
            &&& forall|k: int| 0 <= k < s.len() && k != i && k != j ==> #[trigger] r[k] == s[k]
        }),
{
    let a = s[i];
    let b = s[j];
    lemma_index_of_at(s, i);
    lemma_index_of_at(s, j);
    let pa = json_int(priority_of(b, band));
    let pb = json_int(priority_of(a, band));
    let t = json_int(now as int);
    reveal_strlit("id");
    reveal_strlit("priority");
    reveal_strlit("updatedAt");
    assert("priority"@.len() == 8 && "updatedAt"@.len() == 9 && "id"@.len() == 2);
    lemma_priority_in_band(a, band);
    lemma_priority_in_band(b, band);
    let s1 = with_field(s, id_of(a), "priority"@, pa);
    lemma_with_field_ids(s, id_of(a), "priority"@, pa);
    lemma_same_ids(s, s1);
    lemma_index_of_at(s1, i);
    let s2 = with_field(s1, id_of(a), "updatedAt"@, t);
    lemma_with_field_ids(s1, id_of(a), "updatedAt"@, t);
    lemma_same_ids(s1, s2);
    lemma_index_of_at(s2, j);
    let s3 = with_field(s2, id_of(b), "priority"@, pb);
    lemma_with_field_ids(s2, id_of(b), "priority"@, pb);
    lemma_same_ids(s2, s3);
    lemma_index_of_at(s3, j);
    let r = with_field(s3, id_of(b), "updatedAt"@, t);
    lemma_with_field_ids(s3, id_of(b), "updatedAt"@, t);
    lemma_put_priority(a, priority_of(b, band), band, now);
    lemma_put_priority(b, priority_of(a, band), band, now);
    assert(r[i] == put(put(a, "priority"@, pa), "updatedAt"@, t));
    assert(r[j] == put(put(b, "priority"@, pb), "updatedAt"@, t));
}

proof fn lemma_same_ids(s: Seq<Fields>, t: Seq<Fields>)
    requires
        distinct_ids(s),
        t.len() == s.len(),
        forall|i: int| 0 <= i < s.len() ==> id_of(#[trigger] t[i]) == id_of(s[i]),
    ensures
        distinct_ids(t),
{
    assert forall|i: int, j: int| 0 <= i < j < t.len() implies id_of(#[trigger] t[i]) != id_of(
        #[trigger] t[j],
    ) by {
        assert(id_of(s[i]) != id_of(s[j]));
    }
}

/// Distinct numbers stay distinct when two accounts exchange theirs.
pub proof fn move_keeps_priorities_distinct(
    s: Seq<Fields>,
    i: int,
    j: int,
    band: PriorityBand,
    now: i64,
)
    requires
        distinct_ids(s),
        distinct_priorities(s, band),
        band_holds(band, 0),
        0 <= i < s.len(),
        0 <= j < s.len(),
        i != j,
    ensures
        distinct_priorities(swapped(s, s[i], s[j], band, now), band),
{
    move_exchanges_priorities(s, i, j, band, now);
    let r = swapped(s, s[i], s[j], band, now);
    assert forall|a: int, b: int| 0 <= a < b < r.len() implies priority_of(#[trigger] r[a], band)
        != priority_of(#[trigger] r[b], band) by {
        let x = other_place(a, i, j);
        let y = other_place(b, i, j);
        assert(priority_of(r[a], band) == priority_of(s[x], band));
        assert(priority_of(r[b], band) == priority_of(s[y], band));
        if x < y {
            assert(priority_of(s[x], band) != priority_of(s[y], band));
        } else {
            assert(priority_of(s[y], band) != priority_of(s[x], band));
        }
    }
}

spec fn other_place(k: int, i: int, j: int) -> int {
    if k == i {
        j
    } else if k == j {
        i
    } else {
        k
    }
}

/// Moving an account and moving it back gives every account its number again.
pub proof fn move_and_back_restores(
    s: Seq<Fields>,
    i: int,
    j: int,
    band: PriorityBand,
    now: i64,
    later: i64,
)
    requires
        distinct_ids(s),
        band_holds(band, 0),
        0 <= i < s.len(),
        0 <= j < s.len(),
        i != j,
    ensures
        ({
            let once = swapped(s, s[i], s[j], band, now);
            let twice = swapped(once, once[i], once[j], band, later);
            &&& twice.len() == s.len()
            &&& forall|k: int|
                0 <= k < s.len() ==> priority_of(#[trigger] twice[k], band) == priority_of(
                    s[k],
                    band,
                ) && id_of(twice[k]) == id_of(s[k])
        }),
{
    move_exchanges_priorities(s, i, j, band, now);
    let once = swapped(s, s[i], s[j], band, now);
    lemma_same_ids(s, once);
    move_exchanges_priorities(once, i, j, band, later);
}

/// An accepted addition keeps the numbers of the queue distinct. Where the account is new and no
/// number was asked for, the end of the band must not be reached.
pub proof fn add_keeps_priorities_distinct(
    s: Seq<Fields>,
    payload: Json,
    name: Option<Seq<char>>,
    proxy: Result<JsonValue, AccountStoreError>,
    rules: RulesView,
    now: i64,
)
    requires
        distinct_priorities(s, rules.band),
        band_holds(rules.band, 0),
        add_refusal(s, payload, proxy, rules.band) is None,
        added_priority(s, payload->Obj_0, rules.band) <= rules.band.highest,
    ensures
        distinct_priorities(
            kept_others(s, payload->Obj_0).push(
                added_record(s, payload->Obj_0, name, proxy, rules, now),
            ),
            rules.band,
        ),
{
    broadcast use find_of_put;

    let p = payload->Obj_0;
    let band = rules.band;
    let others = kept_others(s, p);
    let saved = added_record(s, p, name, proxy, rules, now);
    let priority = added_priority(s, p, band);
    lemma_others_distinct(s, user_id(added_uid(p)), band);
    crate::account_store::priority::holder_is_none(
        entries_of(others, band),
        priority as i64,
        None,
    );
    if replaced(s, p) is Some {
        lemma_priority_in_band(replaced(s, p)->0, band);
    } else {
        if others.len() > 0 {
            let taken = priorities_of(others, band);
            crate::account_store::priority::free_behind_is_last(taken, band, 0);
            lemma_priority_in_band(others[0], band);
        }
    }
    assert(band.lowest <= priority <= band.highest);
    reveal_strlit("enabled");
    reveal_strlit("proxy");
    reveal_strlit("addedAt");
    reveal_strlit("updatedAt");
    reveal_strlit("priority");
    assert("priority"@.len() == 8 && "enabled"@.len() == 7 && "proxy"@.len() == 5 && "addedAt"@.len()
        == 7 && "updatedAt"@.len() == 9);
    assert(find(saved, "priority"@) == Some(json_int(priority)));
    crate::account_store::state::priority_reads_back(Seq::empty(), priority as i64, band);
    assert(priority_of(saved, band) == priority);
    let all = others.push(saved);
    assert forall|i: int, j: int| 0 <= i < j < all.len() implies priority_of(#[trigger] all[i], band)
        != priority_of(#[trigger] all[j], band) by {
        lemma_priority_in_band(all[i], band);
        if j == others.len() {
            let e = entries_of(others, band)[i];
            assert(!crate::account_store::priority::holds_priority(e, priority as i64, None));
            assert(e.priority == priority_of(others[i], band));
        } else {
            assert(priority_of(others[i], band) != priority_of(others[j], band));
        }
    }
}

pub proof fn lemma_others_distinct(s: Seq<Fields>, id: Seq<char>, band: PriorityBand)
    requires
        distinct_priorities(s, band),
    ensures
        distinct_priorities(others_than(s, id), band),
        forall|i: int|
            0 <= i < others_than(s, id).len() ==> s.contains(#[trigger] others_than(s, id)[i]),
    decreases s.len(),
{
    if s.len() > 0 {
        let short = s.drop_last();
        assert(distinct_priorities(short, band)) by {
            assert forall|i: int, j: int| 0 <= i < j < short.len() implies priority_of(
                #[trigger] short[i],
                band,
            ) != priority_of(#[trigger] short[j], band) by {
                assert(priority_of(s[i], band) != priority_of(s[j], band));
            }
        }
        lemma_others_distinct(short, id, band);
        let rest = others_than(short, id);
        let r = others_than(s, id);
        assert forall|i: int| 0 <= i < r.len() implies s.contains(#[trigger] r[i]) by {
            if i < rest.len() {
                assert(r[i] == rest[i]);
                let k = choose|k: int| 0 <= k < short.len() && #[trigger] short[k] == rest[i];
                assert(s[k] == short[k]);
            } else {
                assert(s[s.len() - 1] == r[i]);
            }
        }
        if id_of(s.last()) != id {
            assert forall|i: int, j: int| 0 <= i < j < r.len() implies priority_of(#[trigger] r[i], band)
                != priority_of(#[trigger] r[j], band) by {
                if j == rest.len() {
                    assert(r[i] == rest[i]);
                    let k = choose|k: int| 0 <= k < short.len() && #[trigger] short[k] == rest[i];
                    assert(s[k] == short[k]);
                    assert(priority_of(s[k], band) != priority_of(s[s.len() - 1], band));
                } else {
                    assert(r[i] == rest[i] && r[j] == rest[j]);
                }
            }
        }
    }
}

// ─── Batches ─────────────────────────────────────────────────

/// What a batch may change: whether accounts are enabled, and their proxy.
pub open spec fn batch_patch(patch: Fields, proxy: Result<ProxyPatch, AccountStoreError>) -> Fields {
    let first = match find(patch, "enabled"@) {
        Some(v) => seq![("enabled"@, Json::Bool(v != Json::Bool(false)))],
        None => Seq::<(Seq<char>, Json)>::empty(),
    };
    match find(patch, "proxy"@) {
        Some(_) => first.push(("proxy"@, proxy->Ok_0.value@)),
        None => first,
    }
}

/// Why a batch is refused as a whole, if it is.
pub open spec fn batch_refusal(
    ids: Seq<Seq<char>>,
    patch: Json,
    proxy: Result<ProxyPatch, AccountStoreError>,
) -> Option<Refusal> {
    if ids.len() == 0 {
        Some(refusal("缺少要操作的账号 id"@, 400))
    } else {
        match patch {
            Json::Obj(p) => if find(p, "proxy"@) is Some && proxy is Err {
                Some(proxy->Err_0@)
            } else if find(p, "proxy"@) is None && find(p, "enabled"@) is None {
                Some(refusal("批量修改目前只支持启用状态与代理"@, 400))
            } else {
                None
            },
            _ => Some(refusal("批量修改内容必须是 JSON 对象"@, 400)),
        }
    }
}

/// A batch on its way: the records, what was done, and what could not be done.
pub struct BatchView {
    pub accounts: Seq<Fields>,
    pub done: Seq<Json>,
    pub failed: Seq<Json>,
}

pub open spec fn missing_entry(id: Seq<char>) -> Json {
    Json::Obj(seq![("id"@, Json::Str(id)), ("error"@, Json::Str("账号不存在"@))])
}

/// Some texts as a JSON list.
pub open spec fn json_texts(v: Seq<Seq<char>>) -> Json {
    Json::Arr(v.map_values(|s: Seq<char>| Json::Str(s)))
}

pub open spec fn done_entry(id: Seq<char>, name: Seq<char>, changes: Seq<Seq<char>>) -> Json {
    Json::Obj(
        seq![("id"@, Json::Str(id)), ("name"@, Json::Str(name)), ("changes"@, json_texts(changes))],
    )
}

pub open spec fn failed_entry(id: Seq<char>, name: Seq<char>, error: Seq<char>) -> Json {
    Json::Obj(
        seq![("id"@, Json::Str(id)), ("name"@, Json::Str(name)), ("error"@, Json::Str(error))],
    )
}

/// One account of a batch. A record that changes is stamped with the time.
pub open spec fn batch_step(
    b: BatchView,
    id: Seq<char>,
    allowed: Fields,
    proxy: Result<ProxyPatch, AccountStoreError>,
    band: PriorityBand,
    now: i64,
) -> BatchView {
    let i = index_of(b.accounts, id);
    if i >= b.accounts.len() {
        BatchView { failed: b.failed.push(missing_entry(id)), ..b }
    } else {
        let f = b.accounts[i];
        match patched(f, allowed, proxy, b.accounts, band) {
            Ok(d) => BatchView {
                accounts: if d.changes.len() > 0 {
                    b.accounts.update(i, put(d.record, "updatedAt"@, json_int(now as int)))
                } else {
                    b.accounts.update(i, d.record)
                },
                done: b.done.push(done_entry(id, name_of(f), d.changes)),
                failed: b.failed,
            },
            Err(e) => BatchView {
                failed: b.failed.push(failed_entry(id, name_of(f), e.message)),
                ..b
            },
        }
    }
}

/// The accounts of a batch one after the other. One that fails does not stop the others.
pub open spec fn batch_run(
    s: Seq<Fields>,
    ids: Seq<Seq<char>>,
    allowed: Fields,
    proxy: Result<ProxyPatch, AccountStoreError>,
    band: PriorityBand,
    now: i64,
) -> BatchView
    decreases ids.len(),
{
    if ids.len() == 0 {
        BatchView { accounts: s, done: Seq::empty(), failed: Seq::empty() }
    } else {
        batch_step(
            batch_run(s, ids.drop_last(), allowed, proxy, band, now),
            ids.last(),
            allowed,
            proxy,
            band,
            now,
        )
    }
}

/// What a removal of several accounts reports: the accounts that were there, and those not.
pub open spec fn removal_report(s: Seq<Fields>, ids: Seq<Seq<char>>) -> (Seq<Json>, Seq<Json>)
    decreases ids.len(),
{
    if ids.len() == 0 {
        (Seq::empty(), Seq::empty())
    } else {
        let before = removal_report(s, ids.drop_last());
        let id = ids.last();
        let i = index_of(s, id);
        if i < s.len() {
            (
                before.0.push(
                    Json::Obj(seq![("id"@, Json::Str(id)), ("name"@, Json::Str(name_of(s[i])))]),
                ),
                before.1,
            )
        } else {
            (before.0, before.1.push(missing_entry(id)))
        }
    }
}

/// The records whose id is none of `ids`.
pub open spec fn none_of(s: Seq<Fields>, ids: Seq<Seq<char>>) -> Seq<Fields>
    decreases ids.len(),
{
    if ids.len() == 0 {
        s
    } else {
        others_than(none_of(s, ids.drop_last()), ids.last())
    }
}

/// After a removal no record has one of the ids.
pub proof fn removed_ids_are_gone(s: Seq<Fields>, ids: Seq<Seq<char>>, k: int, i: int)
    requires
        0 <= k < ids.len(),
        0 <= i < none_of(s, ids).len(),
    ensures
        id_of(none_of(s, ids)[i]) != ids[k],
    decreases ids.len(),
{
    let before = none_of(s, ids.drop_last());
    lemma_others_shorter(before, ids.last());
    if k < ids.len() - 1 {
        lemma_others_from(before, ids.last(), i);
        let j = choose|j: int| 0 <= j < before.len() && before[j] == none_of(s, ids)[i];
        removed_ids_are_gone(s, ids.drop_last(), k, j);
    }
}

proof fn lemma_others_from(s: Seq<Fields>, id: Seq<char>, i: int)
    requires
        0 <= i < others_than(s, id).len(),
    ensures
        s.contains(others_than(s, id)[i]),
    decreases s.len(),
{
    if s.len() > 0 {
        let short = s.drop_last();
        let r = others_than(s, id);
        if i < others_than(short, id).len() {
            lemma_others_from(short, id, i);
            let k = choose|k: int| 0 <= k < short.len() && short[k] == r[i];
            assert(s[k] == r[i]);
        } else {
            assert(s[s.len() - 1] == r[i]);
        }
    }
}

fn texts_value(v: &Vec<String>) -> (out: JsonValue)
    ensures
        out@ == json_texts(words(v@)),
{
    let mut items: Vec<JsonValue> = Vec::new();
    let ghost all = words(v@).map_values(|s: Seq<char>| Json::Str(s));
    assert(list_view(items) =~= all.take(0));
    for i in 0..v.len()
        invariant
            all == words(v@).map_values(|s: Seq<char>| Json::Str(s)),
            list_view(items) == all.take(i as int),
    {
        push_value(&mut items, JsonValue::text(v[i].as_str()));
        assert(list_view(items) =~= all.take(i + 1));
    }
    assert(all.take(all.len() as int) =~= all);
    JsonValue::Arr(items)
}

fn missing_value(id: &str) -> (out: JsonValue)
    ensures
        out@ == missing_entry(id@),
{
    let mut o = Object::new();
    o.push("id", JsonValue::text(id));
    o.push("error", JsonValue::text("账号不存在"));
    assert(o@ =~= missing_entry(id@)->Obj_0);
    JsonValue::Obj(o)
}

fn done_value(id: &str, name: &str, changes: &Vec<String>) -> (out: JsonValue)
    ensures
        out@ == done_entry(id@, name@, words(changes@)),
{
    let mut o = Object::new();
    o.push("id", JsonValue::text(id));
    o.push("name", JsonValue::text(name));
    o.push("changes", texts_value(changes));
    assert(o@ =~= done_entry(id@, name@, words(changes@))->Obj_0);
    JsonValue::Obj(o)
}

fn failed_value(id: &str, name: &str, error: &str) -> (out: JsonValue)
    ensures
        out@ == failed_entry(id@, name@, error@),
{
    let mut o = Object::new();
    o.push("id", JsonValue::text(id));
    o.push("name", JsonValue::text(name));
    o.push("error", JsonValue::text(error));
    assert(o@ =~= failed_entry(id@, name@, error@)->Obj_0);
    JsonValue::Obj(o)
}

/// What a batch did, account by account.
pub struct BatchOutcome {
    pub done: Vec<JsonValue>,
    pub failed: Vec<JsonValue>,
}

impl AccountStore {
    /// Removes an account.
    pub fn remove_account(&mut self, id: &str) -> (r: Result<(), AccountStoreError>)
        ensures
            final(self).rules == old(self).rules,
            final(self).state@.scope == old(self).state@.scope,
            if index_of(old(self).state@.accounts, id@) < old(self).state@.accounts.len() {
                r is Ok && final(self).state@.accounts == others_than(
                    old(self).state@.accounts,
                    id@,
                )
            } else {
                r is Err && r->Err_0@ == refusal("账号不存在"@, 404) && final(self).state == old(
                    self,
                ).state
            },
    {
        let kept = all_but(&self.state.accounts, id);
        proof {
            index_of_is_first(self.state@.accounts, id@);
            lemma_others_shorter(self.state@.accounts, id@);
            assert(records(kept@).len() == kept@.len());
        }
        if kept.len() == self.state.accounts.len() {
            return Err(AccountStoreError::not_found("账号不存在"));
        }
        self.state.accounts = kept;
        Ok(())
    }

    /// Makes an account the first of the queue, and enables it. A record that changes is stamped
    /// with the time.
    pub fn promote_to_front(&mut self, id: &str, now: i64) -> (r: Result<
        Promotion,
        AccountStoreError,
    >)
        requires
            old(self).rules.band.lowest + old(self).state.accounts@.len() <= i64::MAX,
        ensures
            final(self).rules == old(self).rules,
            final(self).state@.scope == old(self).state@.scope,
            ({
                let s = old(self).state@.accounts;
                let band = old(self).rules@.band;
                if index_of(s, id@) < s.len() {
                    &&& r is Ok
                    &&& words(r->Ok_0.changes@) == promotion_changes(s, id@, band)
                    &&& final(self).state@.accounts == if r->Ok_0.changes@.len() == 0 {
                        s
                    } else {
                        with_field(
                            promoted(s, id@, band),
                            id@,
                            "updatedAt"@,
                            json_int(now as int),
                        )
                    }
                } else {
                    r is Err && r->Err_0@ == refusal("账号不存在"@, 404) && final(self).state == old(
                        self,
                    ).state
                }
            }),
    {
        let ghost s = self.state@.accounts;
        let band = self.rules.band;
        proof {
            index_of_is_first(s, id@);
            lemma_ordered_has(s, id@, band);
            index_of_is_first(ordered(s, band), id@);
        }
        if find_index(&self.state.accounts, id) >= self.state.accounts.len() {
            return Err(AccountStoreError::not_found("账号不存在"));
        }
        let mut queue = in_order(&self.state.accounts, band);
        let mut changes: Vec<String> = Vec::new();
        assert(words(changes@) =~= Seq::empty());
        let at = find_index(&queue, id);
        assert(records(queue@)[at as int] == queue@[at as int]@);
        if !queue[at].enabled() {
            set_field(&mut queue, id, "enabled", JsonValue::Bool(true));
            push_word(&mut changes, "已启用".to_owned());
            assert(words(changes@) =~= seq!["已启用"@]);
        }
        let ghost o = enabled_in_queue(s, id@, band);
        assert(records(queue@) == o);
        proof {
            index_of_is_first(o, id@);
            if !enabled_of(ordered(s, band)[at as int]) {
                reveal_strlit("enabled");
                reveal_strlit("id");
                assert("enabled"@.len() != "id"@.len());
                lemma_with_field_ids(ordered(s, band), id@, "enabled"@, Json::Bool(true));
                assert(id_of(o[at as int]) == id@);
            }
        }
        let at = find_index(&queue, id);
        assert(at < queue@.len());
        if at > 0 {
            let record = queue.remove(at);
            queue.insert(0, record);
            assert(records(queue@) =~= moved_front(o, at as int));
            let _changed = renumber(&mut queue, band);
            assert(records(queue@) == promoted(s, id@, band));
            assert(records(queue@)[0] == queue@[0]@);
            let message = concat3(
                "优先级 → ",
                decimal_i64(queue[0].priority(band)).as_str(),
                "（置顶）",
            );
            push_word(&mut changes, message);
        }
        assert(records(queue@) == promoted(s, id@, band));
        if changes.len() > 0 {
            set_field(&mut queue, id, "updatedAt", JsonValue::integer(now));
            self.state.accounts = queue;
        }
        Ok(Promotion { changes })
    }

    /// Changes name, number, proxy or whether an account is enabled. The record that is returned
    /// is the changed one before it is stamped with the time.
    pub fn update_account(
        &mut self,
        id: &str,
        patch: &JsonValue,
        proxy: &Result<ProxyPatch, AccountStoreError>,
        now: i64,
    ) -> (r: Result<(StoredAccount, Vec<String>), AccountStoreError>)
        ensures
            final(self).rules == old(self).rules,
            final(self).state@.scope == old(self).state@.scope,
            ({
                let s = old(self).state@.accounts;
                let i = index_of(s, id@);
                match patch@ {
                    Json::Obj(p) => if i >= s.len() {
                        r is Err && r->Err_0@ == refusal("账号不存在"@, 404) && final(self).state
                            == old(self).state
                    } else {
                        match patched(s[i], p, *proxy, s, old(self).rules@.band) {
                            Err(e) => r is Err && r->Err_0@ == e && final(self).state == old(
                                self,
                            ).state,
                            Ok(d) => {
                                &&& r is Ok
                                &&& r->Ok_0.0@ == d.record
                                &&& words(r->Ok_0.1@) == d.changes
                                &&& final(self).state@.accounts == if d.changes.len() == 0 {
                                    s
                                } else {
                                    s.update(i, put(d.record, "updatedAt"@, json_int(now as int)))
                                }
                            },
                        }
                    },
                    _ => r is Err && r->Err_0@ == refusal("请求内容必须是 JSON 对象"@, 400)
                        && final(self).state == old(self).state,
                }
            }),
    {
        let ghost s = self.state@.accounts;
        let p = match patch {
            JsonValue::Obj(p) => p,
            _ => {
                return Err(AccountStoreError::bad_request("请求内容必须是 JSON 对象"));
            },
        };
        let index = find_index(&self.state.accounts, id);
        if index >= self.state.accounts.len() {
            return Err(AccountStoreError::not_found("账号不存在"));
        }
        assert(s[index as int] == self.state.accounts@[index as int]@);
        let (record, changes) = match apply_patch(
            &self.state.accounts,
            index,
            p,
            proxy,
            self.rules.band,
        ) {
            Ok(done) => done,
            Err(e) => {
                return Err(e);
            },
        };
        if changes.len() > 0 {
            let ghost before = self.state.accounts@;
            let mut stamped = record.dup();
            stamped.set_updated_at(now);
            self.state.accounts.set(index, stamped);
            assert(records(self.state.accounts@) =~= records(before).update(
                index as int,
                stamped@,
            ));
        }
        assert(words(changes@).len() == changes@.len());
        Ok((record, changes))
    }

    /// Moves an account one place up or down the queue.
    pub fn move_account(&mut self, id: &str, direction: &str, now: i64) -> (r: Result<
        MoveOutcome,
        AccountStoreError,
    >)
        ensures
            final(self).rules == old(self).rules,
            final(self).state@.scope == old(self).state@.scope,
            ({
                let s = old(self).state@.accounts;
                let band = old(self).rules@.band;
                let o = ordered(s, band);
                let at = index_of(o, id@);
                let down = direction@ == "down"@;
                let to = target_of(at, down);
                if index_of(s, id@) >= s.len() {
                    r is Err && r->Err_0@ == refusal("账号不存在"@, 404) && final(self).state == old(
                        self,
                    ).state
                } else if to < 0 || to >= s.len() {
                    r is Ok && r->Ok_0 == (MoveOutcome::AtEnd { down }) && final(self).state == old(
                        self,
                    ).state
                } else {
                    &&& final(self).state@.accounts == swapped(s, o[at], o[to], band, now)
                    &&& r is Ok
                    &&& r->Ok_0 is Moved
                    &&& r->Ok_0->Moved_id@ == id@
                    &&& r->Ok_0->new_priority == priority_of(o[to], band)
                    &&& r->Ok_0->other_id@ == id_of(o[to])
                    &&& r->Ok_0->other_name@ == name_of(o[to])
                    &&& r->Ok_0->other_priority == priority_of(o[at], band)
                }
            }),
    {
        let ghost s = self.state@.accounts;
        let band = self.rules.band;
        proof {
            index_of_is_first(s, id@);
            lemma_ordered_has(s, id@, band);
            index_of_is_first(ordered(s, band), id@);
        }
        if find_index(&self.state.accounts, id) >= self.state.accounts.len() {
            return Err(AccountStoreError::not_found("账号不存在"));
        }
        let queue = in_order(&self.state.accounts, band);
        let at = find_index(&queue, id);
        let down = same(direction, "down");
        if (down && at + 1 >= queue.len()) || (!down && at == 0) {
            return Ok(MoveOutcome::AtEnd { down });
        }
        let to: usize = if down { at + 1 } else { at - 1 };
        let ghost o = ordered(s, band);
        assert(o[at as int] == queue@[at as int]@);
        assert(o[to as int] == queue@[to as int]@);
        let mine = queue[at].priority(band);
        let theirs = queue[to].priority(band);
        let mine_id = queue[at].id();
        let other_id = queue[to].id();
        set_field(
            &mut self.state.accounts,
            mine_id.as_str(),
            "priority",
            JsonValue::integer(theirs),
        );
        set_field(
            &mut self.state.accounts,
            mine_id.as_str(),
            "updatedAt",
            JsonValue::integer(now),
        );
        set_field(
            &mut self.state.accounts,
            other_id.as_str(),
            "priority",
            JsonValue::integer(mine),
        );
        set_field(
            &mut self.state.accounts,
            other_id.as_str(),
            "updatedAt",
            JsonValue::integer(now),
        );
        Ok(
            MoveOutcome::Moved {
                id: id.to_owned(),
                new_priority: theirs,
                other_id,
                other_name: queue[to].name(),
                other_priority: mine,
            },
        )
    }

    /// Enables, disables or sets the proxy of several accounts.
    pub fn batch_update(
        &mut self,
        ids: &Vec<String>,
        patch: &JsonValue,
        proxy: &Result<ProxyPatch, AccountStoreError>,
        now: i64,
    ) -> (r: Result<BatchOutcome, AccountStoreError>)
        ensures
            final(self).rules == old(self).rules,
            final(self).state@.scope == old(self).state@.scope,
            match batch_refusal(words(ids@), patch@, *proxy) {
                Some(e) => r is Err && r->Err_0@ == e && final(self).state == old(self).state,
                None => {
                    let b = batch_run(
                        old(self).state@.accounts,
                        words(ids@),
                        batch_patch(patch@->Obj_0, *proxy),
                        *proxy,
                        old(self).rules@.band,
                        now,
                    );
                    &&& r is Ok
                    &&& list_view(r->Ok_0.done) == b.done
                    &&& list_view(r->Ok_0.failed) == b.failed
                    &&& final(self).state@.accounts == b.accounts
                },
            },
    {
        if ids.len() == 0 {
            return Err(AccountStoreError::bad_request("缺少要操作的账号 id"));
        }
        let p = match patch {
            JsonValue::Obj(p) => p,
            _ => {
                return Err(AccountStoreError::bad_request("批量修改内容必须是 JSON 对象"));
            },
        };
        let mut allowed = Object::new();
        if let Some(v) = p.get("enabled") {
            let on = match v {
                JsonValue::Bool(false) => false,
                _ => true,
            };
            allowed.push("enabled", JsonValue::Bool(on));
        }
        if p.get("proxy").is_some() {
            match proxy {
                Ok(given) => {
                    allowed.push("proxy", given.value.dup());
                },
                Err(e) => {
                    return Err(AccountStoreError::new(e.message.as_str(), e.status_code));
                },
            }
        }
        assert(allowed@ =~= batch_patch(patch@->Obj_0, *proxy));
        if allowed.len() == 0 {
            return Err(AccountStoreError::bad_request("批量修改目前只支持启用状态与代理"));
        }
        let ghost s = self.state@.accounts;
        let band = self.rules.band;
        let ghost all = words(ids@);
        let mut accounts = dup_accounts(&self.state.accounts);
        let mut done: Vec<JsonValue> = Vec::new();
        let mut failed: Vec<JsonValue> = Vec::new();
        assert(records(accounts@) =~= s);
        assert(list_view(done) =~= Seq::empty());
        assert(list_view(failed) =~= Seq::empty());
        assert(all.take(0) =~= Seq::empty());
        for n in 0..ids.len()
            invariant
                all == words(ids@),
                ({
                    let b = batch_run(s, all.take(n as int), allowed@, *proxy, band, now);
                    &&& records(accounts@) == b.accounts
                    &&& list_view(done) == b.done
                    &&& list_view(failed) == b.failed
                }),
        {
            assert(all.take(n + 1).drop_last() =~= all.take(n as int));
            assert(all.take(n + 1).last() == ids@[n as int]@);
            let id = ids[n].as_str();
            let at = find_index(&accounts, id);
            if at >= accounts.len() {
                push_value(&mut failed, missing_value(id));
            } else {
                let ghost before = accounts@;
                assert(records(before)[at as int] == accounts@[at as int]@);
                let name = accounts[at].name();
                match apply_patch(&accounts, at, &allowed, proxy, band) {
                    Ok((record, changes)) => {
                        let mut changed = record;
                        assert(words(changes@).len() == changes@.len());
                        if changes.len() > 0 {
                            changed.set_updated_at(now);
                        }
                        let ghost next = changed@;
                        accounts.set(at, changed);
                        assert(records(accounts@) =~= records(before).update(at as int, next));
                        push_value(&mut done, done_value(id, name.as_str(), &changes));
                    },
                    Err(e) => {
                        push_value(&mut failed, failed_value(id, name.as_str(), e.message.as_str()));
                    },
                }
            }
        }
        assert(all.take(all.len() as int) =~= all);
        self.state.accounts = accounts;
        Ok(BatchOutcome { done, failed })
    }

    /// Removes several accounts. Those that are not there are reported and change nothing.
    pub fn batch_remove(&mut self, ids: &Vec<String>) -> (r: Result<BatchOutcome, AccountStoreError>)
        ensures
            final(self).rules == old(self).rules,
            final(self).state@.scope == old(self).state@.scope,
            ({
                let s = old(self).state@.accounts;
                let all = words(ids@);
                if all.len() == 0 {
                    r is Err && r->Err_0@ == refusal("缺少要删除的账号 id"@, 400) && final(self).state
                        == old(self).state
                } else {
                    &&& r is Ok
                    &&& list_view(r->Ok_0.done) == removal_report(s, all).0
                    &&& list_view(r->Ok_0.failed) == removal_report(s, all).1
                    &&& final(self).state@.accounts == none_of(s, all)
                }
            }),
    {
        if ids.len() == 0 {
            return Err(AccountStoreError::bad_request("缺少要删除的账号 id"));
        }
        let ghost s = self.state@.accounts;
        let ghost all = words(ids@);
        let mut done: Vec<JsonValue> = Vec::new();
        let mut failed: Vec<JsonValue> = Vec::new();
        let mut kept = dup_accounts(&self.state.accounts);
        assert(records(kept@) =~= s);
        assert(list_view(done) =~= Seq::empty());
        assert(list_view(failed) =~= Seq::empty());
        assert(all.take(0) =~= Seq::empty());
        for n in 0..ids.len()
            invariant
                all == words(ids@),
                s == self.state@.accounts,
                list_view(done) == removal_report(s, all.take(n as int)).0,
                list_view(failed) == removal_report(s, all.take(n as int)).1,
                records(kept@) == none_of(s, all.take(n as int)),
        {
            assert(all.take(n + 1).drop_last() =~= all.take(n as int));
            assert(all.take(n + 1).last() == ids@[n as int]@);
            let id = ids[n].as_str();
            let at = find_index(&self.state.accounts, id);
            if at < self.state.accounts.len() {
                assert(s[at as int] == self.state.accounts@[at as int]@);
                let mut o = Object::new();
                o.push("id", JsonValue::text(id));
                o.push("name", JsonValue::Str(self.state.accounts[at].name()));
                assert(o@ =~= seq![
                    ("id"@, Json::Str(id@)),
                    ("name"@, Json::Str(name_of(s[at as int]))),
                ]);
                push_value(&mut done, JsonValue::Obj(o));
            } else {
                push_value(&mut failed, missing_value(id));
            }
            kept = all_but(&kept, id);
        }
        assert(all.take(all.len() as int) =~= all);
        self.state.accounts = kept;
        Ok(BatchOutcome { done, failed })
    }
}

// ─── Answers ─────────────────────────────────────────────────

/// The answer to a promotion, with the listing after it.
pub open spec fn promotion_answer(
    id: Seq<char>,
    changes: Seq<Seq<char>>,
    s: Seq<Fields>,
    shaped: Seq<Json>,
    rules: RulesView,
) -> Json {
    let current = json_id_at(s, current_of(s, rules));
    let list = listing(s, shaped, rules);
    if changes.len() == 0 {
        Json::Obj(
            seq![
                ("id"@, Json::Str(id)),
                ("changed"@, Json::Bool(false)),
                ("reason"@, Json::Str("已是当前账号"@)),
                ("currentAccountId"@, current),
                ("list"@, list),
            ],
        )
    } else {
        Json::Obj(
            seq![
                ("id"@, Json::Str(id)),
                ("changed"@, Json::Bool(true)),
                ("changes"@, json_texts(changes)),
                ("currentAccountId"@, current),
                ("list"@, list),
            ],
        )
    }
}

/// The answer to a move, with the listing after it.
pub open spec fn move_answer(outcome: MoveOutcome, list: Json) -> Json {
    match outcome {
        MoveOutcome::AtEnd { down } => Json::Obj(
            seq![
                ("moved"@, Json::Bool(false)),
                (
                    "reason"@,
                    Json::Str(
                        if down {
                            "已是最后一位"@
                        } else {
                            "已是第一位"@
                        },
                    ),
                ),
                ("list"@, list),
            ],
        ),
        MoveOutcome::Moved { id, new_priority, other_id, other_name, other_priority } => Json::Obj(
            seq![
                ("moved"@, Json::Bool(true)),
                ("id"@, Json::Str(id@)),
                ("newPriority"@, json_int(new_priority as int)),
                (
                    "swappedWith"@,
                    Json::Obj(
                        seq![
                            ("id"@, Json::Str(other_id@)),
                            ("name"@, Json::Str(other_name@)),
                            ("newPriority"@, json_int(other_priority as int)),
                        ],
                    ),
                ),
                ("list"@, list),
            ],
        ),
    }
}

/// The answer to a batch, with the listing after it.
pub open spec fn batch_answer(outcome: BatchOutcome, done_key: Seq<char>, list: Json) -> Json {
    Json::Obj(
        seq![
            (done_key, Json::Arr(list_view(outcome.done))),
            ("failed"@, Json::Arr(list_view(outcome.failed))),
            ("list"@, list),
        ],
    )
}

impl AccountStore {
    /// [`promotion_answer`].
    pub fn promotion_reply(&self, id: &str, promotion: &Promotion, shaped: &Vec<JsonValue>) -> (out:
        JsonValue)
        requires
            shaped@.len() == self.state.accounts@.len(),
        ensures
            out@ == promotion_answer(
                id@,
                words(promotion.changes@),
                self.state@.accounts,
                list_view(*shaped),
                self.rules@,
            ),
    {
        let current = match self.current_account_id() {
            Some(s) => JsonValue::Str(s),
            None => JsonValue::Null,
        };
        let list = self.snapshot(shaped);
        let mut o = Object::new();
        o.push("id", JsonValue::text(id));
        assert(words(promotion.changes@).len() == promotion.changes@.len());
        if promotion.changes.len() == 0 {
            o.push("changed", JsonValue::Bool(false));
            o.push("reason", JsonValue::text("已是当前账号"));
        } else {
            o.push("changed", JsonValue::Bool(true));
            o.push("changes", texts_value(&promotion.changes));
        }
        o.push("currentAccountId", current);
        o.push("list", list);
        assert(o@ =~= promotion_answer(
            id@,
            words(promotion.changes@),
            self.state@.accounts,
            list_view(*shaped),
            self.rules@,
        )->Obj_0);
        JsonValue::Obj(o)
    }

    /// [`move_answer`].
    pub fn move_reply(&self, outcome: &MoveOutcome, shaped: &Vec<JsonValue>) -> (out: JsonValue)
        requires
            shaped@.len() == self.state.accounts@.len(),
        ensures
            out@ == move_answer(
                *outcome,
                listing(self.state@.accounts, list_view(*shaped), self.rules@),
            ),
    {
        let list = self.snapshot(shaped);
        let ghost list_json = list@;
        let mut o = Object::new();
        match outcome {
            MoveOutcome::AtEnd { down } => {
                o.push("moved", JsonValue::Bool(false));
                o.push(
                    "reason",
                    JsonValue::text(
                        if *down {
                            "已是最后一位"
                        } else {
                            "已是第一位"
                        },
                    ),
                );
                o.push("list", list);
            },
            MoveOutcome::Moved { id, new_priority, other_id, other_name, other_priority } => {
                let mut other = Object::new();
                other.push("id", JsonValue::text(other_id.as_str()));
                other.push("name", JsonValue::text(other_name.as_str()));
                other.push("newPriority", JsonValue::integer(*other_priority));
                assert(other@ =~= seq![
                    ("id"@, Json::Str(other_id@)),
                    ("name"@, Json::Str(other_name@)),
                    ("newPriority"@, json_int(*other_priority as int)),
                ]);
                o.push("moved", JsonValue::Bool(true));
                o.push("id", JsonValue::text(id.as_str()));
                o.push("newPriority", JsonValue::integer(*new_priority));
                o.push("swappedWith", JsonValue::Obj(other));
                o.push("list", list);
            },
        }
        assert(o@ =~= move_answer(*outcome, list_json)->Obj_0);
        JsonValue::Obj(o)
    }

    /// [`batch_answer`] of an update.
    pub fn update_reply(&self, outcome: BatchOutcome, shaped: &Vec<JsonValue>) -> (out: JsonValue)
        requires
            shaped@.len() == self.state.accounts@.len(),
        ensures
            out@ == batch_answer(
                outcome,
                "ok"@,
                listing(self.state@.accounts, list_view(*shaped), self.rules@),
            ),
    {
        self.batch_reply(outcome, "ok", shaped)
    }

    /// [`batch_answer`] of a removal.
    pub fn removal_reply(&self, outcome: BatchOutcome, shaped: &Vec<JsonValue>) -> (out: JsonValue)
        requires
            shaped@.len() == self.state.accounts@.len(),
        ensures
            out@ == batch_answer(
                outcome,
                "removed"@,
                listing(self.state@.accounts, list_view(*shaped), self.rules@),
            ),
    {
        self.batch_reply(outcome, "removed", shaped)
    }

    fn batch_reply(&self, outcome: BatchOutcome, done_key: &str, shaped: &Vec<JsonValue>) -> (out:
        JsonValue)
        requires
            shaped@.len() == self.state.accounts@.len(),
        ensures
            out@ == batch_answer(
                outcome,
                done_key@,
                listing(self.state@.accounts, list_view(*shaped), self.rules@),
            ),
    {
        let list = self.snapshot(shaped);
        let ghost answer = batch_answer(outcome, done_key@, list@);
        let mut o = Object::new();
        o.push(done_key, JsonValue::Arr(outcome.done));
        o.push("failed", JsonValue::Arr(outcome.failed));
        o.push("list", list);
        assert(o@ =~= answer->Obj_0);
        JsonValue::Obj(o)
    }
}

} // verus!
