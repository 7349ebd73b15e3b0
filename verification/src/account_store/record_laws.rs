//! What the records of the accounts hold after each operation.
use vstd::prelude::*;
use crate::account_store::priority::PriorityBand;
use crate::account_store::state::{added_at_of, id_of, name_of, priority_of};
use crate::account_store::store::{
    public_fields, session_account, session_auth, session_of, AccountStoreError, LiveCredentials,
    ProxyResolution, RulesView,
};
use crate::account_store::store_admin::{limit_entry, refreshed_record};
use crate::account_store::store_crud::{
    added_access, added_record, added_refresh, added_uid, patched, replaced, ProxyPatch,
};
use crate::js::{first_filled, plain_number};
use crate::json::{
    find, find_of_put, json_int, lemma_find_at, lemma_find_none, text_or_empty, Fields, Json,
    JsonValue,
};
use crate::number::{int_number, number_positive, EXACT_BELOW, NumberView};
use crate::text::trimmed;

verus! {

pub proof fn lemma_record_keys()
    ensures
        "id"@.len() == 2,
        "name"@.len() == 4,
        "uid"@.len() == 3,
        "nickname"@.len() == 8,
        "type"@.len() == 4,
        "enterpriseId"@.len() == 12,
        "enterpriseName"@.len() == 14,
        "accessToken"@.len() == 11,
        "refreshToken"@.len() == 12,
        "tokenTail"@.len() == 9,
        "expiresAt"@.len() == 9,
        "refreshExpiresAt"@.len() == 16,
        "domain"@.len() == 6,
        "edition"@.len() == 7,
        "prefixPath"@.len() == 10,
        "endpoint"@.len() == 8,
        "platform"@.len() == 8,
        "priority"@.len() == 8,
        "enabled"@.len() == 7,
        "proxy"@.len() == 5,
        "addedAt"@.len() == 7,
        "updatedAt"@.len() == 9,
        "rateLimits"@.len() == 10,
        "provider"@.len() == 8,
        "available"@.len() == 9,
        "hasRefreshToken"@.len() == 15,
        "editionLabel"@.len() == 12,
        "name"@ != "type"@,
        "nickname"@ != "endpoint"@,
        "nickname"@ != "platform"@,
        "nickname"@ != "priority"@,
        "nickname"@ != "provider"@,
        "enterpriseId"@ != "refreshToken"@,
        "enterpriseId"@ != "editionLabel"@,
        "refreshToken"@ != "editionLabel"@,
        "tokenTail"@ != "expiresAt"@,
        "tokenTail"@ != "updatedAt"@,
        "tokenTail"@ != "available"@,
        "expiresAt"@ != "updatedAt"@,
        "expiresAt"@ != "available"@,
        "edition"@ != "enabled"@,
        "edition"@ != "addedAt"@,
        "prefixPath"@ != "rateLimits"@,
        "endpoint"@ != "platform"@,
        "endpoint"@ != "priority"@,
        "endpoint"@ != "provider"@,
        "platform"@ != "priority"@,
        "platform"@ != "provider"@,
        "priority"@ != "provider"@,
        "enabled"@ != "addedAt"@,
        "updatedAt"@ != "available"@,
{
    reveal_strlit("id");
    reveal_strlit("name");
    reveal_strlit("uid");
    reveal_strlit("nickname");
    reveal_strlit("type");
    reveal_strlit("enterpriseId");
    reveal_strlit("enterpriseName");
    reveal_strlit("accessToken");
    reveal_strlit("refreshToken");
    reveal_strlit("tokenTail");
    reveal_strlit("expiresAt");
    reveal_strlit("refreshExpiresAt");
    reveal_strlit("domain");
    reveal_strlit("edition");
    reveal_strlit("prefixPath");
    reveal_strlit("endpoint");
    reveal_strlit("platform");
    reveal_strlit("priority");
    reveal_strlit("enabled");
    reveal_strlit("proxy");
    reveal_strlit("addedAt");
    reveal_strlit("updatedAt");
    reveal_strlit("rateLimits");
    reveal_strlit("provider");
    reveal_strlit("available");
    reveal_strlit("hasRefreshToken");
    reveal_strlit("editionLabel");
    assert("name"@[0] != "type"@[0]);
    assert("nickname"@[0] != "endpoint"@[0]);
    assert("nickname"@[0] != "platform"@[0]);
    assert("nickname"@[0] != "priority"@[0]);
    assert("nickname"@[0] != "provider"@[0]);
    assert("enterpriseId"@[0] != "refreshToken"@[0]);
    assert("enterpriseId"@[1] != "editionLabel"@[1]);
    assert("refreshToken"@[0] != "editionLabel"@[0]);
    assert("tokenTail"@[0] != "expiresAt"@[0]);
    assert("tokenTail"@[0] != "updatedAt"@[0]);
    assert("tokenTail"@[0] != "available"@[0]);
    assert("expiresAt"@[0] != "updatedAt"@[0]);
    assert("expiresAt"@[0] != "available"@[0]);
    assert("edition"@[1] != "enabled"@[1]);
    assert("edition"@[0] != "addedAt"@[0]);
    assert("prefixPath"@[0] != "rateLimits"@[0]);
    assert("endpoint"@[0] != "platform"@[0]);
    assert("endpoint"@[0] != "priority"@[0]);
    assert("endpoint"@[0] != "provider"@[0]);
    assert("platform"@[1] != "priority"@[1]);
    assert("platform"@[1] != "provider"@[1]);
    assert("priority"@[2] != "provider"@[2]);
    assert("enabled"@[0] != "addedAt"@[0]);
    assert("updatedAt"@[0] != "available"@[0]);
}

/// A text that is not empty stands under a key.
pub open spec fn says(o: Fields, key: Seq<char>) -> bool {
    find(o, key) is Some && find(o, key)->0 is Str && text_or_empty(find(o, key)).len() > 0
}

/// A time in milliseconds stands under a key.
pub open spec fn says_time(o: Fields, key: Seq<char>) -> bool {
    exists|t: int| 0 < t < EXACT_BELOW && find(o, key) == Some(#[trigger] json_int(t))
}

// ─── Renewed tokens ──────────────────────────────────────────

/// The text is the end of another, at most four characters of it.
pub open spec fn short_end(text: Seq<char>, whole: Seq<char>) -> bool {
    &&& text.len() <= 4
    &&& text.len() <= whole.len()
    &&& text == whole.subrange(whole.len() - text.len(), whole.len() as int)
    &&& whole.len() >= 4 ==> text.len() == 4
    &&& whole.len() < 4 ==> text == whole
}

/// After a renewal the record holds each token and each time that was given, and its former one
/// where none was given. Nothing else changes but the end of the token that is shown and the
/// time of the change.
pub proof fn tokens_are_renewed(
    f: Fields,
    access: Option<Seq<char>>,
    refresh: Option<Seq<char>>,
    expires_at: Option<NumberView>,
    refresh_expires_at: Option<NumberView>,
    now: i64,
    other: Seq<char>,
)
    requires
        other != "accessToken"@ && other != "refreshToken"@ && other != "expiresAt"@ && other
            != "refreshExpiresAt"@ && other != "tokenTail"@ && other != "updatedAt"@,
    ensures
        ({
            let r = refreshed_record(f, access, refresh, expires_at, refresh_expires_at, now);
            &&& access is Some && access->0.len() > 0 ==> {
                &&& find(r, "accessToken"@) == Some(Json::Str(access->0))
                &&& find(r, "tokenTail"@) matches Some(Json::Str(end)) && short_end(end, access->0)
            }
            &&& !(access is Some && access->0.len() > 0) ==> find(r, "accessToken"@) == find(
                f,
                "accessToken"@,
            ) && find(r, "tokenTail"@) == find(f, "tokenTail"@)
            &&& refresh is Some && refresh->0.len() > 0 ==> find(r, "refreshToken"@) == Some(
                Json::Str(refresh->0),
            )
            &&& !(refresh is Some && refresh->0.len() > 0) ==> find(r, "refreshToken"@) == find(
                f,
                "refreshToken"@,
            )
            &&& expires_at is Some && number_positive(expires_at->0) ==> find(r, "expiresAt"@) == Some(
                plain_number(expires_at->0),
            )
            &&& !(expires_at is Some && number_positive(expires_at->0)) ==> find(r, "expiresAt"@)
                == find(f, "expiresAt"@)
            &&& refresh_expires_at is Some && number_positive(refresh_expires_at->0) ==> find(
                r,
                "refreshExpiresAt"@,
            ) == Some(plain_number(refresh_expires_at->0))
            &&& !(refresh_expires_at is Some && number_positive(refresh_expires_at->0)) ==> find(
                r,
                "refreshExpiresAt"@,
            ) == find(f, "refreshExpiresAt"@)
            &&& find(r, "updatedAt"@) == Some(json_int(now as int))
            &&& find(r, other) == find(f, other)
        }),
{
    broadcast use find_of_put;

    lemma_record_keys();
    if let Some(t) = access {
        if t.len() > 0 {
            let end = crate::text::tail(t, 4);
            assert(end =~= t.subrange(t.len() - end.len(), t.len() as int));
        }
    }
}

/// A time in milliseconds is kept to the digit.
pub proof fn times_are_kept(t: int)
    requires
        0 < t < EXACT_BELOW,
    ensures
        number_positive(int_number(t)),
        plain_number(int_number(t)) == json_int(t),
{
}

// ─── A new account ───────────────────────────────────────────

/// The first key of a list under which there is a filled text.
proof fn lemma_first_filled(o: Fields, keys: Seq<Seq<char>>, text: Seq<char>)
    requires
        keys.len() > 0,
        find(o, keys[0]) == Some(Json::Str(text)),
        text.len() > 0,
    ensures
        first_filled(o, keys) == Some(text),
{
}

/// A session that is added is kept as it came: its tokens, its user, when it ends, whether the
/// account is enabled, and the name that was asked for.
pub proof fn added_account_is_kept(
    s: Seq<Fields>,
    p: Fields,
    auth: Fields,
    account: Fields,
    name: Option<Seq<char>>,
    proxy: Result<JsonValue, AccountStoreError>,
    rules: RulesView,
    now: i64,
    access: Seq<char>,
    uid: Seq<char>,
)
    requires
        find(p, "auth"@) == Some(Json::Obj(auth)),
        find(p, "account"@) == Some(Json::Obj(account)),
        find(auth, "accessToken"@) == Some(Json::Str(access)),
        access.len() > 0,
        find(account, "uid"@) == Some(Json::Str(uid)),
        uid.len() > 0,
    ensures
        ({
            let r = added_record(s, p, name, proxy, rules, now);
            let before = replaced(s, p);
            &&& find(r, "accessToken"@) == Some(Json::Str(access))
            &&& find(r, "tokenTail"@) matches Some(Json::Str(end)) && short_end(end, access)
            &&& find(r, "uid"@) == Some(Json::Str(trimmed(uid)))
            &&& find(r, "id"@) == Some(Json::Str("user-"@ + trimmed(uid)))
            &&& find(r, "updatedAt"@) == Some(json_int(now as int))
            &&& says(auth, "refreshToken"@) ==> find(r, "refreshToken"@)
                == find(auth, "refreshToken"@)
            &&& says_time(auth, "expiresAt"@) ==> find(r, "expiresAt"@) == find(auth, "expiresAt"@)
            &&& says_time(auth, "refreshExpiresAt"@) ==> find(r, "refreshExpiresAt"@)
                == find(auth, "refreshExpiresAt"@)
            &&& says(auth, "domain"@) ==> find(r, "domain"@) == find(auth, "domain"@)
            &&& says(account, "nickname"@) ==> find(r, "nickname"@) == find(account, "nickname"@)
            &&& says(account, "enterpriseId"@) ==> find(r, "enterpriseId"@)
                == find(account, "enterpriseId"@)
            &&& says(account, "enterpriseName"@) ==> find(r, "enterpriseName"@)
                == find(account, "enterpriseName"@)
            &&& says(account, "type"@) ==> find(r, "type"@) == find(account, "type"@)
            &&& name is Some && 0 < trimmed(name->0).len() <= 100 ==> find(r, "name"@) == Some(
                Json::Str(trimmed(name->0)),
            )
            &&& find(p, "enabled"@) == Some(Json::Bool(false)) ==> find(r, "enabled"@) == Some(
                Json::Bool(false),
            )
            &&& find(p, "enabled"@) == Some(Json::Bool(true)) ==> find(r, "enabled"@) == Some(
                Json::Bool(true),
            )
            &&& find(p, "enabled"@) is None && before is None ==> find(r, "enabled"@) == Some(
                Json::Bool(true),
            )
            &&& find(p, "enabled"@) is None && before is Some ==> (find(r, "enabled"@) == Some(
                Json::Bool(false),
            ) <==> find(before->0, "enabled"@) == Some(Json::Bool(false)))
            &&& before is None ==> find(r, "addedAt"@) == Some(json_int(now as int))
            &&& before is Some && find(p, "priority"@) is None ==> find(r, "priority"@) == Some(
                json_int(priority_of(before->0, rules.band)),
            )
            &&& find(p, "proxy"@) is None && before is None ==> find(r, "proxy"@) == Some(
                Json::Null,
            )
            &&& find(p, "proxy"@) is Some && proxy is Ok ==> find(r, "proxy"@) == Some(
                proxy->Ok_0@,
            )
        }),
{
    broadcast use find_of_put;

    lemma_record_keys();
    lemma_first_filled(auth, seq!["accessToken"@, "token"@, "access_token"@], access);
    assert(added_access(p) == access);
    assert(added_uid(p) == trimmed(uid));
    let end = crate::text::tail(access, 4);
    assert(end =~= access.subrange(access.len() - end.len(), access.len() as int));
    if says(auth, "refreshToken"@) {
        let t = text_or_empty(find(auth, "refreshToken"@));
        lemma_first_filled(auth, seq!["refreshToken"@, "refresh_token"@], t);
        assert(added_refresh(p) == t);
    }
}

// ─── A patched account ───────────────────────────────────────

/// A patch that is accepted has its effect: the name, whether the account is enabled and the
/// proxy are what it says.
pub proof fn patch_takes_effect(
    f: Fields,
    patch: Fields,
    proxy: Result<ProxyPatch, AccountStoreError>,
    s: Seq<Fields>,
    band: PriorityBand,
)
    requires
        patched(f, patch, proxy, s, band) is Ok,
    ensures
        ({
            let r = patched(f, patch, proxy, s, band)->Ok_0.record;
            &&& says(patch, "name"@) && trimmed(text_or_empty(find(patch, "name"@))).len() <= 100
                ==> name_of(r) == trimmed(text_or_empty(find(patch, "name"@)))
            &&& find(patch, "name"@) is None ==> find(r, "name"@) == find(f, "name"@)
            &&& find(patch, "enabled"@) == Some(Json::Bool(false)) ==> find(r, "enabled"@) == Some(
                Json::Bool(false),
            )
            &&& find(patch, "enabled"@) == Some(Json::Bool(true)) ==> find(r, "enabled"@) != Some(
                Json::Bool(false),
            )
            &&& find(patch, "enabled"@) is None ==> find(r, "enabled"@) == find(f, "enabled"@)
            &&& find(patch, "priority"@) is None ==> find(r, "priority"@) == find(f, "priority"@)
            &&& find(patch, "proxy"@) is None ==> find(r, "proxy"@) == find(f, "proxy"@)
            &&& find(patch, "proxy"@) is Some ==> proxy is Ok && crate::json::or_null(
                find(r, "proxy"@),
            ) == proxy->Ok_0.value@
            &&& find(r, "accessToken"@) == find(f, "accessToken"@)
            &&& find(r, "refreshToken"@) == find(f, "refreshToken"@)
        }),
{
    broadcast use find_of_put;

    lemma_record_keys();
}

// ─── Sessions and what is shown ──────────────────────────────

/// The session of an account signs in with the account's own tokens, or with the live ones where
/// there are any, as the account's own user.
pub proof fn session_signs_in_as_the_account(
    f: Fields,
    rules: RulesView,
    resolution: Option<ProxyResolution>,
    live: Option<LiveCredentials>,
    access: Seq<char>,
    refresh: Seq<char>,
    uid: Seq<char>,
)
    requires
        find(f, "accessToken"@) == Some(Json::Str(access)),
        find(f, "refreshToken"@) == Some(Json::Str(refresh)),
        find(f, "uid"@) == Some(Json::Str(uid)),
    ensures
        ({
            let o = session_of(f, rules, resolution, live)->Obj_0;
            let auth = find(o, "auth"@)->0->Obj_0;
            let account = find(o, "account"@)->0->Obj_0;
            &&& live is None ==> find(auth, "accessToken"@) == Some(Json::Str(access)) && find(
                auth,
                "refreshToken"@,
            ) == Some(Json::Str(refresh))
            &&& live is Some ==> find(auth, "accessToken"@) == Some(Json::Str(live->0.token@))
                && find(auth, "refreshToken"@) == Some(Json::Str(live->0.refresh_token@))
            &&& find(account, "uid"@) == Some(Json::Str(uid))
            &&& says(f, "endpoint"@) ==> find(o, "endpoint"@) == find(f, "endpoint"@)
            &&& says(f, "prefixPath"@) ==> find(o, "prefixPath"@) == find(f, "prefixPath"@)
            &&& says(f, "platform"@) ==> find(o, "platform"@) == find(f, "platform"@)
            &&& says(f, "enterpriseId"@) ==> find(account, "enterpriseId"@)
                == find(f, "enterpriseId"@)
            &&& says(f, "domain"@) ==> find(auth, "domain"@) == find(f, "domain"@)
        }),
{
    lemma_session_keys();
    let o = session_of(f, rules, resolution, live)->Obj_0;
    lemma_find_at(o, "endpoint"@, 0);
    lemma_find_at(o, "prefixPath"@, 1);
    lemma_find_at(o, "platform"@, 2);
    lemma_find_at(o, "auth"@, 6);
    lemma_find_at(o, "account"@, 7);
    let auth = session_auth(f, live);
    lemma_find_at(auth, "accessToken"@, 0);
    lemma_find_at(auth, "refreshToken"@, 1);
    lemma_find_at(auth, "domain"@, 5);
    let account = session_account(f);
    lemma_find_at(account, "uid"@, 0);
    lemma_find_at(account, "enterpriseId"@, 3);
}

proof fn lemma_session_keys()
    ensures
        "endpoint"@.len() == 8,
        "prefixPath"@.len() == 10,
        "platform"@.len() == 8,
        "edition"@.len() == 7,
        "proxy"@.len() == 5,
        "proxyError"@.len() == 10,
        "auth"@.len() == 4,
        "account"@.len() == 7,
        "accessToken"@.len() == 11,
        "refreshToken"@.len() == 12,
        "tokenType"@.len() == 9,
        "expiresAt"@.len() == 9,
        "refreshExpiresAt"@.len() == 16,
        "domain"@.len() == 6,
        "uid"@.len() == 3,
        "nickname"@.len() == 8,
        "type"@.len() == 4,
        "enterpriseId"@.len() == 12,
        "enterpriseName"@.len() == 14,
        "endpoint"@ != "platform"@,
        "endpoint"@ != "nickname"@,
        "prefixPath"@ != "proxyError"@,
        "platform"@ != "nickname"@,
        "edition"@ != "account"@,
        "auth"@ != "type"@,
        "refreshToken"@ != "enterpriseId"@,
        "tokenType"@ != "expiresAt"@,
{
    reveal_strlit("endpoint");
    reveal_strlit("prefixPath");
    reveal_strlit("platform");
    reveal_strlit("edition");
    reveal_strlit("proxy");
    reveal_strlit("proxyError");
    reveal_strlit("auth");
    reveal_strlit("account");
    reveal_strlit("accessToken");
    reveal_strlit("refreshToken");
    reveal_strlit("tokenType");
    reveal_strlit("expiresAt");
    reveal_strlit("refreshExpiresAt");
    reveal_strlit("domain");
    reveal_strlit("uid");
    reveal_strlit("nickname");
    reveal_strlit("type");
    reveal_strlit("enterpriseId");
    reveal_strlit("enterpriseName");
    assert("endpoint"@[0] != "platform"@[0]);
    assert("endpoint"@[0] != "nickname"@[0]);
    assert("prefixPath"@[2] != "proxyError"@[2]);
    assert("platform"@[0] != "nickname"@[0]);
    assert("edition"@[0] != "account"@[0]);
    assert("auth"@[0] != "type"@[0]);
    assert("refreshToken"@[0] != "enterpriseId"@[0]);
    assert("tokenType"@[0] != "expiresAt"@[0]);
}

/// What is shown of an account holds none of its tokens, and shows who it is, how it stands in the
/// queue and whether it is enabled.
pub proof fn shown_account_holds_no_token(f: Fields, rules: RulesView, proxy: Json)
    ensures
        ({
            let o = public_fields(f, rules, proxy);
            &&& find(o, "accessToken"@) is None
            &&& find(o, "refreshToken"@) is None
            &&& find(o, "id"@) == Some(Json::Str(id_of(f)))
            &&& find(o, "name"@) == find(f, "name"@)
            &&& find(o, "priority"@) == Some(json_int(priority_of(f, rules.band)))
            &&& find(o, "enabled"@) == Some(
                Json::Bool(find(f, "enabled"@) != Some(Json::Bool(false))),
            )
            &&& find(o, "proxy"@) == Some(proxy)
            &&& find(o, "addedAt"@) == Some(json_int(added_at_of(f)))
            &&& says(f, "uid"@) ==> find(o, "uid"@) == find(f, "uid"@)
            &&& says(f, "nickname"@) ==> find(o, "nickname"@) == find(f, "nickname"@)
            &&& says(f, "refreshToken"@) ==> find(o, "hasRefreshToken"@) == Some(Json::Bool(true))
            &&& find(f, "refreshToken"@) is None ==> find(o, "hasRefreshToken"@) == Some(
                Json::Bool(false),
            )
            &&& says_time(f, "expiresAt"@) ==> find(o, "expiresAt"@) == find(f, "expiresAt"@)
        }),
{
    lemma_record_keys();
    let o = public_fields(f, rules, proxy);
    let k: int = if find(f, "name"@) is Some {
        3
    } else {
        2
    };
    lemma_find_none(o, "accessToken"@);
    lemma_find_none(o, "refreshToken"@);
    lemma_find_at(o, "id"@, 0);
    if find(f, "name"@) is Some {
        lemma_find_at(o, "name"@, 2);
    } else {
        lemma_find_none(o, "name"@);
    }
    lemma_find_at(o, "uid"@, k + 0);
    lemma_find_at(o, "nickname"@, k + 1);
    lemma_find_at(o, "expiresAt"@, k + 6);
    lemma_find_at(o, "hasRefreshToken"@, k + 7);
    lemma_find_at(o, "priority"@, k + 12);
    lemma_find_at(o, "enabled"@, k + 13);
    lemma_find_at(o, "addedAt"@, k + 14);
    lemma_find_at(o, "proxy"@, k + 16);
}

/// A limit is written down as it was told: the status, the code, the message in at most three
/// hundred characters, and when it was met.
pub proof fn limit_is_written_down(
    status: i64,
    code: Option<i64>,
    reset_at: Option<NumberView>,
    message: Seq<char>,
    now: i64,
)
    ensures
        ({
            let o = limit_entry(status, code, reset_at, message, now)->Obj_0;
            &&& status != 0 ==> find(o, "status"@) == Some(json_int(status as int))
            &&& status == 0 ==> find(o, "status"@) == Some(json_int(429))
            &&& code is Some ==> find(o, "code"@) == Some(json_int(code->0 as int))
            &&& code is None ==> find(o, "code"@) == Some(Json::Null)
            &&& message.len() <= 300 ==> find(o, "message"@) == Some(Json::Str(message))
            &&& message.len() > 300 ==> find(o, "message"@) == Some(Json::Str(message.take(300)))
            &&& find(o, "at"@) == Some(json_int(now as int))
        }),
{
    lemma_limit_keys();
    let o = limit_entry(status, code, reset_at, message, now)->Obj_0;
    lemma_find_at(o, "status"@, 0);
    lemma_find_at(o, "code"@, 1);
    lemma_find_at(o, "message"@, 3);
    lemma_find_at(o, "at"@, 4);
}

proof fn lemma_limit_keys()
    ensures
        "status"@.len() == 6,
        "code"@.len() == 4,
        "resetAt"@.len() == 7,
        "message"@.len() == 7,
        "at"@.len() == 2,
        "resetAt"@ != "message"@,
{
    reveal_strlit("status");
    reveal_strlit("code");
    reveal_strlit("resetAt");
    reveal_strlit("message");
    reveal_strlit("at");
    assert("resetAt"@[0] != "message"@[0]);
}

proof fn lemma_proxy_words()
    ensures
        "source"@.len() == 6,
        "protocol"@.len() == 8,
        "host"@.len() == 4,
        "port"@.len() == 4,
        "username"@.len() == 8,
        "password"@.len() == 8,
        "label"@.len() == 5,
        "endpoint"@.len() == 8,
        "prefixPath"@.len() == 10,
        "platform"@.len() == 8,
        "edition"@.len() == 7,
        "proxy"@.len() == 5,
        "proxyError"@.len() == 10,
        "auth"@.len() == 4,
        "account"@.len() == 7,
        "protocol"@ != "username"@,
        "protocol"@ != "password"@,
        "protocol"@ != "endpoint"@,
        "protocol"@ != "platform"@,
        "host"@ != "port"@,
        "host"@ != "auth"@,
        "port"@ != "auth"@,
        "username"@ != "password"@,
        "username"@ != "endpoint"@,
        "username"@ != "platform"@,
        "password"@ != "endpoint"@,
        "password"@ != "platform"@,
        "label"@ != "proxy"@,
        "endpoint"@ != "platform"@,
        "prefixPath"@ != "proxyError"@,
        "edition"@ != "account"@,
{
    reveal_strlit("source");
    reveal_strlit("protocol");
    reveal_strlit("host");
    reveal_strlit("port");
    reveal_strlit("username");
    reveal_strlit("password");
    reveal_strlit("label");
    reveal_strlit("endpoint");
    reveal_strlit("prefixPath");
    reveal_strlit("platform");
    reveal_strlit("edition");
    reveal_strlit("proxy");
    reveal_strlit("proxyError");
    reveal_strlit("auth");
    reveal_strlit("account");
    assert("protocol"@[0] != "username"@[0]);
    assert("protocol"@[1] != "password"@[1]);
    assert("protocol"@[0] != "endpoint"@[0]);
    assert("protocol"@[1] != "platform"@[1]);
    assert("host"@[0] != "port"@[0]);
    assert("host"@[0] != "auth"@[0]);
    assert("port"@[0] != "auth"@[0]);
    assert("username"@[0] != "password"@[0]);
    assert("username"@[0] != "endpoint"@[0]);
    assert("username"@[0] != "platform"@[0]);
    assert("password"@[0] != "endpoint"@[0]);
    assert("password"@[1] != "platform"@[1]);
    assert("label"@[0] != "proxy"@[0]);
    assert("endpoint"@[0] != "platform"@[0]);
    assert("prefixPath"@[2] != "proxyError"@[2]);
    assert("edition"@[0] != "account"@[0]);
}

/// The session goes the way that the record's proxy setting was resolved to; why that failed is
/// told.
pub proof fn session_goes_through_its_proxy(
    f: Fields,
    rules: RulesView,
    resolution: Option<ProxyResolution>,
    live: Option<LiveCredentials>,
)
    ensures
        ({
            let o = session_of(f, rules, resolution, live)->Obj_0;
            &&& resolution is None ==> find(o, "proxy"@) == Some(Json::Null) && find(
                o,
                "proxyError"@,
            ) == Some(Json::Null)
            &&& resolution matches Some(ProxyResolution::Failed(message)) ==> find(o, "proxy"@)
                == Some(Json::Null) && find(o, "proxyError"@) == Some(Json::Str(message@))
            &&& resolution matches Some(ProxyResolution::Resolved(p)) ==> {
                let way = find(o, "proxy"@)->0->Obj_0;
                &&& find(o, "proxyError"@) == Some(Json::Null)
                &&& find(way, "protocol"@) == Some(Json::Str(p.protocol@))
                &&& find(way, "host"@) == Some(Json::Str(p.host@))
                &&& find(way, "port"@) == Some(json_int(p.port as int))
                &&& find(way, "username"@) == Some(Json::Str(p.username@))
                &&& find(way, "password"@) == Some(Json::Str(p.password@))
            }
        }),
{
    lemma_proxy_words();
    let o = session_of(f, rules, resolution, live)->Obj_0;
    lemma_find_at(o, "proxy"@, 4);
    lemma_find_at(o, "proxyError"@, 5);
    if resolution matches Some(ProxyResolution::Resolved(p)) {
        let way = o[4].1->Obj_0;
        lemma_find_at(way, "protocol"@, 1);
        lemma_find_at(way, "host"@, 2);
        lemma_find_at(way, "port"@, 3);
        lemma_find_at(way, "username"@, 4);
        lemma_find_at(way, "password"@, 5);
    }
}

} // verus!
