//! Carrying accounts from one machine to another.
//!
//! An export holds the tokens, so that the accounts can be used at once elsewhere, and leaves out
//! what has a meaning on this machine alone. An import is merged by user: a known user's record
//! is updated, an unknown user's is added at the end of the queue. Priority and time of addition
//! are always those of this machine.
use vstd::prelude::*;
use crate::account_store::priority::{free_behind, next_free_priority};
use crate::account_store::state::{
    dup_accounts, enabled_of, find_index, index_of, name_of, positive_of, priority_of, records,
    type_of, StoredAccount,
};
use crate::account_store::store::{
    edition_for, refusal, unwrapped, AccountStore, AccountStoreError, EditionView, Refusal,
    RulesView, StoreRules,
};
use crate::account_store::store_crud::{
    before_field, lemma_priority_in_band, priorities_of, seen_record, taken_priorities,
    too_many_message, user_id,
};
use crate::account_store::{MAX_ACCOUNTS, MAX_TOKEN_LENGTH};
use crate::js::{filled_text, js_string, js_text, json_number, plain_number, token_tail_of};
use crate::json::{
    dup_or_null, field, find, find_of_put, json_int, list_view, number_of, or_null, push_value,
    put, read_number, seen, str_of, text_in, text_or_empty, text_view, Fields, Json, JsonValue,
    Object,
};
use crate::number::number_positive;
use crate::text::{
    begins, char_count, concat, concat3, decimal_i64, head, same, starts_with, tail, trim, trimmed,
    truncate_chars,
};

verus! {

/// The version of the export's format.
pub const EXPORT_VERSION: i64 = 1;

// ─── Export ──────────────────────────────────────────────────

/// A field that leaves the machine: neither internal nor a note of the limits reached here.
pub open spec fn leaves(key: Seq<char>) -> bool {
    !begins(key, "_"@) && key != "rateLimits"@
}

/// The fields that leave the machine.
pub open spec fn leaving(f: Fields) -> Fields
    decreases f.len(),
{
    if f.len() == 0 {
        Seq::empty()
    } else if leaves(f.last().0) {
        put(leaving(f.drop_last()), f.last().0, f.last().1)
    } else {
        leaving(f.drop_last())
    }
}

/// What is exported of a record. Tokens and proxy are always named.
pub open spec fn exported(f: Fields) -> Fields {
    let r = leaving(f);
    let r = put(r, "accessToken"@, Json::Str(text_or_empty(find(f, "accessToken"@))));
    let r = put(r, "refreshToken"@, Json::Str(text_or_empty(find(f, "refreshToken"@))));
    put(r, "proxy"@, or_null(find(f, "proxy"@)))
}

pub open spec fn export_document(s: Seq<Fields>, now: i64) -> Json {
    Json::Obj(
        seq![
            ("version"@, json_int(EXPORT_VERSION as int)),
            ("exportedAt"@, json_int(now as int)),
            ("accounts"@, Json::Arr(s.map_values(|f: Fields| Json::Obj(exported(f))))),
        ],
    )
}

proof fn lemma_leaving(f: Fields, key: Seq<char>)
    ensures
        find(leaving(f), key) == if leaves(key) {
            find(f, key)
        } else {
            None
        },
    decreases f.len(),
{
    broadcast use find_of_put;

    if f.len() > 0 {
        lemma_leaving(f.drop_last(), key);
    }
}

/// An export holds every field of a record as it is, but for those that stay on the machine, and
/// the tokens and the proxy, which it names in any case.
pub proof fn export_keeps_what_leaves(f: Fields, key: Seq<char>)
    requires
        key != "accessToken"@,
        key != "refreshToken"@,
        key != "proxy"@,
    ensures
        find(exported(f), key) == if leaves(key) {
            find(f, key)
        } else {
            None
        },
{
    broadcast use find_of_put;

    lemma_leaving(f, key);
}

/// [`exported`].
pub fn to_export_record(record: &StoredAccount) -> (out: JsonValue)
    ensures
        out@ == Json::Obj(exported(record@)),
{
    let fields = record.fields();
    let mut item = Object::new();
    let ghost all = record@;
    assert(all.take(0) =~= Seq::empty());
    for i in 0..fields.entries.len()
        invariant
            fields@ == all,
            item@ == leaving(all.take(i as int)),
    {
        assert(all.take(i + 1).drop_last() =~= all.take(i as int));
        assert(all.take(i + 1).last() == all[i as int]);
        let key = fields.entries[i].0.as_str();
        assert(all[i as int] == (key@, fields.entries@[i as int].1@));
        if !starts_with(key, "_") && !same(key, "rateLimits") {
            item.insert(key, fields.entries[i].1.dup());
        }
    }
    assert(all.take(all.len() as int) =~= all);
    item.insert("accessToken", JsonValue::Str(record.access_token()));
    item.insert("refreshToken", JsonValue::Str(record.refresh_token()));
    item.insert("proxy", record.proxy());
    JsonValue::Obj(item)
}

/// [`export_document`].
pub fn export_accounts(store: &AccountStore, now: i64) -> (out: JsonValue)
    ensures
        out@ == export_document(store.state@.accounts, now),
{
    let accounts = &store.state.accounts;
    let mut items: Vec<JsonValue> = Vec::new();
    let ghost all = records(accounts@).map_values(|f: Fields| Json::Obj(exported(f)));
    assert(list_view(items) =~= all.take(0));
    for i in 0..accounts.len()
        invariant
            all == records(accounts@).map_values(|f: Fields| Json::Obj(exported(f))),
            list_view(items) == all.take(i as int),
    {
        push_value(&mut items, to_export_record(&accounts[i]));
        assert(list_view(items) =~= all.take(i + 1));
    }
    assert(all.take(all.len() as int) =~= all);
    let mut o = Object::new();
    o.push("version", JsonValue::integer(EXPORT_VERSION));
    o.push("exportedAt", JsonValue::integer(now));
    o.push("accounts", JsonValue::Arr(items));
    assert(o@ =~= export_document(store.state@.accounts, now)->Obj_0);
    JsonValue::Obj(o)
}

// ─── What an item says ───────────────────────────────────────

/// The trimmed text of a value that is there and not null.
pub open spec fn item_text(item: Fields, key: Seq<char>, fallback: Seq<char>) -> Seq<char> {
    match find(item, key) {
        None => fallback,
        Some(Json::Null) => fallback,
        Some(v) => trimmed(js_text(v)),
    }
}

/// The positive number under a key: a number as it is, a text as the number it denotes.
pub open spec fn item_number(item: Fields, key: Seq<char>, fallback: Json) -> Json {
    match find(item, key) {
        Some(Json::Num(n)) => if number_positive(n) {
            Json::Num(n)
        } else {
            fallback
        },
        v => match number_of(v) {
            Some(n) => if number_positive(n) {
                plain_number(n)
            } else {
                fallback
            },
            None => fallback,
        },
    }
}

/// A text of the record that is there already.
pub open spec fn old_text(before: Option<Fields>, key: Seq<char>) -> Seq<char> {
    text_or_empty(before_field(before, key))
}

pub open spec fn filled_or(a: Seq<char>, b: Seq<char>) -> Seq<char> {
    if a.len() > 0 {
        a
    } else {
        b
    }
}

pub open spec fn imported_edition(item: Fields, before: Option<Fields>, rules: RulesView) -> EditionView {
    edition_for(
        rules,
        match find(item, "edition"@) {
            None => filled_text(before_field(before, "edition"@)),
            Some(Json::Null) => filled_text(before_field(before, "edition"@)),
            Some(v) => Some(js_text(v)),
        },
    )
}

/// A token: that of the item, or the old one where the item's is empty.
pub open spec fn imported_token(item: Fields, before: Option<Fields>, key: Seq<char>) -> Seq<char> {
    filled_or(item_text(item, key, Seq::empty()), old_text(before, key))
}

pub open spec fn imported_tail(item: Fields, before: Option<Fields>) -> Seq<char> {
    filled_or(
        item_text(item, "tokenTail"@, Seq::empty()),
        tail(imported_token(item, before, "accessToken"@), 4),
    )
}

pub open spec fn imported_name(item: Fields, before: Option<Fields>) -> Seq<char> {
    filled_or(
        head(item_text(item, "name"@, old_text(before, "name"@)), 100),
        old_text(before, "name"@),
    )
}

/// Where requests go: as the item says, else as before, else as the edition has it.
pub open spec fn imported_route(
    item: Fields,
    key: Seq<char>,
    before: Option<Seq<char>>,
    default: Seq<char>,
) -> Json {
    match find(item, key) {
        None => Json::Str(unwrapped(before, default)),
        Some(Json::Null) => Json::Str(unwrapped(before, default)),
        Some(v) => v,
    }
}

pub open spec fn imported_type(item: Fields, before: Option<Fields>) -> Seq<char> {
    filled_or(
        item_text(
            item,
            "type"@,
            match before {
                Some(f) => type_of(f),
                None => Seq::empty(),
            },
        ),
        "personal"@,
    )
}

pub open spec fn imported_time(item: Fields, before: Option<Fields>, key: Seq<char>) -> Json {
    item_number(
        item,
        key,
        match positive_of(before_field(before, key)) {
            Some(n) => plain_number(n),
            None => Json::Null,
        },
    )
}

pub open spec fn imported_enabled(item: Fields, before: Option<Fields>) -> bool {
    match find(item, "enabled"@) {
        Some(v) => v != Json::Bool(false),
        None => match before {
            Some(f) => enabled_of(f),
            None => true,
        },
    }
}

pub open spec fn imported_proxy(item: Fields, before: Option<Fields>, proxy: Json) -> Json {
    if find(item, "proxy"@) is Some {
        proxy
    } else {
        or_null(before_field(before, "proxy"@))
    }
}

/// What an item brings to a record, over the fields `r`: tokens and where requests go.
pub open spec fn import_access(
    r: Fields,
    item: Fields,
    before: Option<Fields>,
    rules: RulesView,
) -> Fields {
    let edition = imported_edition(item, before, rules);
    let r = put(r, "accessToken"@, Json::Str(imported_token(item, before, "accessToken"@)));
    let r = put(r, "refreshToken"@, Json::Str(imported_token(item, before, "refreshToken"@)));
    let r = put(r, "tokenTail"@, Json::Str(imported_tail(item, before)));
    let r = put(r, "edition"@, Json::Str(edition.id));
    let r = put(
        r,
        "prefixPath"@,
        imported_route(
            item,
            "prefixPath"@,
            str_of(before_field(before, "prefixPath"@)),
            edition.prefix_path,
        ),
    );
    let r = put(
        r,
        "endpoint"@,
        imported_route(
            item,
            "endpoint"@,
            filled_text(before_field(before, "endpoint"@)),
            edition.endpoint,
        ),
    );
    put(
        r,
        "platform"@,
        imported_route(
            item,
            "platform"@,
            filled_text(before_field(before, "platform"@)),
            edition.platform,
        ),
    )
}

/// What an item brings to a record, over the fields `r`: who the account is and how it is used.
pub open spec fn import_profile(
    r: Fields,
    item: Fields,
    before: Option<Fields>,
    proxy: Json,
) -> Fields {
    let r = put(r, "name"@, Json::Str(imported_name(item, before)));
    let r = put(
        r,
        "nickname"@,
        Json::Str(item_text(item, "nickname"@, old_text(before, "nickname"@))),
    );
    let r = put(r, "type"@, Json::Str(imported_type(item, before)));
    let r = put(
        r,
        "enterpriseId"@,
        Json::Str(item_text(item, "enterpriseId"@, old_text(before, "enterpriseId"@))),
    );
    let r = put(
        r,
        "enterpriseName"@,
        Json::Str(item_text(item, "enterpriseName"@, old_text(before, "enterpriseName"@))),
    );
    let r = put(r, "domain"@, Json::Str(item_text(item, "domain"@, old_text(before, "domain"@))));
    let r = put(r, "expiresAt"@, imported_time(item, before, "expiresAt"@));
    let r = put(r, "refreshExpiresAt"@, imported_time(item, before, "refreshExpiresAt"@));
    let r = put(r, "enabled"@, Json::Bool(imported_enabled(item, before)));
    put(r, "proxy"@, imported_proxy(item, before, proxy))
}

/// All that an item brings to a record, over the fields `r`. `proxy` is what the item's proxy
/// setting was normalised to.
pub open spec fn normalized_import(
    r: Fields,
    item: Fields,
    before: Option<Fields>,
    proxy: Json,
    rules: RulesView,
) -> Fields {
    import_profile(import_access(r, item, before, rules), item, before, proxy)
}

/// The fields that an import sets in a record that is there already.
pub open spec fn fields_set_by_import() -> Set<Seq<char>> {
    set![
        "accessToken"@,
        "refreshToken"@,
        "tokenTail"@,
        "edition"@,
        "prefixPath"@,
        "endpoint"@,
        "platform"@,
        "name"@,
        "nickname"@,
        "type"@,
        "enterpriseId"@,
        "enterpriseName"@,
        "domain"@,
        "expiresAt"@,
        "refreshExpiresAt"@,
        "enabled"@,
        "proxy"@,
        "updatedAt"@,
    ]
}

/// The record of a known user after an import.
pub open spec fn updated_record(f: Fields, item: Fields, proxy: Json, rules: RulesView, now: i64) -> Fields {
    put(normalized_import(f, item, Some(f), proxy, rules), "updatedAt"@, json_int(now as int))
}

/// An import of a known user keeps every field that imports do not set: its id, its priority,
/// its time of addition, and those that nobody knows.
pub proof fn import_keeps_other_fields(
    f: Fields,
    item: Fields,
    proxy: Json,
    rules: RulesView,
    now: i64,
    key: Seq<char>,
)
    requires
        !fields_set_by_import().contains(key),
    ensures
        find(updated_record(f, item, proxy, rules, now), key) == find(f, key),
{
    broadcast use find_of_put;

}

/// Priority, time of addition and id are not among the fields that an import sets.
pub proof fn import_leaves_the_queue()
    ensures
        !fields_set_by_import().contains("priority"@),
        !fields_set_by_import().contains("addedAt"@),
        !fields_set_by_import().contains("id"@),
{
    reveal_strlit("priority");
    reveal_strlit("addedAt");
    reveal_strlit("id");
    reveal_strlit("accessToken");
    reveal_strlit("refreshToken");
    reveal_strlit("tokenTail");
    reveal_strlit("edition");
    reveal_strlit("prefixPath");
    reveal_strlit("endpoint");
    reveal_strlit("platform");
    reveal_strlit("name");
    reveal_strlit("nickname");
    reveal_strlit("type");
    reveal_strlit("enterpriseId");
    reveal_strlit("enterpriseName");
    reveal_strlit("domain");
    reveal_strlit("expiresAt");
    reveal_strlit("refreshExpiresAt");
    reveal_strlit("enabled");
    reveal_strlit("proxy");
    reveal_strlit("updatedAt");
    assert("priority"@.len() == 8 && "priority"@[0] == 'p' && "priority"@[1] == 'r');
    assert("addedAt"@.len() == 7 && "addedAt"@[0] == 'a');
    assert("id"@.len() == 2);
    assert("endpoint"@[0] == 'e');
    assert("platform"@[1] == 'l');
    assert("nickname"@[0] == 'n');
    assert("edition"@[0] == 'e');
    assert("enabled"@[0] == 'e');
}

/// Importing one's own export leaves the tokens as they are, where they are trimmed.
pub proof fn own_export_keeps_tokens(f: Fields, proxy: Json, rules: RulesView, now: i64)
    requires
        trimmed(text_or_empty(find(f, "accessToken"@))) == text_or_empty(find(f, "accessToken"@)),
        trimmed(text_or_empty(find(f, "refreshToken"@))) == text_or_empty(find(f, "refreshToken"@)),
    ensures
        ({
            let r = updated_record(f, exported(f), proxy, rules, now);
            &&& text_or_empty(find(r, "accessToken"@)) == text_or_empty(find(f, "accessToken"@))
            &&& text_or_empty(find(r, "refreshToken"@)) == text_or_empty(find(f, "refreshToken"@))
        }),
{
    broadcast use find_of_put;

    lemma_token_keys();
}

proof fn lemma_token_keys()
    ensures
        "accessToken"@ != "refreshToken"@,
        "accessToken"@ != "proxy"@,
        "refreshToken"@ != "proxy"@,
        "accessToken"@ != "tokenTail"@,
        "accessToken"@ != "edition"@,
        "accessToken"@ != "prefixPath"@,
        "accessToken"@ != "endpoint"@,
        "accessToken"@ != "platform"@,
        "accessToken"@ != "name"@,
        "accessToken"@ != "nickname"@,
        "accessToken"@ != "type"@,
        "accessToken"@ != "enterpriseId"@,
        "accessToken"@ != "enterpriseName"@,
        "accessToken"@ != "domain"@,
        "accessToken"@ != "expiresAt"@,
        "accessToken"@ != "refreshExpiresAt"@,
        "accessToken"@ != "enabled"@,
        "accessToken"@ != "updatedAt"@,
        "refreshToken"@ != "tokenTail"@,
        "refreshToken"@ != "edition"@,
        "refreshToken"@ != "prefixPath"@,
        "refreshToken"@ != "endpoint"@,
        "refreshToken"@ != "platform"@,
        "refreshToken"@ != "name"@,
        "refreshToken"@ != "nickname"@,
        "refreshToken"@ != "type"@,
        "refreshToken"@ != "enterpriseId"@,
        "refreshToken"@ != "enterpriseName"@,
        "refreshToken"@ != "domain"@,
        "refreshToken"@ != "expiresAt"@,
        "refreshToken"@ != "refreshExpiresAt"@,
        "refreshToken"@ != "enabled"@,
        "refreshToken"@ != "updatedAt"@,
{
    reveal_strlit("accessToken");
    reveal_strlit("refreshToken");
    reveal_strlit("tokenTail");
    reveal_strlit("edition");
    reveal_strlit("prefixPath");
    reveal_strlit("endpoint");
    reveal_strlit("platform");
    reveal_strlit("name");
    reveal_strlit("nickname");
    reveal_strlit("type");
    reveal_strlit("enterpriseId");
    reveal_strlit("enterpriseName");
    reveal_strlit("domain");
    reveal_strlit("expiresAt");
    reveal_strlit("refreshExpiresAt");
    reveal_strlit("enabled");
    reveal_strlit("proxy");
    reveal_strlit("updatedAt");
    assert("enterpriseId"@[0] == 'e');
    assert("refreshToken"@[0] == 'r' && "refreshToken"@.len() == 12);
    assert("refreshExpiresAt"@.len() == 16);
    assert("accessToken"@.len() == 11);
}

fn text_at(item: &Object, key: &str, fallback: &str) -> (out: String)
    ensures
        out@ == item_text(item@, key@, fallback@),
{
    match item.get(key) {
        Some(v) => if v.is_null() {
            fallback.to_owned()
        } else {
            trim(js_string(v).as_str())
        },
        None => fallback.to_owned(),
    }
}

fn number_at(item: &Object, key: &str, fallback: JsonValue) -> (out: JsonValue)
    ensures
        out@ == item_number(item@, key@, fallback@),
{
    match item.get(key) {
        Some(JsonValue::Num(n)) => if n.is_positive() {
            JsonValue::Num(n.dup())
        } else {
            fallback
        },
        v => match read_number(v) {
            Some(n) => if n.is_positive() {
                json_number(&n)
            } else {
                fallback
            },
            None => fallback,
        },
    }
}

fn old_field<'a>(before: Option<&'a StoredAccount>, key: &str) -> (r: Option<&'a JsonValue>)
    ensures
        seen(r) == before_field(seen_record(before), key@),
{
    match before {
        Some(a) => a.get(key),
        None => None,
    }
}

fn old_plain(before: Option<&StoredAccount>, key: &str) -> (out: String)
    ensures
        out@ == old_text(seen_record(before), key@),
{
    text_in(old_field(before, key))
}

fn first_nonempty(a: String, b: String) -> (out: String)
    ensures
        out@ == filled_or(a@, b@),
{
    if a.as_str().is_empty() {
        b
    } else {
        a
    }
}

fn token_at(item: &Object, before: Option<&StoredAccount>, key: &str) -> (out: String)
    ensures
        out@ == imported_token(item@, seen_record(before), key@),
{
    proof {
        reveal_strlit("");
        assert(""@ =~= Seq::<char>::empty());
    }
    first_nonempty(text_at(item, key, ""), old_plain(before, key))
}

fn route_at(item: &Object, key: &str, before: Option<String>, default: &str) -> (out: JsonValue)
    ensures
        out@ == imported_route(item@, key@, text_view(before), default@),
{
    let kept = match before {
        Some(s) => s,
        None => default.to_owned(),
    };
    match item.get(key) {
        Some(v) => if v.is_null() {
            JsonValue::Str(kept)
        } else {
            v.dup()
        },
        None => JsonValue::Str(kept),
    }
}

fn time_at(item: &Object, before: Option<&StoredAccount>, key: &str) -> (out: JsonValue)
    ensures
        out@ == imported_time(item@, seen_record(before), key@),
{
    let old = match read_number(old_field(before, key)) {
        Some(n) => if n.is_positive() {
            json_number(&n)
        } else {
            JsonValue::Null
        },
        None => JsonValue::Null,
    };
    number_at(item, key, old)
}

fn set_access(
    r: &mut StoredAccount,
    item: &Object,
    before: Option<&StoredAccount>,
    rules: &StoreRules,
)
    ensures
        final(r)@ == import_access(old(r)@, item@, seen_record(before), rules@),
{
    let edition_id = match item.get("edition") {
        Some(v) => if v.is_null() {
            crate::js::optional_text(old_field(before, "edition"))
        } else {
            Some(js_string(v))
        },
        None => crate::js::optional_text(old_field(before, "edition")),
    };
    let edition = rules.resolve_edition(
        match &edition_id {
            Some(s) => Some(s.as_str()),
            None => None,
        },
    );
    let access = token_at(item, before, "accessToken");
    let refresh = token_at(item, before, "refreshToken");
    proof {
        reveal_strlit("");
        assert(""@ =~= Seq::<char>::empty());
    }
    let shown = first_nonempty(text_at(item, "tokenTail", ""), token_tail_of(access.as_str()));
    r.set("accessToken", JsonValue::Str(access));
    r.set("refreshToken", JsonValue::Str(refresh));
    r.set("tokenTail", JsonValue::Str(shown));
    r.set("edition", JsonValue::text(edition.id.as_str()));
    let old_prefix = match old_field(before, "prefixPath") {
        Some(JsonValue::Str(s)) => Some(s.clone()),
        _ => None,
    };
    r.set(
        "prefixPath",
        route_at(item, "prefixPath", old_prefix, edition.prefix_path.as_str()),
    );
    r.set(
        "endpoint",
        route_at(
            item,
            "endpoint",
            crate::js::optional_text(old_field(before, "endpoint")),
            edition.endpoint.as_str(),
        ),
    );
    r.set(
        "platform",
        route_at(
            item,
            "platform",
            crate::js::optional_text(old_field(before, "platform")),
            edition.platform.as_str(),
        ),
    );
}

fn set_profile(
    r: &mut StoredAccount,
    item: &Object,
    before: Option<&StoredAccount>,
    proxy: &JsonValue,
)
    ensures
        final(r)@ == import_profile(old(r)@, item@, seen_record(before), proxy@),
{
    let old_name = old_plain(before, "name");
    let name = first_nonempty(
        truncate_chars(text_at(item, "name", old_name.as_str()).as_str(), 100),
        old_plain(before, "name"),
    );
    r.set("name", JsonValue::Str(name));
    r.set(
        "nickname",
        JsonValue::Str(text_at(item, "nickname", old_plain(before, "nickname").as_str())),
    );
    let old_type = match before {
        Some(a) => a.account_type(),
        None => String::new(),
    };
    assert(old_type@ =~= match seen_record(before) {
        Some(f) => type_of(f),
        None => Seq::empty(),
    });
    r.set(
        "type",
        JsonValue::Str(
            first_nonempty(text_at(item, "type", old_type.as_str()), "personal".to_owned()),
        ),
    );
    r.set(
        "enterpriseId",
        JsonValue::Str(text_at(item, "enterpriseId", old_plain(before, "enterpriseId").as_str())),
    );
    r.set(
        "enterpriseName",
        JsonValue::Str(
            text_at(item, "enterpriseName", old_plain(before, "enterpriseName").as_str()),
        ),
    );
    r.set(
        "domain",
        JsonValue::Str(text_at(item, "domain", old_plain(before, "domain").as_str())),
    );
    r.set("expiresAt", time_at(item, before, "expiresAt"));
    r.set("refreshExpiresAt", time_at(item, before, "refreshExpiresAt"));
    let enabled = match item.get("enabled") {
        Some(v) => match v {
            JsonValue::Bool(false) => false,
            _ => true,
        },
        None => match before {
            Some(a) => a.enabled(),
            None => true,
        },
    };
    r.set_enabled(enabled);
    let kept = if item.get("proxy").is_some() {
        proxy.dup()
    } else {
        dup_or_null(old_field(before, "proxy"))
    };
    r.set_proxy(kept);
}

/// [`normalized_import`].
pub fn normalize_imported(
    r: &mut StoredAccount,
    item: &Object,
    before: Option<&StoredAccount>,
    proxy: &JsonValue,
    rules: &StoreRules,
)
    ensures
        final(r)@ == normalized_import(old(r)@, item@, seen_record(before), proxy@, rules@),
{
    set_access(r, item, before, rules);
    set_profile(r, item, before, proxy);
}

// ─── Import ──────────────────────────────────────────────────

/// The trimmed text under a key of an item; empty where it is no text.
pub open spec fn trimmed_text(item: Json, key: Seq<char>) -> Seq<char> {
    trimmed(text_or_empty(field(item, key)))
}

/// Where the first record of a user stands; the number of records where there is none.
pub open spec fn user_index(s: Seq<Fields>, uid: Seq<char>) -> int
    decreases s.len(),
{
    if s.len() == 0 || text_or_empty(find(s[0], "uid"@)) == uid {
        0
    } else {
        1 + user_index(s.drop_first(), uid)
    }
}

/// Why an item cannot be imported, if it cannot.
pub open spec fn item_refusal(s: Seq<Fields>, item: Json) -> Option<Seq<char>> {
    let access = trimmed_text(item, "accessToken"@);
    let refresh = trimmed_text(item, "refreshToken"@);
    let uid = trimmed_text(item, "uid"@);
    if !(item is Obj) {
        Some("账号记录必须是 JSON 对象"@)
    } else if trimmed_text(item, "id"@).len() == 0 {
        Some("缺少 id"@)
    } else if uid.len() == 0 {
        Some("缺少 uid（无法标识账号）"@)
    } else if access.len() == 0 && refresh.len() == 0 {
        Some("缺少 accessToken 与 refreshToken"@)
    } else if access.len() > MAX_TOKEN_LENGTH || refresh.len() > MAX_TOKEN_LENGTH {
        Some("token 过长"@)
    } else if user_index(s, uid) >= s.len() && s.len() >= MAX_ACCOUNTS {
        Some(too_many_message())
    } else {
        None
    }
}

/// The id of a new account: that of the item, unless an account has it.
pub open spec fn new_id(s: Seq<Fields>, item: Json) -> Seq<char> {
    let id = trimmed_text(item, "id"@);
    if index_of(s, id) < s.len() {
        user_id(trimmed_text(item, "uid"@))
    } else {
        id
    }
}

/// The record of an unknown user, before it is named.
pub open spec fn new_fields(
    s: Seq<Fields>,
    item: Json,
    proxy: Json,
    rules: RulesView,
    now: i64,
) -> Fields {
    let r = put(Seq::empty(), "id"@, Json::Str(new_id(s, item)));
    let r = normalized_import(r, item->Obj_0, None, proxy, rules);
    let r = put(r, "uid"@, Json::Str(trimmed_text(item, "uid"@)));
    let r = put(
        r,
        "priority"@,
        json_int(free_behind(priorities_of(s, rules.band), rules.band)),
    );
    let r = put(r, "addedAt"@, json_int(now as int));
    put(r, "updatedAt"@, json_int(now as int))
}

/// A record with a name: its own, else the nickname, else one made from the user.
pub open spec fn named(f: Fields, uid: Seq<char>) -> Fields {
    if name_of(f).len() > 0 {
        f
    } else {
        put(
            f,
            "name"@,
            Json::Str(
                filled_or(text_or_empty(find(f, "nickname"@)), "账号 "@ + head(uid, 8)),
            ),
        )
    }
}

/// The record of an unknown user: at the end of the queue, whatever number the item has.
pub open spec fn new_record(
    s: Seq<Fields>,
    item: Json,
    proxy: Json,
    rules: RulesView,
    now: i64,
) -> Fields {
    named(new_fields(s, item, proxy, rules, now), trimmed_text(item, "uid"@))
}

/// An import on its way.
pub struct ImportView {
    pub accounts: Seq<Fields>,
    pub added: nat,
    pub updated: nat,
    pub errors: Seq<Json>,
}

pub open spec fn error_entry(item: Json, message: Seq<char>) -> Json {
    Json::Obj(
        seq![
            (
                "id"@,
                Json::Str(filled_or(trimmed_text(item, "id"@), trimmed_text(item, "uid"@))),
            ),
            ("message"@, Json::Str(message)),
        ],
    )
}

/// One item of an import.
pub open spec fn import_step(
    v: ImportView,
    item: Json,
    proxy: Json,
    rules: RulesView,
    now: i64,
) -> ImportView {
    let s = v.accounts;
    match item_refusal(s, item) {
        Some(message) => ImportView { errors: v.errors.push(error_entry(item, message)), ..v },
        None => {
            let i = user_index(s, trimmed_text(item, "uid"@));
            if i < s.len() {
                ImportView {
                    accounts: s.update(i, updated_record(s[i], item->Obj_0, proxy, rules, now)),
                    updated: v.updated + 1,
                    ..v
                }
            } else {
                ImportView {
                    accounts: s.push(new_record(s, item, proxy, rules, now)),
                    added: v.added + 1,
                    ..v
                }
            }
        },
    }
}

/// The items of an import one after the other. A bad one does not stop the others.
pub open spec fn import_run(
    s: Seq<Fields>,
    items: Seq<Json>,
    proxies: Seq<Json>,
    rules: RulesView,
    now: i64,
    n: nat,
) -> ImportView
    decreases n,
{
    if n == 0 {
        ImportView { accounts: s, added: 0, updated: 0, errors: Seq::empty() }
    } else {
        import_step(
            import_run(s, items, proxies, rules, now, (n - 1) as nat),
            items[n - 1],
            proxies[n - 1],
            rules,
            now,
        )
    }
}

/// The items of an import document.
pub open spec fn import_items(payload: Json) -> Option<Seq<Json>> {
    match field(payload, "accounts"@) {
        Some(Json::Arr(items)) => Some(items),
        _ => None,
    }
}

/// Why an import is refused as a whole, if it is.
pub open spec fn import_refusal(payload: Json) -> Option<Refusal> {
    if !(payload is Obj) {
        Some(refusal("导入内容必须是 JSON 对象"@, 400))
    } else {
        match import_items(payload) {
            None => Some(refusal("缺少 accounts 数组"@, 400)),
            Some(items) => if items.len() == 0 {
                Some(refusal("accounts 为空，没有可导入的账号"@, 400))
            } else {
                None
            },
        }
    }
}

pub open spec fn import_report(total: nat, v: ImportView) -> Json {
    Json::Obj(
        seq![
            ("total"@, json_int(total as int)),
            ("added"@, json_int(v.added as int)),
            ("updated"@, json_int(v.updated as int)),
            ("skipped"@, json_int(0)),
            ("failed"@, json_int(v.errors.len() as int)),
            ("errors"@, Json::Arr(v.errors)),
        ],
    )
}

/// Every item is counted once: as added, as updated, or as an error.
pub proof fn import_counts_every_item(
    s: Seq<Fields>,
    items: Seq<Json>,
    proxies: Seq<Json>,
    rules: RulesView,
    now: i64,
    n: nat,
)
    ensures
        ({
            let v = import_run(s, items, proxies, rules, now, n);
            &&& v.added + v.updated + v.errors.len() == n
            &&& v.accounts.len() == s.len() + v.added
        }),
    decreases n,
{
    if n > 0 {
        import_counts_every_item(s, items, proxies, rules, now, (n - 1) as nat);
        let v = import_run(s, items, proxies, rules, now, (n - 1) as nat);
        let i = user_index(v.accounts, trimmed_text(items[n - 1], "uid"@));
        lemma_user_index(v.accounts, trimmed_text(items[n - 1], "uid"@));
    }
}

proof fn lemma_user_index(s: Seq<Fields>, uid: Seq<char>)
    ensures
        0 <= user_index(s, uid) <= s.len(),
    decreases s.len(),
{
    if s.len() > 0 {
        lemma_user_index(s.drop_first(), uid);
    }
}

/// A new account of an import stands behind every other of the queue.
pub proof fn imported_account_is_last(
    s: Seq<Fields>,
    item: Json,
    proxy: Json,
    rules: RulesView,
    now: i64,
    i: int,
)
    requires
        0 <= i < s.len(),
        rules.band.wf(),
        free_behind(priorities_of(s, rules.band), rules.band) <= rules.band.highest,
        -(crate::number::EXACT_BELOW as int) < rules.band.lowest,
        rules.band.highest < crate::number::EXACT_BELOW,
    ensures
        priority_of(s[i], rules.band) < priority_of(
            new_record(s, item, proxy, rules, now),
            rules.band,
        ),
{
    broadcast use find_of_put;

    let band = rules.band;
    let taken = priorities_of(s, band);
    crate::account_store::priority::free_behind_is_last(taken, band, i);
    lemma_priority_in_band(s[i], band);
    let p = free_behind(taken, band);
    reveal_strlit("priority");
    reveal_strlit("addedAt");
    reveal_strlit("updatedAt");
    reveal_strlit("name");
    assert("priority"@.len() == 8 && "addedAt"@.len() == 7 && "updatedAt"@.len() == 9
        && "name"@.len() == 4);
    let r = new_record(s, item, proxy, rules, now);
    assert(find(r, "priority"@) == Some(json_int(p)));
    crate::account_store::state::priority_reads_back(Seq::empty(), p as i64, band);
}

fn find_user(accounts: &Vec<StoredAccount>, uid: &str) -> (at: usize)
    ensures
        at == user_index(records(accounts@), uid@),
        at <= accounts@.len(),
{
    let ghost all = records(accounts@);
    assert(all.skip(0) =~= all);
    let mut i: usize = 0;
    while i < accounts.len()
        invariant
            i <= accounts@.len(),
            all == records(accounts@),
            user_index(all, uid@) == i + user_index(all.skip(i as int), uid@),
        decreases accounts@.len() - i,
    {
        assert(all.skip(i as int)[0] == accounts@[i as int]@);
        assert(all.skip(i as int).drop_first() =~= all.skip(i + 1));
        if same(accounts[i].uid().as_str(), uid) {
            return i;
        }
        i = i + 1;
    }
    i
}

fn trimmed_at(item: &JsonValue, key: &str) -> (out: String)
    ensures
        out@ == trimmed_text(item@, key@),
{
    trim(text_in(item.get(key)).as_str())
}

/// [`item_refusal`].
fn check_item(accounts: &Vec<StoredAccount>, item: &JsonValue) -> (r: Option<String>)
    ensures
        text_view(r) == item_refusal(records(accounts@), item@),
{
    match item {
        JsonValue::Obj(_) => {},
        _ => {
            return Some("账号记录必须是 JSON 对象".to_owned());
        },
    }
    if trimmed_at(item, "id").as_str().is_empty() {
        return Some("缺少 id".to_owned());
    }
    let uid = trimmed_at(item, "uid");
    if uid.as_str().is_empty() {
        return Some("缺少 uid（无法标识账号）".to_owned());
    }
    let access = trimmed_at(item, "accessToken");
    let refresh = trimmed_at(item, "refreshToken");
    if access.as_str().is_empty() && refresh.as_str().is_empty() {
        return Some("缺少 accessToken 与 refreshToken".to_owned());
    }
    if char_count(access.as_str()) > MAX_TOKEN_LENGTH || char_count(refresh.as_str())
        > MAX_TOKEN_LENGTH {
        return Some("token 过长".to_owned());
    }
    assert(records(accounts@).len() == accounts@.len());
    if find_user(accounts, uid.as_str()) >= accounts.len() && accounts.len() >= MAX_ACCOUNTS {
        return Some(concat3("最多保存 ", decimal_i64(20).as_str(), " 个账号"));
    }
    None
}

fn make_record(
    accounts: &Vec<StoredAccount>,
    item: &JsonValue,
    proxy: &JsonValue,
    rules: &StoreRules,
    now: i64,
) -> (out: StoredAccount)
    requires
        rules.band.wf(),
        item@ is Obj,
    ensures
        out@ == new_record(records(accounts@), item@, proxy@, rules@, now),
{
    let wanted = trimmed_at(item, "id");
    let uid = trimmed_at(item, "uid");
    assert(records(accounts@).len() == accounts@.len());
    let id = if find_index(accounts, wanted.as_str()) < accounts.len() {
        concat("user-", uid.as_str())
    } else {
        wanted
    };
    let mut r = StoredAccount::from_map(Object::new());
    r.set("id", JsonValue::Str(id));
    match item {
        JsonValue::Obj(o) => {
            normalize_imported(&mut r, o, None, proxy, rules);
        },
        _ => {},
    }
    r.set("uid", JsonValue::text(uid.as_str()));
    let taken = taken_priorities(accounts, rules.band);
    proof {
        assert forall|i: int| 0 <= i < taken@.len() implies #[trigger] taken@[i] < i64::MAX by {
            lemma_priority_in_band(records(accounts@)[i], rules.band);
        }
    }
    r.set_priority(next_free_priority(&taken, rules.band));
    r.set("addedAt", JsonValue::integer(now));
    r.set_updated_at(now);
    if r.name().as_str().is_empty() {
        let name = first_nonempty(
            r.nickname(),
            concat("账号 ", truncate_chars(uid.as_str(), 8).as_str()),
        );
        r.set("name", JsonValue::Str(name));
    }
    r
}

/// Imports one item: says whether a record was updated rather than added, or what was wrong.
fn import_one(
    accounts: &mut Vec<StoredAccount>,
    item: &JsonValue,
    proxy: &JsonValue,
    rules: &StoreRules,
    now: i64,
) -> (r: Result<bool, JsonValue>)
    requires
        rules.band.wf(),
    ensures
        ({
            let s = records(old(accounts)@);
            let i = user_index(s, trimmed_text(item@, "uid"@));
            match item_refusal(s, item@) {
                Some(message) => r is Err && r->Err_0@ == error_entry(item@, message)
                    && final(accounts)@ == old(accounts)@,
                None => r is Ok && r->Ok_0 == (i < s.len()) && records(final(accounts)@) == if i
                    < s.len() {
                    s.update(i, updated_record(s[i], item@->Obj_0, proxy@, rules@, now))
                } else {
                    s.push(new_record(s, item@, proxy@, rules@, now))
                },
            }
        }),
{
    let ghost before = accounts@;
    assert(records(before).len() == before.len());
    match check_item(accounts, item) {
        Some(message) => {
            let mut o = Object::new();
            o.push(
                "id",
                JsonValue::Str(first_nonempty(trimmed_at(item, "id"), trimmed_at(item, "uid"))),
            );
            let ghost words = message@;
            o.push("message", JsonValue::Str(message));
            assert(o@ =~= error_entry(item@, words)->Obj_0);
            Err(JsonValue::Obj(o))
        },
        None => {
            let uid = trimmed_at(item, "uid");
            let at = find_user(accounts, uid.as_str());
            if at < accounts.len() {
                assert(records(before)[at as int] == accounts@[at as int]@);
                let mut record = accounts[at].dup();
                match item {
                    JsonValue::Obj(o) => {
                        normalize_imported(&mut record, o, Some(&accounts[at]), proxy, rules);
                    },
                    _ => {},
                }
                record.set_updated_at(now);
                let ghost next = record@;
                accounts.set(at, record);
                assert(records(accounts@) =~= records(before).update(at as int, next));
                Ok(true)
            } else {
                let record = make_record(accounts, item, proxy, rules, now);
                let ghost next = record@;
                accounts.push(record);
                assert(records(accounts@) =~= records(before).push(next));
                Ok(false)
            }
        },
    }
}

/// Imports the accounts of an export. `proxies` holds, for each item, what its proxy setting was
/// normalised to, null where it could not be.
pub fn import_accounts(
    store: &mut AccountStore,
    payload: &JsonValue,
    proxies: &Vec<JsonValue>,
    now: i64,
) -> (r: Result<JsonValue, AccountStoreError>)
    requires
        old(store).rules.band.wf(),
        import_items(payload@) is Some ==> proxies@.len() == import_items(payload@)->0.len(),
    ensures
        final(store).rules == old(store).rules,
        final(store).state@.scope == old(store).state@.scope,
        match import_refusal(payload@) {
            Some(e) => r is Err && r->Err_0@ == e && final(store).state == old(store).state,
            None => {
                let items = import_items(payload@)->0;
                let v = import_run(
                    old(store).state@.accounts,
                    items,
                    list_view(*proxies),
                    old(store).rules@,
                    now,
                    items.len(),
                );
                &&& r is Ok
                &&& r->Ok_0@ == import_report(items.len(), v)
                &&& final(store).state@.accounts == v.accounts
            },
        },
{
    match payload {
        JsonValue::Obj(_) => {},
        _ => {
            return Err(AccountStoreError::new("导入内容必须是 JSON 对象", 400));
        },
    }
    let items = match payload.get("accounts") {
        Some(JsonValue::Arr(items)) => items,
        _ => {
            return Err(AccountStoreError::new("缺少 accounts 数组", 400));
        },
    };
    if items.len() == 0 {
        return Err(AccountStoreError::new("accounts 为空，没有可导入的账号", 400));
    }
    let ghost s = store.state@.accounts;
    let ghost all = list_view(*items);
    let ghost given = list_view(*proxies);
    let rules = &store.rules;
    let mut accounts = dup_accounts(&store.state.accounts);
    let mut added: usize = 0;
    let mut updated: usize = 0;
    let mut errors: Vec<JsonValue> = Vec::new();
    assert(list_view(errors) =~= Seq::empty());
    for n in 0..items.len()
        invariant
            all == list_view(*items),
            given == list_view(*proxies),
            proxies@.len() == items@.len(),
            rules.band.wf(),
            added <= n,
            updated <= n,
            ({
                let v = import_run(s, all, given, rules@, now, n as nat);
                &&& records(accounts@) == v.accounts
                &&& added == v.added
                &&& updated == v.updated
                &&& list_view(errors) == v.errors
            }),
    {
        let item = &items[n];
        let proxy = &proxies[n];
        assert(all[n as int] == item@);
        assert(given[n as int] == proxy@);
        match import_one(&mut accounts, item, proxy, rules, now) {
            Ok(true) => {
                updated = updated + 1;
            },
            Ok(false) => {
                added = added + 1;
            },
            Err(entry) => {
                push_value(&mut errors, entry);
            },
        }
    }
    let ghost v = import_run(s, all, given, rules@, now, all.len());
    let mut o = Object::new();
    o.push("total", JsonValue::natural(items.len() as u64));
    o.push("added", JsonValue::natural(added as u64));
    o.push("updated", JsonValue::natural(updated as u64));
    o.push("skipped", JsonValue::integer(0));
    o.push("failed", JsonValue::natural(errors.len() as u64));
    assert(list_view(errors).len() == errors@.len());
    o.push("errors", JsonValue::Arr(errors));
    assert(o@ =~= import_report(all.len(), v)->Obj_0);
    store.state.accounts = accounts;
    Ok(JsonValue::Obj(o))
}

} // verus!
