//! What an import makes of an export.
use vstd::prelude::*;
use crate::account_store::record_laws::{lemma_record_keys, says, says_time};
use crate::account_store::state::{index_of, name_of};
use crate::account_store::store::RulesView;
use crate::account_transfer::{
    export_document, export_keeps_what_leaves, exported, import_items, import_refusal,
    import_report, import_step, imported_edition, imported_name, imported_proxy, imported_route,
    imported_time, imported_token, imported_type, item_refusal, item_text, new_fields, new_id,
    new_record, normalized_import, old_text, updated_record, user_index, ImportView,
};
use crate::account_store::store_crud::before_field;
use crate::js::filled_text;
use crate::json::{
    field, find, find_of_put, json_int, lemma_find_at, str_of, text_or_empty, Fields, Json,
};
use crate::protocol::stream_laws::part_of;
use crate::text::trimmed;

verus! {

/// The account that an import step makes or changes: the record of the item's user.
pub open spec fn holds_user(f: Fields, uid: Seq<char>) -> bool {
    text_or_empty(find(f, "uid"@)) == uid
}

/// A record is switched off.
pub open spec fn switched_off(f: Fields) -> bool {
    find(f, "enabled"@) == Some(Json::Bool(false))
}

proof fn lemma_user_index(s: Seq<Fields>, uid: Seq<char>)
    ensures
        0 <= user_index(s, uid) <= s.len(),
        user_index(s, uid) < s.len() ==> holds_user(s[user_index(s, uid)], uid),
        forall|k: int| 0 <= k < user_index(s, uid) ==> !holds_user(#[trigger] s[k], uid),
    decreases s.len(),
{
    if s.len() > 0 && !holds_user(s[0], uid) {
        let rest = s.drop_first();
        lemma_user_index(rest, uid);
        assert forall|k: int| 0 <= k < user_index(s, uid) implies !holds_user(
            #[trigger] s[k],
            uid,
        ) by {
            if k > 0 {
                assert(s[k] == rest[k - 1]);
            }
        }
        if user_index(s, uid) < s.len() {
            assert(s[user_index(s, uid)] == rest[user_index(rest, uid)]);
        }
    }
}

proof fn lemma_under_score(key: Seq<char>)
    requires
        key.len() > 0,
        key[0] != '_',
        key != "rateLimits"@,
    ensures
        crate::account_transfer::leaves(key),
{
    reveal_strlit("_");
    assert("_"@.len() == 1 && "_"@[0] == '_');
    if crate::text::begins(key, "_"@) {
        assert(key.take(1)[0] == key[0]);
    }
}

/// A record that an item changes is switched off exactly where the item says so, and stays as it
/// was where the item says nothing.
pub proof fn changed_record_is_enabled_as_told(
    f: Fields,
    item: Fields,
    proxy: Json,
    rules: RulesView,
    now: i64,
)
    ensures
        ({
            let r = updated_record(f, item, proxy, rules, now);
            &&& find(item, "enabled"@) is Some ==> switched_off(r) == (find(item, "enabled"@)
                == Some(Json::Bool(false)))
            &&& find(item, "enabled"@) is None ==> switched_off(r) == switched_off(f)
        }),
{
    broadcast use find_of_put;

    lemma_record_keys();
}

/// A record that an item makes is switched off exactly where the item says so.
pub proof fn new_record_is_enabled_as_told(
    s: Seq<Fields>,
    item: Json,
    proxy: Json,
    rules: RulesView,
    now: i64,
)
    requires
        item is Obj,
    ensures
        switched_off(new_record(s, item, proxy, rules, now)) == (field(item, "enabled"@) == Some(
            Json::Bool(false),
        )),
{
    broadcast use find_of_put;

    lemma_record_keys();
}

/// Exported and imported again, as a new account or over the old one, a record is enabled exactly
/// where it was before.
pub proof fn transfer_keeps_the_switch(
    s: Seq<Fields>,
    f: Fields,
    proxy: Json,
    rules: RulesView,
    now: i64,
)
    ensures
        switched_off(updated_record(f, exported(f), proxy, rules, now)) == switched_off(f),
        switched_off(new_record(s, Json::Obj(exported(f)), proxy, rules, now)) == switched_off(f),
{
    lemma_record_keys();
    reveal_strlit("enabled");
    lemma_under_score("enabled"@);
    export_keeps_what_leaves(f, "enabled"@);
    changed_record_is_enabled_as_told(f, exported(f), proxy, rules, now);
    new_record_is_enabled_as_told(s, Json::Obj(exported(f)), proxy, rules, now);
}

/// Imported over another state of the account, an exported record that says whether it is enabled
/// decides.
pub proof fn export_decides_the_switch(
    f: Fields,
    other: Fields,
    proxy: Json,
    rules: RulesView,
    now: i64,
)
    requires
        find(f, "enabled"@) is Some,
    ensures
        switched_off(updated_record(other, exported(f), proxy, rules, now)) == switched_off(f),
{
    lemma_record_keys();
    reveal_strlit("enabled");
    lemma_under_score("enabled"@);
    export_keeps_what_leaves(f, "enabled"@);
    changed_record_is_enabled_as_told(other, exported(f), proxy, rules, now);
}

/// The text that an item has under a key, without the space around it.
pub open spec fn said_by(item: Fields, key: Seq<char>) -> Seq<char> {
    trimmed(text_or_empty(find(item, key)))
}

/// What an item says is what the record holds: tokens, name, user data, times and proxy. A token
/// that the item does not have stays.
pub open spec fn taken_over(r: Fields, item: Fields, before: Fields, proxy: Json) -> bool {
    &&& says(item, "accessToken"@) && said_by(item, "accessToken"@).len() > 0 ==> find(
        r,
        "accessToken"@,
    ) == Some(Json::Str(said_by(item, "accessToken"@)))
    &&& find(item, "accessToken"@) is None || find(item, "accessToken"@) == Some(Json::Null)
        ==> text_or_empty(find(r, "accessToken"@)) == text_or_empty(find(before, "accessToken"@))
    &&& says(item, "refreshToken"@) && said_by(item, "refreshToken"@).len() > 0 ==> find(
        r,
        "refreshToken"@,
    ) == Some(Json::Str(said_by(item, "refreshToken"@)))
    &&& find(item, "refreshToken"@) is None || find(item, "refreshToken"@) == Some(Json::Null)
        ==> text_or_empty(find(r, "refreshToken"@)) == text_or_empty(find(before, "refreshToken"@))
    &&& says(item, "name"@) && 0 < said_by(item, "name"@).len() <= 100 ==> find(r, "name"@)
        == Some(Json::Str(said_by(item, "name"@)))
    &&& says(item, "nickname"@) ==> find(r, "nickname"@) == Some(
        Json::Str(said_by(item, "nickname"@)),
    )
    &&& says(item, "type"@) && said_by(item, "type"@).len() > 0 ==> find(r, "type"@) == Some(
        Json::Str(said_by(item, "type"@)),
    )
    &&& says(item, "enterpriseId"@) ==> find(r, "enterpriseId"@) == Some(
        Json::Str(said_by(item, "enterpriseId"@)),
    )
    &&& says(item, "enterpriseName"@) ==> find(r, "enterpriseName"@) == Some(
        Json::Str(said_by(item, "enterpriseName"@)),
    )
    &&& says(item, "domain"@) ==> find(r, "domain"@) == Some(Json::Str(said_by(item, "domain"@)))
    &&& says(item, "endpoint"@) ==> find(r, "endpoint"@) == find(item, "endpoint"@)
    &&& says(item, "prefixPath"@) ==> find(r, "prefixPath"@) == find(item, "prefixPath"@)
    &&& says(item, "platform"@) ==> find(r, "platform"@) == find(item, "platform"@)
    &&& says_time(item, "expiresAt"@) ==> find(r, "expiresAt"@) == find(item, "expiresAt"@)
    &&& says_time(item, "refreshExpiresAt"@) ==> find(r, "refreshExpiresAt"@) == find(
        item,
        "refreshExpiresAt"@,
    )
    &&& find(item, "proxy"@) is Some ==> find(r, "proxy"@) == Some(proxy)
}

/// A record that an item changes holds what the item says, and keeps its id, its user and its
/// place in the queue.
pub proof fn changed_record_is_taken_over(
    f: Fields,
    item: Fields,
    proxy: Json,
    rules: RulesView,
    now: i64,
)
    ensures
        ({
            let r = updated_record(f, item, proxy, rules, now);
            &&& taken_over(r, item, f, proxy)
            &&& find(r, "id"@) == find(f, "id"@)
            &&& find(r, "uid"@) == find(f, "uid"@)
            &&& find(r, "priority"@) == find(f, "priority"@)
            &&& find(r, "addedAt"@) == find(f, "addedAt"@)
            &&& find(r, "updatedAt"@) == Some(json_int(now as int))
        }),
{
    broadcast use find_of_put;

    lemma_record_keys();
}

proof fn lemma_import_entries(
    r: Fields,
    item: Fields,
    before: Option<Fields>,
    proxy: Json,
    rules: RulesView,
)
    ensures
        ({
            let n = normalized_import(r, item, before, proxy, rules);
            &&& find(n, "accessToken"@) == Some(
                Json::Str(imported_token(item, before, "accessToken"@)),
            )
            &&& find(n, "refreshToken"@) == Some(
                Json::Str(imported_token(item, before, "refreshToken"@)),
            )
            &&& find(n, "prefixPath"@) == Some(
                imported_route(
                    item,
                    "prefixPath"@,
                    str_of(before_field(before, "prefixPath"@)),
                    imported_edition(item, before, rules).prefix_path,
                ),
            )
            &&& find(n, "endpoint"@) == Some(
                imported_route(
                    item,
                    "endpoint"@,
                    filled_text(before_field(before, "endpoint"@)),
                    imported_edition(item, before, rules).endpoint,
                ),
            )
            &&& find(n, "platform"@) == Some(
                imported_route(
                    item,
                    "platform"@,
                    filled_text(before_field(before, "platform"@)),
                    imported_edition(item, before, rules).platform,
                ),
            )
            &&& find(n, "name"@) == Some(Json::Str(imported_name(item, before)))
            &&& find(n, "nickname"@) == Some(
                Json::Str(item_text(item, "nickname"@, old_text(before, "nickname"@))),
            )
            &&& find(n, "type"@) == Some(Json::Str(imported_type(item, before)))
            &&& find(n, "enterpriseId"@) == Some(
                Json::Str(item_text(item, "enterpriseId"@, old_text(before, "enterpriseId"@))),
            )
            &&& find(n, "enterpriseName"@) == Some(
                Json::Str(item_text(item, "enterpriseName"@, old_text(before, "enterpriseName"@))),
            )
            &&& find(n, "domain"@) == Some(
                Json::Str(item_text(item, "domain"@, old_text(before, "domain"@))),
            )
            &&& find(n, "expiresAt"@) == Some(imported_time(item, before, "expiresAt"@))
            &&& find(n, "refreshExpiresAt"@) == Some(
                imported_time(item, before, "refreshExpiresAt"@),
            )
            &&& find(n, "proxy"@) == Some(imported_proxy(item, before, proxy))
            &&& find(n, "id"@) == find(r, "id"@)
        }),
{
    broadcast use find_of_put;

    lemma_record_keys();
}

proof fn lemma_imported(r: Fields, item: Fields, proxy: Json, rules: RulesView)
    ensures
        taken_over(
            normalized_import(r, item, None, proxy, rules),
            item,
            Seq::empty(),
            proxy,
        ),
        find(normalized_import(r, item, None, proxy, rules), "name"@) matches Some(Json::Str(_)),
        find(normalized_import(r, item, None, proxy, rules), "id"@) == find(r, "id"@),
{
    lemma_import_entries(r, item, None, proxy, rules);
    reveal_strlit("personal");
}

/// A name for a record that has none does not matter to an import.
proof fn lemma_named_taken(r: Fields, item: Fields, proxy: Json, name: Json)
    requires
        taken_over(r, item, Seq::empty(), proxy),
        name_of(r).len() == 0,
    ensures
        ({
            let q = crate::json::put(r, "name"@, name);
            &&& taken_over(q, item, Seq::empty(), proxy)
            &&& find(q, "name"@) == Some(name)
            &&& find(q, "id"@) == find(r, "id"@)
            &&& find(q, "uid"@) == find(r, "uid"@)
            &&& find(q, "addedAt"@) == find(r, "addedAt"@)
            &&& find(q, "updatedAt"@) == find(r, "updatedAt"@)
        }),
{
    broadcast use find_of_put;

    lemma_record_keys();
}

/// Entries that an import does not read do not matter to it.
proof fn lemma_same_taken(r: Fields, q: Fields, item: Fields, proxy: Json, key: Seq<char>, v: Json)
    requires
        taken_over(r, item, Seq::empty(), proxy),
        q == crate::json::put(r, key, v),
        key == "uid"@ || key == "priority"@ || key == "addedAt"@ || key == "updatedAt"@,
    ensures
        taken_over(q, item, Seq::empty(), proxy),
        find(q, "name"@) == find(r, "name"@),
        find(q, "id"@) == find(r, "id"@),
        find(q, key) == Some(v),
        key != "uid"@ ==> find(q, "uid"@) == find(r, "uid"@),
        key != "addedAt"@ ==> find(q, "addedAt"@) == find(r, "addedAt"@),
{
    broadcast use find_of_put;

    lemma_record_keys();
}

/// A record that an item makes holds what the item says, and belongs to the item's user.
pub proof fn new_record_is_taken_over(
    s: Seq<Fields>,
    item: Fields,
    proxy: Json,
    rules: RulesView,
    now: i64,
)
    ensures
        ({
            let r = new_record(s, Json::Obj(item), proxy, rules, now);
            &&& taken_over(r, item, Seq::empty(), proxy)
            &&& find(r, "uid"@) == Some(Json::Str(said_by(item, "uid"@)))
            &&& find(r, "addedAt"@) == Some(json_int(now as int))
            &&& find(r, "updatedAt"@) == Some(json_int(now as int))
            &&& index_of(s, said_by(item, "id"@)) >= s.len() ==> find(r, "id"@) == Some(
                Json::Str(said_by(item, "id"@)),
            )
            &&& name_of(r).len() > 0
        }),
{
    reveal_strlit("账号 ");
    assert("账号 "@.len() == 3);
    let own = Json::Obj(item);
    let r0 = crate::json::put(Seq::empty(), "id"@, Json::Str(new_id(s, own)));
    let r1 = normalized_import(r0, item, None, proxy, rules);
    lemma_imported(r0, item, proxy, rules);
    let uid = Json::Str(said_by(item, "uid"@));
    let r2 = crate::json::put(r1, "uid"@, uid);
    lemma_same_taken(r1, r2, item, proxy, "uid"@, uid);
    let place = json_int(
        crate::account_store::priority::free_behind(
            crate::account_store::store_crud::priorities_of(s, rules.band),
            rules.band,
        ),
    );
    let r3 = crate::json::put(r2, "priority"@, place);
    lemma_same_taken(r2, r3, item, proxy, "priority"@, place);
    let time = json_int(now as int);
    let r4 = crate::json::put(r3, "addedAt"@, time);
    lemma_same_taken(r3, r4, item, proxy, "addedAt"@, time);
    let r5 = crate::json::put(r4, "updatedAt"@, time);
    lemma_same_taken(r4, r5, item, proxy, "updatedAt"@, time);
    assert(field(own, "uid"@) == find(item, "uid"@));
    assert(field(own, "id"@) == find(item, "id"@));
    lemma_record_keys();
    assert(r5 == new_fields(s, own, proxy, rules, now));
    crate::json::find_of_put(Seq::empty(), "id"@, Json::Str(new_id(s, own)), "id"@);
    let r = new_record(s, own, proxy, rules, now);
    if name_of(r5).len() == 0 {
        let name = Json::Str(
            crate::account_transfer::filled_or(
                text_or_empty(find(r5, "nickname"@)),
                "账号 "@ + crate::text::head(said_by(item, "uid"@), 8),
            ),
        );
        assert(r == crate::json::put(r5, "name"@, name));
        lemma_named_taken(r5, item, proxy, name);
    }
}

/// One item changes the record of its user and no other; where nobody is that user it adds a
/// record at the end. An item that is refused changes nothing and is reported.
pub proof fn item_changes_its_user_only(
    v: ImportView,
    item: Json,
    proxy: Json,
    rules: RulesView,
    now: i64,
)
    ensures
        ({
            let s = v.accounts;
            let w = import_step(v, item, proxy, rules, now);
            let uid = trimmed(text_or_empty(field(item, "uid"@)));
            let known = exists|k: int| 0 <= k < s.len() && holds_user(#[trigger] s[k], uid);
            &&& item_refusal(s, item) is Some ==> w.accounts == s && w.added == v.added && w.updated
                == v.updated && w.errors.len() == v.errors.len() + 1
            &&& item_refusal(s, item) is None && known ==> {
                &&& w.accounts.len() == s.len()
                &&& w.updated == v.updated + 1 && w.added == v.added && w.errors == v.errors
                &&& forall|k: int|
                    0 <= k < s.len() && !holds_user(s[k], uid) ==> #[trigger] w.accounts[k] == s[k]
                &&& exists|k: int|
                    0 <= k < s.len() && holds_user(#[trigger] s[k], uid) && w.accounts[k]
                        == updated_record(s[k], item->Obj_0, proxy, rules, now)
            }
            &&& item_refusal(s, item) is None && !known ==> {
                &&& w.accounts == s.push(new_record(s, item, proxy, rules, now))
                &&& w.added == v.added + 1 && w.updated == v.updated && w.errors == v.errors
            }
        }),
{
    let uid = trimmed(text_or_empty(field(item, "uid"@)));
    lemma_user_index(v.accounts, uid);
    let i = user_index(v.accounts, uid);
    if i < v.accounts.len() {
        assert(holds_user(v.accounts[i], uid));
    }
}

/// An item is taken exactly where it is an object with an id, a user and a token that is not too
/// long, and there is room for it.
pub proof fn proper_items_are_taken(s: Seq<Fields>, item: Json)
    ensures
        item_refusal(s, item) is None <==> {
            let access = trimmed(text_or_empty(field(item, "accessToken"@)));
            let refresh = trimmed(text_or_empty(field(item, "refreshToken"@)));
            let uid = trimmed(text_or_empty(field(item, "uid"@)));
            &&& item is Obj
            &&& trimmed(text_or_empty(field(item, "id"@))).len() > 0
            &&& uid.len() > 0
            &&& access.len() > 0 || refresh.len() > 0
            &&& access.len() <= 8192 && refresh.len() <= 8192
            &&& s.len() < 20 || exists|k: int| 0 <= k < s.len() && holds_user(#[trigger] s[k], uid)
        },
{
    let uid = trimmed(text_or_empty(field(item, "uid"@)));
    lemma_user_index(s, uid);
    if user_index(s, uid) < s.len() {
        assert(holds_user(s[user_index(s, uid)], uid));
    }
}

/// An export holds every field of a record as it is, the tokens among them, but for internal
/// fields and the limits that were met on this machine.
pub proof fn export_holds_the_record(f: Fields, key: Seq<char>)
    requires
        key.len() > 0,
    ensures
        key[0] == '_' ==> find(exported(f), key) is None,
        key == "rateLimits"@ ==> find(exported(f), key) is None,
        key[0] != '_' && key != "rateLimits"@ && find(f, key) is Some && find(f, key)->0 is Str
            ==> find(exported(f), key) == find(f, key),
        key[0] != '_' && key != "rateLimits"@ && key != "accessToken"@ && key != "refreshToken"@
            && key != "proxy"@ ==> find(exported(f), key) == find(f, key),
        find(exported(f), "proxy"@) == Some(
            match find(f, "proxy"@) {
                Some(v) => v,
                None => Json::Null,
            },
        ),
{
    broadcast use find_of_put;

    lemma_record_keys();
    reveal_strlit("_");
    reveal_strlit("accessToken");
    reveal_strlit("refreshToken");
    reveal_strlit("proxy");
    reveal_strlit("rateLimits");
    assert("_"@.len() == 1 && "_"@[0] == '_');
    assert("accessToken"@[0] == 'a' && "refreshToken"@[0] == 'r' && "proxy"@[0] == 'p'
        && "rateLimits"@[0] == 'r');
    if key[0] == '_' {
        assert(key.take(1) =~= "_"@);
        assert(crate::text::begins(key, "_"@));
        export_keeps_what_leaves(f, key);
    } else {
        if key != "rateLimits"@ {
            lemma_under_score(key);
        }
        if key != "accessToken"@ && key != "refreshToken"@ && key != "proxy"@ {
            export_keeps_what_leaves(f, key);
        }
    }
}

/// An import as a whole is refused exactly where it is no object or has no list with something in
/// it.
pub proof fn import_needs_a_list(payload: Json)
    ensures
        import_refusal(payload) is None <==> part_of(payload, "accounts"@) is Arr && part_of(
            payload,
            "accounts"@,
        )->Arr_0.len() > 0,
        import_refusal(payload) is None ==> import_items(payload) == Some(
            part_of(payload, "accounts"@)->Arr_0,
        ),
{
}

proof fn lemma_document_words()
    ensures
        "version"@.len() == 7,
        "exportedAt"@.len() == 10,
        "accounts"@.len() == 8,
        "total"@.len() == 5,
        "added"@.len() == 5,
        "updated"@.len() == 7,
        "skipped"@.len() == 7,
        "failed"@.len() == 6,
        "errors"@.len() == 6,
        "version"@ != "updated"@,
        "version"@ != "skipped"@,
        "total"@ != "added"@,
        "updated"@ != "skipped"@,
        "failed"@ != "errors"@,
{
    reveal_strlit("version");
    reveal_strlit("exportedAt");
    reveal_strlit("accounts");
    reveal_strlit("total");
    reveal_strlit("added");
    reveal_strlit("updated");
    reveal_strlit("skipped");
    reveal_strlit("failed");
    reveal_strlit("errors");
    assert("version"@[0] != "updated"@[0]);
    assert("version"@[0] != "skipped"@[0]);
    assert("total"@[0] != "added"@[0]);
    assert("updated"@[0] != "skipped"@[0]);
    assert("failed"@[0] != "errors"@[0]);
}

/// An export has every account, in the order of the file.
pub proof fn export_holds_every_account(s: Seq<Fields>, now: i64, i: int)
    requires
        0 <= i < s.len(),
    ensures
        ({
            let d = export_document(s, now);
            let all = part_of(d, "accounts"@)->Arr_0;
            &&& part_of(d, "version"@) == json_int(1)
            &&& part_of(d, "exportedAt"@) == json_int(now as int)
            &&& part_of(d, "accounts"@) is Arr
            &&& all.len() == s.len()
            &&& all[i] == Json::Obj(exported(s[i]))
        }),
{
    lemma_document_words();
    let o = export_document(s, now)->Obj_0;
    lemma_find_at(o, "version"@, 0);
    lemma_find_at(o, "exportedAt"@, 1);
    lemma_find_at(o, "accounts"@, 2);
}

/// The report of an import says how many items there were, how many were added, changed and
/// refused, and why.
pub proof fn import_is_reported(total: nat, v: ImportView)
    ensures
        ({
            let r = import_report(total, v);
            &&& part_of(r, "total"@) == json_int(total as int)
            &&& part_of(r, "added"@) == json_int(v.added as int)
            &&& part_of(r, "updated"@) == json_int(v.updated as int)
            &&& part_of(r, "failed"@) == json_int(v.errors.len() as int)
            &&& part_of(r, "errors"@) == Json::Arr(v.errors)
        }),
{
    lemma_document_words();
    let o = import_report(total, v)->Obj_0;
    lemma_find_at(o, "total"@, 0);
    lemma_find_at(o, "added"@, 1);
    lemma_find_at(o, "updated"@, 2);
    lemma_find_at(o, "failed"@, 4);
    lemma_find_at(o, "errors"@, 5);
}

} // verus!
