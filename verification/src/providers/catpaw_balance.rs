//! The balance of a CatPaw account: what is asked, and what the reply means.
//!
//! The balance is asked for with a web session's token. It is taken from the account's own setting
//! or from what an import of old data left behind. An account with neither is not at fault: its
//! balance is just not configured.
use vstd::prelude::*;
use crate::account_store::state::{find_index, index_of, provider_of, records, StoredAccount};
use crate::account_store::store::AccountStore;
use crate::js::{either, double_value, double_number};
use crate::json::{
    dup_or_null, field, find, list_view, number_of, or_null, push_value, read_number, seen,
    text_in, text_or_empty, text_view, Fields, Json, JsonValue, Object,
};
use crate::number::number_as_i64;
use crate::text::{concat, decimal, decimal_i64, same, trim, trimmed};

verus! {

/// How long the request may take.
pub const REQUEST_TIMEOUT_MS: u64 = 15_000;

/// Why there is no balance.
pub enum BalanceError {
    /// There is no such account, or it is another provider's.
    NoAccount,
    /// The account has no token to ask with.
    NotConfigured,
    /// The request failed, or its reply was no balance.
    Failed { status: i32, message: String },
}

/// The plain value of a [`BalanceError`].
pub enum BalanceFault {
    NoAccount,
    NotConfigured,
    Failed(i32, Seq<char>),
}

impl View for BalanceError {
    type V = BalanceFault;

    open spec fn view(&self) -> BalanceFault {
        match self {
            BalanceError::NoAccount => BalanceFault::NoAccount,
            BalanceError::NotConfigured => BalanceFault::NotConfigured,
            BalanceError::Failed { status, message } => BalanceFault::Failed(*status, message@),
        }
    }
}

impl BalanceError {
    /// The status that the caller answers with.
    pub fn status(&self) -> (r: i32)
        ensures
            r == match self@ {
                BalanceFault::NoAccount => 404,
                BalanceFault::NotConfigured => 400,
                BalanceFault::Failed(status, _) => status,
            },
    {
        match self {
            BalanceError::NoAccount => 404,
            BalanceError::NotConfigured => 400,
            BalanceError::Failed { status, .. } => *status,
        }
    }
}

// ─── The request ─────────────────────────────────────────────

/// A trimmed text that is not empty.
pub open spec fn trimmed_fill(v: Option<Json>) -> Option<Seq<char>> {
    let text = trimmed(text_or_empty(v));
    if text.len() > 0 {
        Some(text)
    } else {
        None
    }
}

/// What an import of old data left under a key.
pub open spec fn left_behind(record: Fields, key: Seq<char>) -> Option<Json> {
    match find(record, "balanceCookie"@) {
        Some(cookie) => field(cookie, key),
        None => None,
    }
}

/// The token that the balance is asked with.
pub open spec fn balance_token(record: Fields) -> Option<Seq<char>> {
    either(
        trimmed_fill(find(record, "balanceToken"@)),
        trimmed_fill(left_behind(record, "token2"@)),
    )
}

/// The user that the balance is asked for; empty where nobody says.
pub open spec fn balance_uid(record: Fields) -> Seq<char> {
    match either(trimmed_fill(find(record, "uid"@)), trimmed_fill(left_behind(record, "uid"@))) {
        Some(s) => s,
        None => Seq::empty(),
    }
}

/// The cookies: the token under each of four names, and the user under two where there is one.
pub open spec fn cookie_of(token: Seq<char>, uid: Seq<char>) -> Seq<char> {
    let tokens = "token2="@ + token + "; mt_c_token="@ + token + "; isid="@ + token + "; oops="@
        + token;
    if uid.len() > 0 {
        tokens + "; u="@ + uid + "; userId="@ + uid
    } else {
        tokens
    }
}

pub open spec fn browser() -> Seq<char> {
    "Mozilla/5.0 (Windows NT 10.0; Win64; x64) AppleWebKit/537.36 (KHTML, like Gecko) Chrome/151.0.0.0 Safari/537.36"@
}

/// The headers of the request.
pub open spec fn headers_of(record: Fields) -> Seq<(Seq<char>, Seq<char>)> {
    seq![
        ("Accept"@, "application/json, text/plain, */*"@),
        ("Cookie"@, cookie_of(balance_token(record)->0, balance_uid(record))),
        ("Referer"@, "https://credit.catpaw.meituan.com/"@),
        ("User-Agent"@, browser()),
    ]
}

/// The plain value of some headers.
pub open spec fn headers_view(headers: Seq<(String, String)>) -> Seq<(Seq<char>, Seq<char>)> {
    headers.map_values(|h: (String, String)| (h.0@, h.1@))
}

/// Where the balance is asked for.
pub fn balance_url() -> (out: String)
    ensures
        out@ == "https://credit.catpaw.meituan.com/api/credit/balance"@,
{
    "https://credit.catpaw.meituan.com/api/credit/balance".to_owned()
}

fn filled(v: Option<&JsonValue>) -> (r: Option<String>)
    ensures
        text_view(r) == trimmed_fill(seen(v)),
{
    let text = trim(text_in(v).as_str());
    if text.as_str().is_empty() {
        None
    } else {
        Some(text)
    }
}

fn left<'a>(record: &'a StoredAccount, key: &str) -> (r: Option<&'a JsonValue>)
    ensures
        seen(r) == left_behind(record@, key@),
{
    match record.get("balanceCookie") {
        Some(cookie) => cookie.get(key),
        None => None,
    }
}

/// [`balance_token`].
pub fn balance_token_of(record: &StoredAccount) -> (r: Option<String>)
    ensures
        text_view(r) == balance_token(record@),
{
    match filled(record.get("balanceToken")) {
        Some(s) => Some(s),
        None => filled(left(record, "token2")),
    }
}

/// Where the account stands that a balance is asked of, if it is CatPaw's.
pub open spec fn asked_account(s: Seq<Fields>, id: Seq<char>) -> Option<int> {
    let i = index_of(s, id);
    if i < s.len() && provider_of(s[i]) == "catpaw"@ {
        Some(i)
    } else {
        None
    }
}

fn header(name: &str, value: String) -> (h: (String, String))
    ensures
        h.0@ == name@,
        h.1@ == value@,
{
    (name.to_owned(), value)
}

/// The headers that the balance of an account is asked with.
pub fn balance_request(store: &AccountStore, account_id: &str) -> (r: Result<
    Vec<(String, String)>,
    BalanceError,
>)
    ensures
        ({
            let s = store.state@.accounts;
            match asked_account(s, account_id@) {
                None => r is Err && r->Err_0@ == BalanceFault::NoAccount,
                Some(i) => if balance_token(s[i]) is None {
                    r is Err && r->Err_0@ == BalanceFault::NotConfigured
                } else {
                    r is Ok && headers_view(r->Ok_0@) == headers_of(s[i])
                },
            }
        }),
{
    let at = find_index(&store.state.accounts, account_id);
    assert(records(store.state.accounts@).len() == store.state.accounts@.len());
    if at >= store.state.accounts.len() {
        return Err(BalanceError::NoAccount);
    }
    let record = &store.state.accounts[at];
    assert(store.state@.accounts[at as int] == record@);
    if !same(record.provider().as_str(), "catpaw") {
        return Err(BalanceError::NoAccount);
    }
    let token = match balance_token_of(record) {
        Some(token) => token,
        None => {
            return Err(BalanceError::NotConfigured);
        },
    };
    let uid = match filled(record.get("uid")) {
        Some(s) => s,
        None => match filled(left(record, "uid")) {
            Some(s) => s,
            None => {
                let none = String::new();
                assert(none@ =~= Seq::empty());
                none
            },
        },
    };
    let mut cookie = concat("token2=", token.as_str());
    cookie.append("; mt_c_token=");
    cookie.append(token.as_str());
    cookie.append("; isid=");
    cookie.append(token.as_str());
    cookie.append("; oops=");
    cookie.append(token.as_str());
    if !uid.as_str().is_empty() {
        cookie.append("; u=");
        cookie.append(uid.as_str());
        cookie.append("; userId=");
        cookie.append(uid.as_str());
    }
    assert(cookie@ == cookie_of(token@, uid@));
    let mut headers: Vec<(String, String)> = Vec::new();
    headers.push(header("Accept", "application/json, text/plain, */*".to_owned()));
    headers.push(header("Cookie", cookie));
    headers.push(header("Referer", "https://credit.catpaw.meituan.com/".to_owned()));
    headers.push(
        header(
            "User-Agent",
            "Mozilla/5.0 (Windows NT 10.0; Win64; x64) AppleWebKit/537.36 (KHTML, like Gecko) Chrome/151.0.0.0 Safari/537.36".to_owned(),
        ),
    );
    assert(headers_view(headers@) =~= headers_of(record@));
    Ok(headers)
}

/// What a request that got no reply is answered with.
pub fn unanswered(timed_out: bool, error: &str) -> (out: BalanceError)
    ensures
        out@ == if timed_out {
            BalanceFault::Failed(504, "余额查询超时"@)
        } else {
            BalanceFault::Failed(502, "余额查询请求失败: "@ + error@)
        },
{
    if timed_out {
        BalanceError::Failed { status: 504, message: "余额查询超时".to_owned() }
    } else {
        BalanceError::Failed { status: 502, message: concat("余额查询请求失败: ", error) }
    }
}

// ─── The reply ───────────────────────────────────────────────

/// The code that the reply carries.
pub open spec fn reply_code(payload: Json) -> Option<i64> {
    match field(payload, "code"@) {
        Some(Json::Num(n)) => number_as_i64(n),
        _ => None,
    }
}

/// What a reply with a bad code says.
pub open spec fn bad_reply_message(payload: Json) -> Seq<char> {
    let said = text_or_empty(field(payload, "message"@));
    if said.len() > 0 {
        said
    } else {
        match reply_code(payload) {
            Some(code) => "余额查询返回异常"@ + (" code="@ + decimal(code as int)),
            None => "余额查询返回异常"@,
        }
    }
}

/// One line of the balance, where the reply has a number for it.
pub open spec fn wallet(data: Json, kind: Seq<char>, label: Seq<char>, key: Seq<char>) -> Seq<Json> {
    match number_of(field(data, key)) {
        Some(n) => seq![
            Json::Obj(
                seq![
                    ("type"@, Json::Str(kind)),
                    ("displayName"@, Json::Str(label)),
                    ("balance"@, double_number(n)),
                ],
            ),
        ],
        None => Seq::empty(),
    }
}

pub open spec fn wallets_of(data: Json) -> Seq<Json> {
    wallet(data, "total"@, "总额度"@, "totalCredits"@) + wallet(
        data,
        "available"@,
        "可用"@,
        "availableCredits"@,
    ) + wallet(data, "frozen"@, "冻结"@, "frozenCredits"@) + wallet(
        data,
        "expired"@,
        "已过期"@,
        "expiredCredits"@,
    )
}

/// A number, or null where there is none.
pub open spec fn number_or_null_of(v: Option<Json>) -> Json {
    match number_of(v) {
        Some(n) => double_number(n),
        None => Json::Null,
    }
}

/// The balance in the shape that all providers share.
pub open spec fn usage_of(data: Json) -> Json {
    Json::Obj(
        seq![
            ("available"@, number_or_null_of(field(data, "availableCredits"@))),
            ("unit"@, Json::Str("credits"@)),
            ("wallets"@, Json::Arr(wallets_of(data))),
            ("subscription"@, Json::Null),
            ("raw"@, Json::Obj(seq![("balance"@, data)])),
        ],
    )
}

/// What a reply means. `ok` says that its status is one of success.
pub open spec fn reply_meaning(status: i64, ok: bool, payload: Json) -> Result<Json, BalanceFault> {
    let data = or_null(field(payload, "data"@));
    if status == 401 || reply_code(payload) == Some(401i64) {
        Err(BalanceFault::Failed(401, "余额查询凭证已过期，请在账号设置里更新 token2"@))
    } else if !ok {
        Err(BalanceFault::Failed(502, "余额查询返回 HTTP "@ + decimal(status as int)))
    } else if reply_code(payload) != Some(0i64) || data == Json::Null {
        Err(BalanceFault::Failed(502, bad_reply_message(payload)))
    } else {
        Ok(usage_of(data))
    }
}

fn push_wallet(wallets: &mut Vec<JsonValue>, data: &JsonValue, kind: &str, label: &str, key: &str)
    ensures
        list_view(*final(wallets)) == list_view(*old(wallets)) + wallet(data@, kind@, label@, key@),
{
    let ghost before = list_view(*wallets);
    if let Some(n) = read_number(data.get(key)) {
        let mut o = Object::new();
        o.push("type", JsonValue::text(kind));
        o.push("displayName", JsonValue::text(label));
        o.push("balance", double_value(&n));
        assert(o@ =~= wallet(data@, kind@, label@, key@)[0]->Obj_0);
        push_value(wallets, JsonValue::Obj(o));
    }
    assert(list_view(*wallets) =~= before + wallet(data@, kind@, label@, key@));
}

fn number_or_null(v: Option<&JsonValue>) -> (out: JsonValue)
    ensures
        out@ == number_or_null_of(seen(v)),
{
    match read_number(v) {
        Some(n) => double_value(&n),
        None => JsonValue::Null,
    }
}

fn bad_reply(payload: &JsonValue, code: Option<i64>) -> (out: String)
    requires
        code == reply_code(payload@),
    ensures
        out@ == bad_reply_message(payload@),
{
    let said = text_in(payload.get("message"));
    if !said.as_str().is_empty() {
        return said;
    }
    match code {
        Some(code) => concat(
            "余额查询返回异常",
            concat(" code=", decimal_i64(code).as_str()).as_str(),
        ),
        None => "余额查询返回异常".to_owned(),
    }
}

/// [`reply_meaning`].
pub fn balance_reply(status: i64, ok: bool, payload: &JsonValue) -> (r: Result<
    JsonValue,
    BalanceError,
>)
    ensures
        match reply_meaning(status, ok, payload@) {
            Ok(v) => r is Ok && r->Ok_0@ == v,
            Err(e) => r is Err && r->Err_0@ == e,
        },
{
    let code = match payload.get("code") {
        Some(v) => v.as_i64(),
        None => None,
    };
    let is_expired = match code {
        Some(c) => c == 401,
        None => false,
    };
    if status == 401 || is_expired {
        return Err(
            BalanceError::Failed {
                status: 401,
                message: "余额查询凭证已过期，请在账号设置里更新 token2".to_owned(),
            },
        );
    }
    if !ok {
        return Err(
            BalanceError::Failed {
                status: 502,
                message: concat("余额查询返回 HTTP ", decimal_i64(status).as_str()),
            },
        );
    }
    let data = dup_or_null(payload.get("data"));
    let is_zero = match code {
        Some(c) => c == 0,
        None => false,
    };
    if !is_zero || data.is_null() {
        return Err(BalanceError::Failed { status: 502, message: bad_reply(payload, code) });
    }
    let mut wallets: Vec<JsonValue> = Vec::new();
    assert(list_view(wallets) =~= Seq::empty());
    push_wallet(&mut wallets, &data, "total", "总额度", "totalCredits");
    push_wallet(&mut wallets, &data, "available", "可用", "availableCredits");
    push_wallet(&mut wallets, &data, "frozen", "冻结", "frozenCredits");
    push_wallet(&mut wallets, &data, "expired", "已过期", "expiredCredits");
    assert(list_view(wallets) =~= wallets_of(data@));
    let ghost usage = usage_of(data@)->Obj_0;
    let mut raw = Object::new();
    let available = number_or_null(data.get("availableCredits"));
    raw.push("balance", data);
    assert(raw@ =~= usage[4].1->Obj_0);
    let mut o = Object::new();
    o.push("available", available);
    o.push("unit", JsonValue::text("credits"));
    o.push("wallets", JsonValue::Arr(wallets));
    o.push("subscription", JsonValue::Null);
    o.push("raw", JsonValue::Obj(raw));
    assert(o@ =~= usage);
    Ok(JsonValue::Obj(o))
}

} // verus!
