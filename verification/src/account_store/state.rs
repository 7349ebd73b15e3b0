//! The records of the account file: the JSON object as it is, and forgiving readers of its fields.
use vstd::prelude::*;
use crate::account_store::default_provider;
use crate::account_store::priority::{normalize_priority, priority_from, PriorityBand, DEFAULT_PRIORITY};
use crate::js::{filled_text, optional_text};
use crate::json::{
    dup_or_null, find, json_int, number_of, number_view, or_null, put, read_number, seen, str_of,
    text_in, text_or_empty, text_view, without, Fields, Json, JsonValue, Object,
};
use crate::number::{number_positive, number_to_i64, Number, NumberView};
use crate::order::SortKey;
use crate::text::{i64_of_text, parse_i64, same, trim, trimmed};

verus! {

/// One account record.
pub struct StoredAccount {
    pub fields: Object,
}

impl View for StoredAccount {
    type V = Fields;

    open spec fn view(&self) -> Fields {
        self.fields@
    }
}

/// All that the account file holds.
pub struct AccountState {
    pub accounts: Vec<StoredAccount>,
    pub priority_scope: Option<String>,
}

/// The plain value of an [`AccountState`].
pub struct StateView {
    pub accounts: Seq<Fields>,
    pub scope: Option<Seq<char>>,
}

/// The plain values of some records.
pub open spec fn records(accounts: Seq<StoredAccount>) -> Seq<Fields> {
    accounts.map_values(|a: StoredAccount| a@)
}

impl View for AccountState {
    type V = StateView;

    open spec fn view(&self) -> StateView {
        StateView { accounts: records(self.accounts@), scope: text_view(self.priority_scope) }
    }
}

/// The mark that priorities are numbered over all providers.
pub open spec fn global_scope() -> Seq<char> {
    "global"@
}

// ─── What the fields of a record mean ────────────────────────

pub open spec fn id_of(f: Fields) -> Seq<char> {
    text_or_empty(find(f, "id"@))
}

pub open spec fn name_of(f: Fields) -> Seq<char> {
    text_or_empty(find(f, "name"@))
}

/// A record is enabled unless it says otherwise.
pub open spec fn enabled_of(f: Fields) -> bool {
    find(f, "enabled"@) != Some(Json::Bool(false))
}

pub open spec fn has_token_of(f: Fields) -> bool {
    text_or_empty(find(f, "accessToken"@)).len() > 0
}

/// A record whose credentials are read from the desktop client when they are needed.
pub open spec fn desktop_of(f: Fields) -> bool {
    find(f, "desktop"@) == Some(Json::Bool(true))
}

pub open spec fn has_credentials_of(f: Fields) -> bool {
    has_token_of(f) || desktop_of(f)
}

pub open spec fn provider_of(f: Fields) -> Seq<char> {
    match filled_text(find(f, "provider"@)) {
        Some(s) => s,
        None => default_provider(),
    }
}

/// A number greater than zero, or a text that denotes one.
pub open spec fn positive_of(v: Option<Json>) -> Option<NumberView> {
    match number_of(v) {
        Some(n) => if number_positive(n) {
            Some(n)
        } else {
            None
        },
        None => None,
    }
}

/// An integer: a number without its fraction, a text that denotes one, or zero.
pub open spec fn integer_of(v: Option<Json>) -> int {
    match v {
        Some(Json::Num(n)) => number_to_i64(n),
        Some(Json::Str(s)) => match i64_of_text(trimmed(s)) {
            Some(n) => n as int,
            None => 0,
        },
        _ => 0,
    }
}

pub open spec fn priority_of(f: Fields, band: PriorityBand) -> int {
    priority_from(find(f, "priority"@), DEFAULT_PRIORITY as int, band)
}

pub open spec fn added_at_of(f: Fields) -> int {
    integer_of(find(f, "addedAt"@))
}

/// What the queue is ordered by: priority, then the time at which the account was added.
pub open spec fn order_key_of(f: Fields, band: PriorityBand) -> SortKey {
    SortKey { rank: 0, major: priority_of(f, band) as i64, minor: added_at_of(f) as i64 }
}

/// A priority that is set is read back, where it lies in the band.
pub proof fn priority_reads_back(f: Fields, priority: i64, band: PriorityBand)
    requires
        band.lowest <= priority <= band.highest,
        -(crate::number::EXACT_BELOW as int) < priority < crate::number::EXACT_BELOW,
    ensures
        priority_of(put(f, "priority"@, json_int(priority as int)), band) == priority,
{
    crate::json::find_of_put(f, "priority"@, json_int(priority as int), "priority"@);
    crate::number::small_integers_are_doubles(priority as int);
}

fn integer_in(v: Option<&JsonValue>) -> (r: i64)
    ensures
        r == integer_of(seen(v)),
{
    match v {
        Some(JsonValue::Num(n)) => n.to_i64(),
        Some(JsonValue::Str(s)) => match parse_i64(trim(s.as_str()).as_str()) {
            Some(n) => n,
            None => 0,
        },
        _ => 0,
    }
}

fn positive_number(v: Option<&JsonValue>) -> (r: Option<Number>)
    ensures
        number_view(r) == positive_of(seen(v)),
{
    match read_number(v) {
        Some(n) => if n.is_positive() {
            Some(n)
        } else {
            None
        },
        None => None,
    }
}

impl StoredAccount {
    pub fn from_map(fields: Object) -> (out: StoredAccount)
        ensures
            out@ == fields@,
    {
        StoredAccount { fields }
    }

    /// A record is an object with a filled text under `id`.
    pub fn from_value(value: JsonValue) -> (r: Option<StoredAccount>)
        ensures
            match r {
                Some(a) => value@ == Json::Obj(a@) && id_of(a@).len() > 0,
                None => match value@ {
                    Json::Obj(o) => id_of(o).len() == 0,
                    _ => true,
                },
            },
    {
        match value {
            JsonValue::Obj(fields) => {
                if text_in(fields.get("id")).as_str().is_empty() {
                    None
                } else {
                    Some(StoredAccount { fields })
                }
            },
            _ => None,
        }
    }

    pub fn to_value(&self) -> (out: JsonValue)
        ensures
            out@ == Json::Obj(self@),
    {
        JsonValue::Obj(self.fields.dup())
    }

    pub fn dup(&self) -> (out: StoredAccount)
        ensures
            out@ == self@,
    {
        StoredAccount { fields: self.fields.dup() }
    }

    pub fn fields(&self) -> (out: &Object)
        ensures
            out@ == self@,
    {
        &self.fields
    }

    pub fn fields_mut(&mut self) -> (out: &mut Object)
        ensures
            out@ == old(self)@,
            final(self)@ == final(out)@,
    {
        &mut self.fields
    }

    pub fn id(&self) -> (out: String)
        ensures
            out@ == id_of(self@),
    {
        text_in(self.fields.get("id"))
    }

    pub fn name(&self) -> (out: String)
        ensures
            out@ == name_of(self@),
    {
        text_in(self.fields.get("name"))
    }

    pub fn uid(&self) -> (out: String)
        ensures
            out@ == text_or_empty(find(self@, "uid"@)),
    {
        text_in(self.fields.get("uid"))
    }

    pub fn nickname(&self) -> (out: String)
        ensures
            out@ == text_or_empty(find(self@, "nickname"@)),
    {
        text_in(self.fields.get("nickname"))
    }

    /// A personal account unless the record names another type.
    pub fn account_type(&self) -> (out: String)
        ensures
            out@ == type_of(self@),
    {
        match optional_text(self.fields.get("type")) {
            Some(s) => s,
            None => "personal".to_owned(),
        }
    }

    pub fn enterprise_id(&self) -> (out: String)
        ensures
            out@ == text_or_empty(find(self@, "enterpriseId"@)),
    {
        text_in(self.fields.get("enterpriseId"))
    }

    pub fn enterprise_name(&self) -> (out: String)
        ensures
            out@ == text_or_empty(find(self@, "enterpriseName"@)),
    {
        text_in(self.fields.get("enterpriseName"))
    }

    pub fn access_token(&self) -> (out: String)
        ensures
            out@ == text_or_empty(find(self@, "accessToken"@)),
    {
        text_in(self.fields.get("accessToken"))
    }

    pub fn refresh_token(&self) -> (out: String)
        ensures
            out@ == text_or_empty(find(self@, "refreshToken"@)),
    {
        text_in(self.fields.get("refreshToken"))
    }

    pub fn expires_at(&self) -> (r: Option<Number>)
        ensures
            number_view(r) == positive_of(find(self@, "expiresAt"@)),
    {
        positive_number(self.fields.get("expiresAt"))
    }

    pub fn refresh_expires_at(&self) -> (r: Option<Number>)
        ensures
            number_view(r) == positive_of(find(self@, "refreshExpiresAt"@)),
    {
        positive_number(self.fields.get("refreshExpiresAt"))
    }

    pub fn domain(&self) -> (out: String)
        ensures
            out@ == text_or_empty(find(self@, "domain"@)),
    {
        text_in(self.fields.get("domain"))
    }

    pub fn edition(&self) -> (r: Option<String>)
        ensures
            text_view(r) == filled_text(find(self@, "edition"@)),
    {
        optional_text(self.fields.get("edition"))
    }

    /// An empty text is a prefix path of its own.
    pub fn prefix_path(&self) -> (r: Option<String>)
        ensures
            text_view(r) == str_of(find(self@, "prefixPath"@)),
    {
        match self.fields.get("prefixPath") {
            Some(JsonValue::Str(s)) => Some(s.clone()),
            _ => None,
        }
    }

    pub fn endpoint(&self) -> (r: Option<String>)
        ensures
            text_view(r) == filled_text(find(self@, "endpoint"@)),
    {
        optional_text(self.fields.get("endpoint"))
    }

    pub fn platform(&self) -> (r: Option<String>)
        ensures
            text_view(r) == filled_text(find(self@, "platform"@)),
    {
        optional_text(self.fields.get("platform"))
    }

    /// The provider that the record names.
    pub fn provider_explicit(&self) -> (r: Option<String>)
        ensures
            text_view(r) == filled_text(find(self@, "provider"@)),
    {
        optional_text(self.fields.get("provider"))
    }

    pub fn provider(&self) -> (out: String)
        ensures
            out@ == provider_of(self@),
    {
        match self.provider_explicit() {
            Some(s) => s,
            None => "workbuddy".to_owned(),
        }
    }

    pub fn set_provider(&mut self, provider: &str)
        ensures
            final(self)@ == put(old(self)@, "provider"@, Json::Str(provider@)),
    {
        self.set("provider", JsonValue::text(provider));
    }

    pub fn priority(&self, band: PriorityBand) -> (r: i64)
        ensures
            r == priority_of(self@, band),
    {
        normalize_priority(self.fields.get("priority"), DEFAULT_PRIORITY, band)
    }

    pub fn set_priority(&mut self, priority: i64)
        ensures
            final(self)@ == put(old(self)@, "priority"@, json_int(priority as int)),
    {
        self.set("priority", JsonValue::integer(priority));
    }

    pub fn enabled(&self) -> (r: bool)
        ensures
            r == enabled_of(self@),
    {
        match self.fields.get("enabled") {
            Some(JsonValue::Bool(false)) => false,
            _ => true,
        }
    }

    pub fn set_enabled(&mut self, enabled: bool)
        ensures
            final(self)@ == put(old(self)@, "enabled"@, Json::Bool(enabled)),
    {
        self.set("enabled", JsonValue::Bool(enabled));
    }

    pub fn added_at(&self) -> (r: i64)
        ensures
            r == added_at_of(self@),
    {
        integer_in(self.fields.get("addedAt"))
    }

    pub fn updated_at(&self) -> (r: i64)
        ensures
            r == integer_of(find(self@, "updatedAt"@)),
    {
        integer_in(self.fields.get("updatedAt"))
    }

    pub fn set_updated_at(&mut self, value: i64)
        ensures
            final(self)@ == put(old(self)@, "updatedAt"@, json_int(value as int)),
    {
        self.set("updatedAt", JsonValue::integer(value));
    }

    pub fn proxy(&self) -> (out: JsonValue)
        ensures
            out@ == or_null(find(self@, "proxy"@)),
    {
        dup_or_null(self.fields.get("proxy"))
    }

    pub fn set_proxy(&mut self, proxy: JsonValue)
        ensures
            final(self)@ == put(old(self)@, "proxy"@, proxy@),
    {
        self.set("proxy", proxy);
    }

    pub fn has_token(&self) -> (r: bool)
        ensures
            r == has_token_of(self@),
    {
        !self.access_token().as_str().is_empty()
    }

    pub fn is_desktop(&self) -> (r: bool)
        ensures
            r == desktop_of(self@),
    {
        match self.fields.get("desktop") {
            Some(JsonValue::Bool(true)) => true,
            _ => false,
        }
    }

    pub fn has_credentials(&self) -> (r: bool)
        ensures
            r == has_credentials_of(self@),
    {
        self.has_token() || self.is_desktop()
    }

    pub fn order_key(&self, band: PriorityBand) -> (r: SortKey)
        ensures
            r == order_key_of(self@, band),
    {
        SortKey { rank: 0, major: self.priority(band), minor: self.added_at() }
    }

    pub fn set(&mut self, key: &str, value: JsonValue)
        ensures
            final(self)@ == put(old(self)@, key@, value@),
    {
        self.fields.insert(key, value);
    }

    pub fn remove(&mut self, key: &str)
        ensures
            final(self)@ == without(old(self)@, key@),
    {
        self.fields.remove(key);
    }

    pub fn get(&self, key: &str) -> (r: Option<&JsonValue>)
        ensures
            seen(r) == find(self@, key@),
    {
        self.fields.get(key)
    }
}

pub open spec fn type_of(f: Fields) -> Seq<char> {
    match filled_text(find(f, "type"@)) {
        Some(s) => s,
        None => "personal"@,
    }
}

// ─── Records by id ───────────────────────────────────────────

/// Where the first record with `id` stands; the number of records where there is none.
pub open spec fn index_of(s: Seq<Fields>, id: Seq<char>) -> int
    decreases s.len(),
{
    if s.len() == 0 || id_of(s[0]) == id {
        0
    } else {
        1 + index_of(s.drop_first(), id)
    }
}

/// What [`index_of`] means.
pub proof fn index_of_is_first(s: Seq<Fields>, id: Seq<char>)
    ensures
        0 <= index_of(s, id) <= s.len(),
        index_of(s, id) < s.len() ==> id_of(s[index_of(s, id)]) == id,
        forall|k: int| 0 <= k < index_of(s, id) ==> id_of(#[trigger] s[k]) != id,
    decreases s.len(),
{
    if s.len() > 0 && id_of(s[0]) != id {
        index_of_is_first(s.drop_first(), id);
        assert forall|k: int| 0 <= k < index_of(s, id) implies id_of(#[trigger] s[k]) != id by {
            if k > 0 {
                assert(s.drop_first()[k - 1] == s[k]);
            }
        }
    }
}

/// [`index_of`].
pub fn find_index(accounts: &Vec<StoredAccount>, id: &str) -> (at: usize)
    ensures
        at == index_of(records(accounts@), id@),
        at <= accounts@.len(),
{
    let ghost all = records(accounts@);
    assert(all.skip(0) =~= all);
    let mut i: usize = 0;
    while i < accounts.len()
        invariant
            i <= accounts@.len(),
            all == records(accounts@),
            index_of(all, id@) == i + index_of(all.skip(i as int), id@),
        decreases accounts@.len() - i,
    {
        assert(all.skip(i as int)[0] == accounts@[i as int]@);
        assert(all.skip(i as int).drop_first() =~= all.skip(i + 1));
        if same(accounts[i].id().as_str(), id) {
            return i;
        }
        i = i + 1;
    }
    i
}

/// The same records again.
pub fn dup_accounts(accounts: &Vec<StoredAccount>) -> (out: Vec<StoredAccount>)
    ensures
        records(out@) == records(accounts@),
{
    let mut out: Vec<StoredAccount> = Vec::new();
    let ghost all = records(accounts@);
    assert(records(out@) =~= all.take(0));
    for i in 0..accounts.len()
        invariant
            all == records(accounts@),
            records(out@) == all.take(i as int),
    {
        let ghost before = out@;
        out.push(accounts[i].dup());
        assert(records(out@) =~= records(before).push(out@.last()@));
        assert(all.take(i + 1) =~= all.take(i as int).push(all[i as int]));
    }
    assert(records(out@) =~= all);
    out
}

/// The records whose id is not `id`.
pub open spec fn others_than(s: Seq<Fields>, id: Seq<char>) -> Seq<Fields>
    decreases s.len(),
{
    if s.len() == 0 {
        s
    } else if id_of(s.last()) == id {
        others_than(s.drop_last(), id)
    } else {
        others_than(s.drop_last(), id).push(s.last())
    }
}

/// [`others_than`].
pub fn all_but(accounts: &Vec<StoredAccount>, id: &str) -> (out: Vec<StoredAccount>)
    ensures
        records(out@) == others_than(records(accounts@), id@),
{
    let mut out: Vec<StoredAccount> = Vec::new();
    let ghost all = records(accounts@);
    assert(records(out@) =~= others_than(all.take(0), id@));
    for i in 0..accounts.len()
        invariant
            all == records(accounts@),
            records(out@) == others_than(all.take(i as int), id@),
    {
        assert(all.take(i + 1).drop_last() =~= all.take(i as int));
        if !same(accounts[i].id().as_str(), id) {
            let ghost before = out@;
            out.push(accounts[i].dup());
            assert(records(out@) =~= records(before).push(out@.last()@));
        }
    }
    assert(all.take(all.len() as int) =~= all);
    out
}

} // verus!
