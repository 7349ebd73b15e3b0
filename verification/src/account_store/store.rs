//! The store itself: which account is the current one, what a request takes from a record, and
//! what of a record is shown.
use vstd::prelude::*;
use crate::account_store::priority::PriorityBand;
use crate::account_store::state::{
    added_at_of, enabled_of, find_index, has_credentials_of, id_of, index_of, integer_of, name_of,
    order_key_of, positive_of, priority_of, provider_of, records, type_of, AccountState, StateView,
    StoredAccount,
};
use crate::js::{
    double_number, double_value, filled_text, js_truthy, or_falsy, or_nullish, truthy, value_or,
    value_or_nullish,
};
use crate::json::{
    dup_or_null, find, json_int, list_view, or_null, parse_json, json_of_text, push_value, put,
    field, str_of, text_or_empty, text_seen, text_view, Fields, Json, JsonValue, Object,
    number_view, pretty_text_of_json, readable, render_json_pretty, DEEPEST,
};
use crate::number::{int_number, number_positive, Number, NumberView};
use crate::order::{best, best_of, order_of, stable_order, SortKey};
use crate::text::same;

verus! {

/// Why an operation was refused, with the status that the caller answers with.
pub struct AccountStoreError {
    pub message: String,
    pub status_code: i32,
}

/// The plain value of an [`AccountStoreError`].
pub struct Refusal {
    pub message: Seq<char>,
    pub status: i32,
}

impl View for AccountStoreError {
    type V = Refusal;

    open spec fn view(&self) -> Refusal {
        Refusal { message: self.message@, status: self.status_code }
    }
}

pub open spec fn refusal(message: Seq<char>, status: i32) -> Refusal {
    Refusal { message, status }
}

impl AccountStoreError {
    pub fn new(message: &str, status_code: i32) -> (out: AccountStoreError)
        ensures
            out@ == refusal(message@, status_code),
    {
        AccountStoreError { message: message.to_owned(), status_code }
    }

    pub fn bad_request(message: &str) -> (out: AccountStoreError)
        ensures
            out@ == refusal(message@, 400),
    {
        AccountStoreError::new(message, 400)
    }

    pub fn not_found(message: &str) -> (out: AccountStoreError)
        ensures
            out@ == refusal(message@, 404),
    {
        AccountStoreError::new(message, 404)
    }

    /// The message.
    pub fn text(&self) -> (out: String)
        ensures
            out@ == self@.message,
    {
        self.message.clone()
    }
}

// ─── What the gateway fixes ──────────────────────────────────

/// An edition of the default provider: where its requests go unless a record says otherwise.
pub struct EditionInfo {
    pub id: String,
    pub label: String,
    pub endpoint: String,
    pub prefix_path: String,
    pub platform: String,
}

/// The plain value of an [`EditionInfo`].
pub struct EditionView {
    pub id: Seq<char>,
    pub label: Seq<char>,
    pub endpoint: Seq<char>,
    pub prefix_path: Seq<char>,
    pub platform: Seq<char>,
}

impl View for EditionInfo {
    type V = EditionView;

    open spec fn view(&self) -> EditionView {
        EditionView {
            id: self.id@,
            label: self.label@,
            endpoint: self.endpoint@,
            prefix_path: self.prefix_path@,
            platform: self.platform@,
        }
    }
}

/// A provider by its id, with the label it is shown under.
pub struct ProviderInfo {
    pub id: String,
    pub label: String,
}

/// What surrounds the store: the numbers a priority may take, the editions and the one that
/// stands in for an unknown id, the providers in the order of the registry, and those of them
/// that cannot forward requests.
pub struct StoreRules {
    pub band: PriorityBand,
    pub editions: Vec<EditionInfo>,
    pub fallback_edition: EditionInfo,
    pub providers: Vec<ProviderInfo>,
    pub silent: Vec<String>,
}

/// The plain value of [`StoreRules`].
pub struct RulesView {
    pub band: PriorityBand,
    pub editions: Seq<EditionView>,
    pub fallback_edition: EditionView,
    pub providers: Seq<(Seq<char>, Seq<char>)>,
    pub silent: Seq<Seq<char>>,
}

impl View for StoreRules {
    type V = RulesView;

    open spec fn view(&self) -> RulesView {
        RulesView {
            band: self.band,
            editions: self.editions@.map_values(|e: EditionInfo| e@),
            fallback_edition: self.fallback_edition@,
            providers: self.providers@.map_values(|p: ProviderInfo| (p.id@, p.label@)),
            silent: self.silent@.map_values(|s: String| s@),
        }
    }
}

/// The first edition with an id.
pub open spec fn edition_named(editions: Seq<EditionView>, id: Seq<char>) -> Option<EditionView>
    decreases editions.len(),
{
    if editions.len() == 0 {
        None
    } else if editions[0].id == id {
        Some(editions[0])
    } else {
        edition_named(editions.drop_first(), id)
    }
}

/// The edition that an id stands for.
pub open spec fn edition_for(rules: RulesView, id: Option<Seq<char>>) -> EditionView {
    match id {
        Some(s) => match edition_named(rules.editions, s) {
            Some(e) => e,
            None => rules.fallback_edition,
        },
        None => rules.fallback_edition,
    }
}

/// The provider of a record forwards requests. One that nobody knows counts as able to.
pub open spec fn forwards(f: Fields, rules: RulesView) -> bool {
    !rules.silent.contains(provider_of(f))
}

impl StoreRules {
    /// [`edition_for`].
    pub fn resolve_edition(&self, id: Option<&str>) -> (out: &EditionInfo)
        ensures
            out@ == edition_for(self@, text_seen(id)),
    {
        match id {
            Some(wanted) => {
                let ghost all = self@.editions;
                assert(all.skip(0) =~= all);
                for i in 0..self.editions.len()
                    invariant
                        all == self@.editions,
                        edition_named(all, wanted@) == edition_named(all.skip(i as int), wanted@),
                        id == Some(wanted),
                {
                    assert(all.skip(i as int)[0] == self.editions@[i as int]@);
                    assert(all.skip(i as int).drop_first() =~= all.skip(i + 1));
                    if same(self.editions[i].id.as_str(), wanted) {
                        return &self.editions[i];
                    }
                }
                &self.fallback_edition
            },
            None => &self.fallback_edition,
        }
    }

    /// [`forwards`].
    pub fn forwards_requests(&self, record: &StoredAccount) -> (r: bool)
        ensures
            r == forwards(record@, self@),
    {
        let provider = record.provider();
        for i in 0..self.silent.len()
            invariant
                provider@ == provider_of(record@),
                forall|k: int| 0 <= k < i ==> #[trigger] self@.silent[k] != provider_of(record@),
        {
            if same(self.silent[i].as_str(), provider.as_str()) {
                assert(self@.silent[i as int] == provider_of(record@));
                return false;
            }
            assert(self@.silent[i as int] == self.silent@[i as int]@);
        }
        true
    }
}

/// The accounts, held in memory between a read and a write of the account file.
pub struct AccountStore {
    pub state: AccountState,
    pub rules: StoreRules,
}

// ─── Reading and writing the file's text ─────────────────────

/// The records among some JSON values.
pub open spec fn records_in(items: Seq<Json>) -> Seq<Fields>
    decreases items.len(),
{
    if items.len() == 0 {
        Seq::empty()
    } else {
        let before = records_in(items.drop_last());
        match items.last() {
            Json::Obj(o) => if id_of(o).len() > 0 {
                before.push(o)
            } else {
                before
            },
            _ => before,
        }
    }
}

/// What the document of the account file holds: nothing, where it is no object.
pub open spec fn state_in(doc: Json) -> StateView {
    StateView {
        accounts: match field(doc, "accounts"@) {
            Some(Json::Arr(items)) => records_in(items),
            _ => Seq::empty(),
        },
        scope: str_of(field(doc, "priorityScope"@)),
    }
}

/// What the text of the account file holds: nothing, where it is no JSON.
pub open spec fn state_of_text(text: Seq<char>) -> StateView {
    match json_of_text(text) {
        Ok(doc) => state_in(doc),
        Err(_) => StateView { accounts: Seq::empty(), scope: None },
    }
}

/// The document that is written for a state.
pub open spec fn document_of(state: StateView) -> Json {
    let list = ("accounts"@, Json::Arr(state.accounts.map_values(|f: Fields| Json::Obj(f))));
    match state.scope {
        Some(s) => Json::Obj(seq![list, ("priorityScope"@, Json::Str(s))]),
        None => Json::Obj(seq![list]),
    }
}

/// [`state_in`].
pub fn state_from_document(doc: &JsonValue) -> (out: AccountState)
    ensures
        out@ == state_in(doc@),
{
    let mut accounts: Vec<StoredAccount> = Vec::new();
    assert(records(accounts@) =~= Seq::<Fields>::empty());
    if let Some(JsonValue::Arr(items)) = doc.get("accounts") {
        let ghost all = list_view(*items);
        assert(records(accounts@) =~= records_in(all.take(0)));
        for i in 0..items.len()
            invariant
                all == list_view(*items),
                records(accounts@) == records_in(all.take(i as int)),
        {
            assert(all.take(i + 1).drop_last() =~= all.take(i as int));
            assert(all.take(i + 1).last() == items@[i as int]@);
            if let Some(record) = StoredAccount::from_value(items[i].dup()) {
                let ghost before = accounts@;
                accounts.push(record);
                assert(records(accounts@) =~= records(before).push(record@));
            }
        }
        assert(all.take(all.len() as int) =~= all);
    }
    let priority_scope = match doc.get("priorityScope") {
        Some(JsonValue::Str(s)) => Some(s.clone()),
        _ => None,
    };
    AccountState { accounts, priority_scope }
}

/// [`state_of_text`].
pub fn load_text(text: &str) -> (out: AccountState)
    ensures
        out@ == state_of_text(text@),
{
    match parse_json(text) {
        Ok(doc) => state_from_document(&doc),
        Err(_) => {
            let accounts: Vec<StoredAccount> = Vec::new();
            assert(records(accounts@) =~= Seq::<Fields>::empty());
            AccountState { accounts, priority_scope: None }
        },
    }
}

/// [`document_of`].
pub fn document(state: &AccountState) -> (out: JsonValue)
    ensures
        out@ == document_of(state@),
{
    let mut items: Vec<JsonValue> = Vec::new();
    let ghost all = records(state.accounts@).map_values(|f: Fields| Json::Obj(f));
    assert(list_view(items) =~= all.take(0));
    for i in 0..state.accounts.len()
        invariant
            all == records(state.accounts@).map_values(|f: Fields| Json::Obj(f)),
            list_view(items) == all.take(i as int),
    {
        push_value(&mut items, state.accounts[i].to_value());
        assert(list_view(items) =~= all.take(i + 1));
    }
    assert(all.take(all.len() as int) =~= all);
    let mut doc = Object::new();
    doc.push("accounts", JsonValue::Arr(items));
    match &state.priority_scope {
        Some(scope) => {
            doc.push("priorityScope", JsonValue::text(scope.as_str()));
        },
        None => {},
    }
    assert(doc@ =~= document_of(state@)->Obj_0);
    JsonValue::Obj(doc)
}

/// The text in which the accounts are kept. What it says is read back by [`load_text`], where each
/// record has an id.
pub fn save_text(state: &AccountState) -> (out: String)
    ensures
        out@ == pretty_text_of_json(document_of(state@)),
        all_named(state@.accounts) && readable(document_of(state@), DEEPEST as nat)
            ==> state_of_text(out@) == state@,
{
    let doc = document(state);
    proof {
        if all_named(state@.accounts) {
            written_state_reads_back(state@);
        }
    }
    render_json_pretty(&doc)
}

/// Every record has an id, as those that were read from a file do.
pub open spec fn all_named(accounts: Seq<Fields>) -> bool {
    forall|i: int| 0 <= i < accounts.len() ==> id_of(#[trigger] accounts[i]).len() > 0
}

/// Reading back what was written gives the same records with all their fields.
pub proof fn written_state_reads_back(state: StateView)
    requires
        all_named(state.accounts),
    ensures
        state_in(document_of(state)) == state,
{
    let items = state.accounts.map_values(|f: Fields| Json::Obj(f));
    lemma_records_in_map(state.accounts);
    reveal_strlit("accounts");
    reveal_strlit("priorityScope");
    assert("accounts"@.len() != "priorityScope"@.len());
    let doc = document_of(state)->Obj_0;
    match state.scope {
        Some(s) => {
            assert(doc.drop_last() =~= seq![("accounts"@, Json::Arr(items))]);
            assert(find(doc, "priorityScope"@) == Some(Json::Str(s)));
            assert(find(doc.drop_last(), "accounts"@) == Some(Json::Arr(items)));
        },
        None => {
            assert(find(doc, "accounts"@) == Some(Json::Arr(items)));
            assert(doc.drop_last() =~= Seq::<(Seq<char>, Json)>::empty());
            assert(find(doc.drop_last(), "priorityScope"@) is None);
        },
    }
}

proof fn lemma_records_in_map(accounts: Seq<Fields>)
    requires
        all_named(accounts),
    ensures
        records_in(accounts.map_values(|f: Fields| Json::Obj(f))) == accounts,
    decreases accounts.len(),
{
    let items = accounts.map_values(|f: Fields| Json::Obj(f));
    if accounts.len() > 0 {
        let short = accounts.drop_last();
        assert forall|i: int| 0 <= i < short.len() implies id_of(#[trigger] short[i]).len() > 0 by {
            assert(short[i] == accounts[i]);
        }
        lemma_records_in_map(short);
        assert(items.drop_last() =~= short.map_values(|f: Fields| Json::Obj(f)));
        assert(id_of(accounts[accounts.len() - 1]).len() > 0);
        assert(records_in(items) =~= accounts);
    } else {
        assert(records_in(items) =~= accounts);
    }
}

/// Whatever is read from a file, every record has an id.
pub proof fn read_records_are_named(items: Seq<Json>)
    ensures
        all_named(records_in(items)),
    decreases items.len(),
{
    if items.len() > 0 {
        read_records_are_named(items.drop_last());
    }
}

// ─── The current account ─────────────────────────────────────

pub open spec fn keys_of(s: Seq<Fields>, band: PriorityBand) -> Seq<SortKey> {
    s.map_values(|f: Fields| order_key_of(f, band))
}

/// An account of `provider` that is enabled and has credentials.
pub open spec fn serves(f: Fields, provider: Seq<char>) -> bool {
    provider_of(f) == provider && enabled_of(f) && has_credentials_of(f)
}

pub open spec fn serving(s: Seq<Fields>, provider: Seq<char>) -> Seq<bool> {
    s.map_values(|f: Fields| serves(f, provider))
}

/// An account that is enabled, has credentials and belongs to a provider that forwards.
pub open spec fn usable(f: Fields, rules: RulesView) -> bool {
    enabled_of(f) && has_credentials_of(f) && forwards(f, rules)
}

pub open spec fn usables(s: Seq<Fields>, rules: RulesView) -> Seq<bool> {
    s.map_values(|f: Fields| usable(f, rules))
}

/// The head of one provider's queue.
pub open spec fn head_of_provider(
    s: Seq<Fields>,
    provider: Seq<char>,
    band: PriorityBand,
) -> Option<int> {
    best(serving(s, provider), keys_of(s, band))
}

/// The head of the global queue: the current account.
pub open spec fn current_of(s: Seq<Fields>, rules: RulesView) -> Option<int> {
    best(usables(s, rules), keys_of(s, rules.band))
}

/// The id of the record at a place, if any.
pub open spec fn id_at(s: Seq<Fields>, at: Option<int>) -> Option<Seq<char>> {
    match at {
        Some(i) => Some(id_of(s[i])),
        None => None,
    }
}

/// The id of the record at a place as JSON, or null.
pub open spec fn json_id_at(s: Seq<Fields>, at: Option<int>) -> Json {
    match at {
        Some(i) => Json::Str(id_of(s[i])),
        None => Json::Null,
    }
}

/// The current account is one that can be used, and none that can be used comes before it.
pub proof fn current_is_head_of_usable(s: Seq<Fields>, rules: RulesView)
    ensures
        match current_of(s, rules) {
            Some(i) => {
                &&& 0 <= i < s.len()
                &&& usable(s[i], rules)
                &&& forall|j: int|
                    0 <= j < s.len() && usable(#[trigger] s[j], rules) ==> crate::order::key_le(
                        order_key_of(s[i], rules.band),
                        order_key_of(s[j], rules.band),
                    )
            },
            None => forall|j: int| 0 <= j < s.len() ==> !usable(#[trigger] s[j], rules),
        },
{
    crate::order::best_is_first_marked(usables(s, rules), keys_of(s, rules.band));
    let marked = usables(s, rules);
    assert forall|j: int| 0 <= j < s.len() implies #[trigger] marked[j] == usable(s[j], rules) by {}
    if current_of(s, rules) is Some {
        let i = current_of(s, rules)->0;
        assert forall|j: int| 0 <= j < s.len() && usable(#[trigger] s[j], rules) implies crate::order::key_le(
            order_key_of(s[i], rules.band),
            order_key_of(s[j], rules.band),
        ) by {
            assert(marked[j]);
        }
    } else {
        assert forall|j: int| 0 <= j < s.len() implies !usable(#[trigger] s[j], rules) by {
            assert(!marked[j]);
        }
    }
}

/// [`keys_of`].
pub fn sort_keys(accounts: &Vec<StoredAccount>, band: PriorityBand) -> (out: Vec<SortKey>)
    ensures
        out@ == keys_of(records(accounts@), band),
{
    let mut out: Vec<SortKey> = Vec::new();
    for i in 0..accounts.len()
        invariant
            out@ =~= keys_of(records(accounts@), band).take(i as int),
    {
        out.push(accounts[i].order_key(band));
    }
    out
}

/// [`head_of_provider`].
pub fn pick_current_for_provider(
    accounts: &Vec<StoredAccount>,
    provider: &str,
    band: PriorityBand,
) -> (r: Option<usize>)
    ensures
        match r {
            Some(i) => head_of_provider(records(accounts@), provider@, band) == Some(i as int) && i
                < accounts@.len() && serves(accounts@[i as int]@, provider@),
            None => head_of_provider(records(accounts@), provider@, band) is None,
        },
{
    let mut marked: Vec<bool> = Vec::new();
    for i in 0..accounts.len()
        invariant
            marked@ =~= serving(records(accounts@), provider@).take(i as int),
    {
        marked.push(
            same(accounts[i].provider().as_str(), provider) && accounts[i].enabled()
                && accounts[i].has_credentials(),
        );
    }
    assert(marked@ =~= serving(records(accounts@), provider@));
    best_of(&marked, &sort_keys(accounts, band))
}

/// [`current_of`].
pub fn pick_current(accounts: &Vec<StoredAccount>, rules: &StoreRules) -> (r: Option<usize>)
    ensures
        match r {
            Some(i) => current_of(records(accounts@), rules@) == Some(i as int) && i < accounts@.len(),
            None => current_of(records(accounts@), rules@) is None,
        },
{
    let mut marked: Vec<bool> = Vec::new();
    for i in 0..accounts.len()
        invariant
            marked@ =~= usables(records(accounts@), rules@).take(i as int),
    {
        marked.push(
            accounts[i].enabled() && accounts[i].has_credentials() && rules.forwards_requests(
                &accounts[i],
            ),
        );
    }
    assert(marked@ =~= usables(records(accounts@), rules@));
    best_of(&marked, &sort_keys(accounts, rules.band))
}

// ─── What a request takes from a record ──────────────────────

/// A way out to the network, resolved from a record's proxy setting.
pub struct ResolvedProxy {
    pub source: String,
    pub protocol: String,
    pub host: String,
    pub port: u16,
    pub username: String,
    pub password: String,
    pub label: String,
}

/// What became of a record's proxy setting.
pub enum ProxyResolution {
    Resolved(ResolvedProxy),
    Failed(String),
}

pub open spec fn proxy_fields(p: ResolvedProxy) -> Fields {
    seq![
        ("source"@, Json::Str(p.source@)),
        ("protocol"@, Json::Str(p.protocol@)),
        ("host"@, Json::Str(p.host@)),
        ("port"@, json_int(p.port as int)),
        ("username"@, Json::Str(p.username@)),
        ("password"@, Json::Str(p.password@)),
        ("label"@, Json::Str(p.label@)),
    ]
}

/// The proxy of a resolution: null where there is none or it failed.
pub open spec fn proxy_part(r: Option<ProxyResolution>) -> Json {
    match r {
        Some(ProxyResolution::Resolved(p)) => Json::Obj(proxy_fields(p)),
        _ => Json::Null,
    }
}

/// Why the resolution failed, if it did.
pub open spec fn proxy_error_part(r: Option<ProxyResolution>) -> Option<Seq<char>> {
    match r {
        Some(ProxyResolution::Failed(message)) => Some(message@),
        _ => None,
    }
}

/// A resolved proxy as JSON.
pub fn proxy_json(p: &ResolvedProxy) -> (out: JsonValue)
    ensures
        out@ == Json::Obj(proxy_fields(*p)),
{
    let mut o = Object::new();
    o.push("source", JsonValue::text(p.source.as_str()));
    o.push("protocol", JsonValue::text(p.protocol.as_str()));
    o.push("host", JsonValue::text(p.host.as_str()));
    o.push("port", JsonValue::integer(p.port as i64));
    o.push("username", JsonValue::text(p.username.as_str()));
    o.push("password", JsonValue::text(p.password.as_str()));
    o.push("label", JsonValue::text(p.label.as_str()));
    assert(o@ =~= proxy_fields(*p));
    JsonValue::Obj(o)
}

/// The proxy and the error of a resolution.
pub fn split_resolution(r: &Option<ProxyResolution>) -> (out: (JsonValue, Option<String>))
    ensures
        out.0@ == proxy_part(*r),
        text_view(out.1) == proxy_error_part(*r),
{
    match r {
        None => (JsonValue::Null, None),
        Some(ProxyResolution::Resolved(p)) => (proxy_json(p), None),
        Some(ProxyResolution::Failed(message)) => (JsonValue::Null, Some(message.clone())),
    }
}

/// Credentials that were read from a desktop client just now.
pub struct LiveCredentials {
    pub token: String,
    pub refresh_token: String,
    pub expires_at: Option<Number>,
}

/// Which desktop client holds the credentials of a record.
#[derive(Clone, Copy, PartialEq, Eq, Structural)]
pub enum LiveSource {
    AutoClaw,
    Raccoon,
}

/// Only the desktop records of two providers have live credentials.
pub open spec fn live_source_of(f: Fields) -> Option<LiveSource> {
    if !crate::account_store::state::desktop_of(f) {
        None
    } else if provider_of(f) == "autoclaw"@ {
        Some(LiveSource::AutoClaw)
    } else if provider_of(f) == "raccoon"@ {
        Some(LiveSource::Raccoon)
    } else {
        None
    }
}

/// [`live_source_of`].
pub fn live_desktop_source(record: &StoredAccount) -> (r: Option<LiveSource>)
    ensures
        r == live_source_of(record@),
{
    if !record.is_desktop() {
        None
    } else if same(record.provider().as_str(), "autoclaw") {
        Some(LiveSource::AutoClaw)
    } else if same(record.provider().as_str(), "raccoon") {
        Some(LiveSource::Raccoon)
    } else {
        None
    }
}

/// The access token in use: the live one where there is one.
pub open spec fn access_in_use(f: Fields, live: Option<LiveCredentials>) -> Seq<char> {
    match live {
        Some(c) => c.token@,
        None => text_or_empty(find(f, "accessToken"@)),
    }
}

pub open spec fn refresh_in_use(f: Fields, live: Option<LiveCredentials>) -> Seq<char> {
    match live {
        Some(c) => c.refresh_token@,
        None => text_or_empty(find(f, "refreshToken"@)),
    }
}

pub open spec fn expiry_in_use(f: Fields, live: Option<LiveCredentials>) -> Option<NumberView> {
    match live {
        Some(c) => number_view(c.expires_at),
        None => positive_of(find(f, "expiresAt"@)),
    }
}

/// A number as JSON in the form of a double, zero where there is none.
pub open spec fn number_or_zero(n: Option<NumberView>) -> Json {
    match n {
        Some(x) => double_number(x),
        None => double_number(int_number(0)),
    }
}

/// What there is, or the other.
pub open spec fn unwrapped(v: Option<Seq<char>>, other: Seq<char>) -> Seq<char> {
    match v {
        Some(s) => s,
        None => other,
    }
}

pub open spec fn text_or_null(v: Option<Seq<char>>) -> Json {
    match v {
        Some(s) => Json::Str(s),
        None => Json::Null,
    }
}

/// The session that requests on behalf of a record are made with.
pub open spec fn session_of(
    f: Fields,
    rules: RulesView,
    resolution: Option<ProxyResolution>,
    live: Option<LiveCredentials>,
) -> Json {
    let edition = edition_for(rules, filled_text(find(f, "edition"@)));
    Json::Obj(
        seq![
            (
                "endpoint"@,
                Json::Str(unwrapped(filled_text(find(f, "endpoint"@)), edition.endpoint)),
            ),
            (
                "prefixPath"@,
                Json::Str(unwrapped(str_of(find(f, "prefixPath"@)), edition.prefix_path)),
            ),
            (
                "platform"@,
                Json::Str(unwrapped(filled_text(find(f, "platform"@)), edition.platform)),
            ),
            ("edition"@, Json::Str(edition.id)),
            ("proxy"@, proxy_part(resolution)),
            ("proxyError"@, text_or_null(proxy_error_part(resolution))),
            ("auth"@, Json::Obj(session_auth(f, live))),
            ("account"@, Json::Obj(session_account(f))),
        ],
    )
}

pub open spec fn session_auth(f: Fields, live: Option<LiveCredentials>) -> Fields {
    seq![
        ("accessToken"@, Json::Str(access_in_use(f, live))),
        ("refreshToken"@, Json::Str(refresh_in_use(f, live))),
        ("tokenType"@, Json::Str("Bearer"@)),
        ("expiresAt"@, number_or_zero(expiry_in_use(f, live))),
        ("refreshExpiresAt"@, number_or_zero(positive_of(find(f, "refreshExpiresAt"@)))),
        ("domain"@, Json::Str(text_or_empty(find(f, "domain"@)))),
    ]
}

pub open spec fn session_account(f: Fields) -> Fields {
    seq![
        ("uid"@, Json::Str(text_or_empty(find(f, "uid"@)))),
        ("nickname"@, Json::Str(text_or_empty(find(f, "nickname"@)))),
        ("type"@, Json::Str(type_of(f))),
        ("enterpriseId"@, Json::Str(text_or_empty(find(f, "enterpriseId"@)))),
        ("enterpriseName"@, Json::Str(text_or_empty(find(f, "enterpriseName"@)))),
    ]
}

fn number_json(n: &Option<Number>) -> (out: JsonValue)
    ensures
        out@ == number_or_zero(number_view(*n)),
{
    match n {
        Some(x) => double_value(x),
        None => double_value(&Number::from_i64(0)),
    }
}

fn text_or(v: Option<String>, other: &str) -> (out: String)
    ensures
        out@ == unwrapped(text_view(v), other@),
{
    match v {
        Some(s) => s,
        None => other.to_owned(),
    }
}

fn auth_in_use(record: &StoredAccount, live: &Option<LiveCredentials>) -> (out: (
    String,
    String,
    Option<Number>,
))
    ensures
        out.0@ == access_in_use(record@, *live),
        out.1@ == refresh_in_use(record@, *live),
        number_view(out.2) == expiry_in_use(record@, *live),
{
    match live {
        Some(c) => {
            let expires_at = match &c.expires_at {
                Some(n) => Some(n.dup()),
                None => None,
            };
            (c.token.clone(), c.refresh_token.clone(), expires_at)
        },
        None => (record.access_token(), record.refresh_token(), record.expires_at()),
    }
}

/// The current account of a provider, with the session that its requests are made with.
pub struct CurrentEntry {
    pub id: String,
    pub session: JsonValue,
}

/// The credentials of one account.
pub struct CredentialsById {
    pub id: String,
    pub name: String,
    pub uid: String,
    pub access_token: String,
    pub refresh_token: String,
    pub expires_at: Option<Number>,
    pub endpoint: String,
    pub prefix_path: String,
    pub platform: String,
    pub edition: String,
    pub priority: i64,
    pub enabled: bool,
    pub proxy: JsonValue,
    pub proxy_error: Option<String>,
}

/// The session of one account, with its way out.
pub struct SessionById {
    pub id: String,
    pub session: JsonValue,
    pub proxy: JsonValue,
    pub proxy_error: Option<String>,
}

/// The credentials say of the record what it holds.
pub open spec fn credentials_match(
    c: CredentialsById,
    f: Fields,
    rules: RulesView,
    resolution: Option<ProxyResolution>,
    live: Option<LiveCredentials>,
) -> bool {
    let edition = edition_for(rules, filled_text(find(f, "edition"@)));
    &&& c.id@ == id_of(f)
    &&& c.name@ == name_of(f)
    &&& c.uid@ == text_or_empty(find(f, "uid"@))
    &&& c.access_token@ == access_in_use(f, live)
    &&& c.refresh_token@ == refresh_in_use(f, live)
    &&& number_view(c.expires_at) == match expiry_in_use(f, live) {
        Some(n) => if number_positive(n) {
            Some(n)
        } else {
            None
        },
        None => None,
    }
    &&& c.endpoint@ == unwrapped(filled_text(find(f, "endpoint"@)), edition.endpoint)
    &&& c.prefix_path@ == unwrapped(str_of(find(f, "prefixPath"@)), edition.prefix_path)
    &&& c.platform@ == unwrapped(filled_text(find(f, "platform"@)), edition.platform)
    &&& c.edition@ == edition.id
    &&& c.priority == priority_of(f, rules.band)
    &&& c.enabled == enabled_of(f)
    &&& c.proxy@ == proxy_part(resolution)
    &&& text_view(c.proxy_error) == proxy_error_part(resolution)
}

// ─── What is shown ───────────────────────────────────────────

/// The entry of the shown form that carries the name: the record's own value, whatever it is.
pub open spec fn name_entry(f: Fields) -> Fields {
    match find(f, "name"@) {
        Some(v) => seq![("name"@, v)],
        None => Seq::empty(),
    }
}

/// What is shown of a record of the default provider. `proxy` is the description of the record's
/// proxy setting.
pub open spec fn public_fields(f: Fields, rules: RulesView, proxy: Json) -> Fields {
    let edition = edition_for(rules, filled_text(find(f, "edition"@)));
    let empty = Json::Str(Seq::empty());
    seq![("id"@, Json::Str(id_of(f))), ("provider"@, Json::Str(provider_of(f)))] + name_entry(f)
        + seq![
        ("uid"@, or_falsy(find(f, "uid"@), empty)),
        ("nickname"@, or_falsy(find(f, "nickname"@), empty)),
        ("type"@, or_falsy(find(f, "type"@), Json::Str("personal"@))),
        ("enterpriseId"@, or_falsy(find(f, "enterpriseId"@), empty)),
        ("enterpriseName"@, or_falsy(find(f, "enterpriseName"@), empty)),
        ("tokenTail"@, or_falsy(find(f, "tokenTail"@), empty)),
        ("expiresAt"@, or_falsy(find(f, "expiresAt"@), Json::Null)),
        ("hasRefreshToken"@, Json::Bool(truthy(or_null(find(f, "refreshToken"@))))),
        ("prefixPath"@, or_nullish(find(f, "prefixPath"@), Json::Str(edition.prefix_path))),
        ("endpoint"@, or_falsy(find(f, "endpoint"@), Json::Str(edition.endpoint))),
        ("edition"@, Json::Str(edition.id)),
        ("editionLabel"@, Json::Str(edition.label)),
        ("priority"@, json_int(priority_of(f, rules.band))),
        ("enabled"@, Json::Bool(enabled_of(f))),
        ("addedAt"@, json_int(added_at_of(f))),
        ("updatedAt"@, json_int(integer_of(find(f, "updatedAt"@)))),
        ("proxy"@, proxy),
        ("rateLimits"@, or_falsy(find(f, "rateLimits"@), Json::Obj(Seq::empty()))),
        ("available"@, Json::Bool(true)),
    ]
}

/// What every provider's shown form carries besides its own fields. A form that is no object
/// stays as it is.
pub open spec fn with_facts(shaped: Json, f: Fields, rules: RulesView) -> Json {
    match shaped {
        Json::Obj(o) => Json::Obj(
            put(
                put(o, "hasCredentials"@, Json::Bool(has_credentials_of(f))),
                "chatSupported"@,
                Json::Bool(forwards(f, rules)),
            ),
        ),
        _ => shaped,
    }
}

/// For each provider, in the order in which the first `n` records bring them up, the id of the
/// head of its queue.
pub open spec fn heads(s: Seq<Fields>, band: PriorityBand, n: nat) -> Fields
    decreases n,
{
    if n == 0 {
        Seq::empty()
    } else {
        let before = heads(s, band, (n - 1) as nat);
        let provider = provider_of(s[n - 1]);
        if find(before, provider) is Some {
            before
        } else {
            before.push((provider, json_id_at(s, head_of_provider(s, provider, band))))
        }
    }
}

/// How many of the first `n` records belong to a provider.
pub open spec fn count_of(s: Seq<Fields>, provider: Seq<char>, n: nat) -> nat
    decreases n,
{
    if n == 0 {
        0
    } else {
        count_of(s, provider, (n - 1) as nat) + if provider_of(s[n - 1]) == provider {
            1nat
        } else {
            0
        }
    }
}

/// The registry with the number of accounts of each provider.
pub open spec fn summary_of(s: Seq<Fields>, rules: RulesView) -> Seq<Json> {
    rules.providers.map_values(
        |p: (Seq<char>, Seq<char>)|
            Json::Obj(
                seq![
                    ("id"@, Json::Str(p.0)),
                    ("label"@, Json::Str(p.1)),
                    ("count"@, json_int(count_of(s, p.0, s.len()) as int)),
                ],
            ),
    )
}

/// The shown forms of all records, in the order of the file.
pub open spec fn shown(s: Seq<Fields>, shaped: Seq<Json>, rules: RulesView) -> Seq<Json> {
    Seq::new(s.len(), |i: int| with_facts(shaped[i], s[i], rules))
}

/// The listing of all accounts.
pub open spec fn listing(s: Seq<Fields>, shaped: Seq<Json>, rules: RulesView) -> Json {
    Json::Obj(
        seq![
            ("currentAccountId"@, json_id_at(s, current_of(s, rules))),
            ("currentAccountIds"@, Json::Obj(heads(s, rules.band, s.len()))),
            ("accounts"@, Json::Arr(shown(s, shaped, rules))),
            ("providers"@, Json::Arr(summary_of(s, rules))),
        ],
    )
}

/// The positions of the serving accounts of a provider, in the order of the queue.
pub open spec fn queue_of(s: Seq<Fields>, provider: Seq<char>, band: PriorityBand) -> Seq<int> {
    stable_order(keys_of(s, band)).filter(|i: int| serves(s[i], provider))
}

fn id_value(accounts: &Vec<StoredAccount>, at: Option<usize>) -> (out: JsonValue)
    requires
        at is Some ==> at->0 < accounts@.len(),
    ensures
        out@ == json_id_at(
            records(accounts@),
            match at {
                Some(i) => Some(i as int),
                None => None,
            },
        ),
{
    match at {
        Some(i) => JsonValue::Str(accounts[i].id()),
        None => JsonValue::Null,
    }
}

impl AccountStore {
    /// The id of the current account.
    pub fn current_account_id(&self) -> (r: Option<String>)
        ensures
            text_view(r) == id_at(self.state@.accounts, current_of(self.state@.accounts, self.rules@)),
    {
        match pick_current(&self.state.accounts, &self.rules) {
            Some(i) => Some(self.state.accounts[i].id()),
            None => None,
        }
    }

    /// [`session_of`].
    pub fn session_from_record(
        &self,
        record: &StoredAccount,
        resolution: &Option<ProxyResolution>,
        live: &Option<LiveCredentials>,
    ) -> (out: JsonValue)
        ensures
            out@ == session_of(record@, self.rules@, *resolution, *live),
    {
        let edition_id = record.edition();
        let edition = self.rules.resolve_edition(
            match &edition_id {
                Some(s) => Some(s.as_str()),
                None => None,
            },
        );
        let (proxy, proxy_error) = split_resolution(resolution);
        let (access_token, refresh_token, expires_at) = auth_in_use(record, live);
        let mut auth = Object::new();
        auth.push("accessToken", JsonValue::Str(access_token));
        auth.push("refreshToken", JsonValue::Str(refresh_token));
        auth.push("tokenType", JsonValue::text("Bearer"));
        auth.push("expiresAt", number_json(&expires_at));
        auth.push("refreshExpiresAt", number_json(&record.refresh_expires_at()));
        auth.push("domain", JsonValue::Str(record.domain()));
        assert(auth@ =~= session_auth(record@, *live));
        let mut account = Object::new();
        account.push("uid", JsonValue::Str(record.uid()));
        account.push("nickname", JsonValue::Str(record.nickname()));
        account.push("type", JsonValue::Str(record.account_type()));
        account.push("enterpriseId", JsonValue::Str(record.enterprise_id()));
        account.push("enterpriseName", JsonValue::Str(record.enterprise_name()));
        assert(account@ =~= session_account(record@));
        let mut session = Object::new();
        session.push(
            "endpoint",
            JsonValue::Str(text_or(record.endpoint(), edition.endpoint.as_str())),
        );
        session.push(
            "prefixPath",
            JsonValue::Str(text_or(record.prefix_path(), edition.prefix_path.as_str())),
        );
        session.push(
            "platform",
            JsonValue::Str(text_or(record.platform(), edition.platform.as_str())),
        );
        session.push("edition", JsonValue::text(edition.id.as_str()));
        session.push("proxy", proxy);
        session.push(
            "proxyError",
            match proxy_error {
                Some(s) => JsonValue::Str(s),
                None => JsonValue::Null,
            },
        );
        session.push("auth", JsonValue::Obj(auth));
        session.push("account", JsonValue::Obj(account));
        assert(session@ =~= session_of(record@, self.rules@, *resolution, *live)->Obj_0);
        JsonValue::Obj(session)
    }

    /// The head of a provider's queue with its session. `resolution` and `live` are those of that
    /// record.
    pub fn current_entry_for_provider(
        &self,
        provider: &str,
        resolution: &Option<ProxyResolution>,
        live: &Option<LiveCredentials>,
    ) -> (r: Option<CurrentEntry>)
        ensures
            match head_of_provider(self.state@.accounts, provider@, self.rules@.band) {
                Some(i) => {
                    &&& r is Some
                    &&& r->0.id@ == id_of(self.state@.accounts[i])
                    &&& r->0.session@ == session_of(
                        self.state@.accounts[i],
                        self.rules@,
                        *resolution,
                        *live,
                    )
                },
                None => r is None,
            },
    {
        match pick_current_for_provider(&self.state.accounts, provider, self.rules.band) {
            Some(i) => {
                let record = &self.state.accounts[i];
                Some(
                    CurrentEntry {
                        id: record.id(),
                        session: self.session_from_record(record, resolution, live),
                    },
                )
            },
            None => None,
        }
    }

    /// The head of the default provider's queue with its session.
    pub fn get_current_entry(
        &self,
        resolution: &Option<ProxyResolution>,
        live: &Option<LiveCredentials>,
    ) -> (r: Option<CurrentEntry>)
        ensures
            match head_of_provider(
                self.state@.accounts,
                crate::account_store::default_provider(),
                self.rules@.band,
            ) {
                Some(i) => {
                    &&& r is Some
                    &&& r->0.id@ == id_of(self.state@.accounts[i])
                    &&& r->0.session@ == session_of(
                        self.state@.accounts[i],
                        self.rules@,
                        *resolution,
                        *live,
                    )
                },
                None => r is None,
            },
    {
        self.current_entry_for_provider("workbuddy", resolution, live)
    }

    /// The account in effect, which is the current one.
    pub fn get_active_entry(
        &self,
        resolution: &Option<ProxyResolution>,
        live: &Option<LiveCredentials>,
    ) -> (r: Option<CurrentEntry>)
        ensures
            match head_of_provider(
                self.state@.accounts,
                crate::account_store::default_provider(),
                self.rules@.band,
            ) {
                Some(i) => {
                    &&& r is Some
                    &&& r->0.id@ == id_of(self.state@.accounts[i])
                    &&& r->0.session@ == session_of(
                        self.state@.accounts[i],
                        self.rules@,
                        *resolution,
                        *live,
                    )
                },
                None => r is None,
            },
    {
        self.get_current_entry(resolution, live)
    }

    /// The credentials of an account: none where there is no such account or it has no token.
    pub fn get_credentials_by_id(
        &self,
        id: &str,
        resolution: &Option<ProxyResolution>,
        live: &Option<LiveCredentials>,
    ) -> (r: Option<CredentialsById>)
        ensures
            ({
                let s = self.state@.accounts;
                let i = index_of(s, id@);
                if i < s.len() && access_in_use(s[i], *live).len() > 0 {
                    r is Some && credentials_match(r->0, s[i], self.rules@, *resolution, *live)
                } else {
                    r is None
                }
            }),
    {
        let i = find_index(&self.state.accounts, id);
        if i >= self.state.accounts.len() {
            return None;
        }
        let record = &self.state.accounts[i];
        let (access_token, refresh_token, expiry) = auth_in_use(record, live);
        if access_token.as_str().is_empty() {
            return None;
        }
        let edition_id = record.edition();
        let edition = self.rules.resolve_edition(
            match &edition_id {
                Some(s) => Some(s.as_str()),
                None => None,
            },
        );
        let (proxy, proxy_error) = split_resolution(resolution);
        let expires_at = match expiry {
            Some(n) => if n.is_positive() {
                Some(n)
            } else {
                None
            },
            None => None,
        };
        Some(
            CredentialsById {
                id: record.id(),
                name: record.name(),
                uid: record.uid(),
                access_token,
                refresh_token,
                expires_at,
                endpoint: text_or(record.endpoint(), edition.endpoint.as_str()),
                prefix_path: text_or(record.prefix_path(), edition.prefix_path.as_str()),
                platform: text_or(record.platform(), edition.platform.as_str()),
                edition: edition.id.clone(),
                priority: record.priority(self.rules.band),
                enabled: record.enabled(),
                proxy,
                proxy_error,
            },
        )
    }

    /// The session of an account: none where there is no such account or it has no credentials.
    pub fn get_session_by_id(
        &self,
        id: &str,
        resolution: &Option<ProxyResolution>,
        live: &Option<LiveCredentials>,
    ) -> (r: Option<SessionById>)
        ensures
            ({
                let s = self.state@.accounts;
                let i = index_of(s, id@);
                if i < s.len() && has_credentials_of(s[i]) {
                    &&& r is Some
                    &&& r->0.id@ == id_of(s[i])
                    &&& r->0.session@ == session_of(s[i], self.rules@, *resolution, *live)
                    &&& r->0.proxy@ == proxy_part(*resolution)
                    &&& text_view(r->0.proxy_error) == proxy_error_part(*resolution)
                } else {
                    r is None
                }
            }),
    {
        let i = find_index(&self.state.accounts, id);
        if i >= self.state.accounts.len() || !self.state.accounts[i].has_credentials() {
            return None;
        }
        let record = &self.state.accounts[i];
        let (proxy, proxy_error) = split_resolution(resolution);
        Some(
            SessionById {
                id: record.id(),
                session: self.session_from_record(record, resolution, live),
                proxy,
                proxy_error,
            },
        )
    }

    /// [`public_fields`].
    pub fn to_public_account(&self, record: &StoredAccount, proxy: JsonValue) -> (out: JsonValue)
        ensures
            out@ == Json::Obj(public_fields(record@, self.rules@, proxy@)),
    {
        let edition_id = record.edition();
        let edition = self.rules.resolve_edition(
            match &edition_id {
                Some(s) => Some(s.as_str()),
                None => None,
            },
        );
        let ghost proxy_view = proxy@;
        let mut o = Object::new();
        o.push("id", JsonValue::Str(record.id()));
        o.push("provider", JsonValue::Str(record.provider()));
        match record.get("name") {
            Some(v) => {
                o.push("name", v.dup());
            },
            None => {},
        }
        o.push("uid", value_or(record.get("uid"), JsonValue::text("")));
        o.push("nickname", value_or(record.get("nickname"), JsonValue::text("")));
        o.push("type", value_or(record.get("type"), JsonValue::text("personal")));
        o.push("enterpriseId", value_or(record.get("enterpriseId"), JsonValue::text("")));
        o.push("enterpriseName", value_or(record.get("enterpriseName"), JsonValue::text("")));
        o.push("tokenTail", value_or(record.get("tokenTail"), JsonValue::text("")));
        o.push("expiresAt", value_or(record.get("expiresAt"), JsonValue::Null));
        o.push(
            "hasRefreshToken",
            JsonValue::Bool(js_truthy(&dup_or_null(record.get("refreshToken")))),
        );
        o.push(
            "prefixPath",
            value_or_nullish(
                record.get("prefixPath"),
                JsonValue::text(edition.prefix_path.as_str()),
            ),
        );
        o.push(
            "endpoint",
            value_or(record.get("endpoint"), JsonValue::text(edition.endpoint.as_str())),
        );
        o.push("edition", JsonValue::text(edition.id.as_str()));
        o.push("editionLabel", JsonValue::text(edition.label.as_str()));
        o.push("priority", JsonValue::integer(record.priority(self.rules.band)));
        o.push("enabled", JsonValue::Bool(record.enabled()));
        o.push("addedAt", JsonValue::integer(record.added_at()));
        o.push("updatedAt", JsonValue::integer(record.updated_at()));
        o.push("proxy", proxy);
        o.push("rateLimits", value_or(record.get("rateLimits"), JsonValue::Obj(Object::new())));
        o.push("available", JsonValue::Bool(true));
        proof {
            reveal_strlit("");
            assert(""@ =~= Seq::<char>::empty());
            assert(o@ =~= public_fields(record@, self.rules@, proxy_view));
        }
        JsonValue::Obj(o)
    }

    /// [`with_facts`].
    pub fn public_account(&self, record: &StoredAccount, shaped: JsonValue) -> (out: JsonValue)
        ensures
            out@ == with_facts(shaped@, record@, self.rules@),
    {
        match shaped {
            JsonValue::Obj(mut o) => {
                o.insert("hasCredentials", JsonValue::Bool(record.has_credentials()));
                o.insert("chatSupported", JsonValue::Bool(self.rules.forwards_requests(record)));
                JsonValue::Obj(o)
            },
            other => other,
        }
    }

    fn provider_summary(&self) -> (out: Vec<JsonValue>)
        ensures
            list_view(out) == summary_of(self.state@.accounts, self.rules@),
    {
        let mut out: Vec<JsonValue> = Vec::new();
        let ghost all = summary_of(self.state@.accounts, self.rules@);
        let ghost s = self.state@.accounts;
        assert(list_view(out) =~= all.take(0));
        for i in 0..self.rules.providers.len()
            invariant
                all == summary_of(s, self.rules@),
                s == self.state@.accounts,
                list_view(out) == all.take(i as int),
        {
            let id = self.rules.providers[i].id.as_str();
            let mut count: usize = 0;
            for n in 0..self.state.accounts.len()
                invariant
                    s == self.state@.accounts,
                    count == count_of(s, id@, n as nat),
                    count <= n,
            {
                if same(self.state.accounts[n].provider().as_str(), id) {
                    count = count + 1;
                }
            }
            let mut o = Object::new();
            o.push("id", JsonValue::text(id));
            o.push("label", JsonValue::text(self.rules.providers[i].label.as_str()));
            o.push("count", JsonValue::natural(count as u64));
            assert(o@ =~= all[i as int]->Obj_0);
            push_value(&mut out, JsonValue::Obj(o));
            assert(list_view(out) =~= all.take(i + 1));
        }
        assert(all.take(all.len() as int) =~= all);
        out
    }

    fn provider_heads(&self) -> (out: Object)
        ensures
            out@ == heads(self.state@.accounts, self.rules@.band, self.state@.accounts.len()),
    {
        let mut out = Object::new();
        for n in 0..self.state.accounts.len()
            invariant
                out@ == heads(self.state@.accounts, self.rules@.band, n as nat),
        {
            let provider = self.state.accounts[n].provider();
            if out.get(provider.as_str()).is_none() {
                let head = pick_current_for_provider(
                    &self.state.accounts,
                    provider.as_str(),
                    self.rules.band,
                );
                out.push(provider.as_str(), id_value(&self.state.accounts, head));
            }
        }
        out
    }

    /// [`listing`]. `shaped` holds the shown form of each record, without the facts that all
    /// providers share.
    pub fn snapshot(&self, shaped: &Vec<JsonValue>) -> (out: JsonValue)
        requires
            shaped@.len() == self.state.accounts@.len(),
        ensures
            out@ == listing(self.state@.accounts, list_view(*shaped), self.rules@),
    {
        let ghost s = self.state@.accounts;
        let ghost all = shown(s, list_view(*shaped), self.rules@);
        let mut accounts: Vec<JsonValue> = Vec::new();
        assert(list_view(accounts) =~= all.take(0));
        for i in 0..self.state.accounts.len()
            invariant
                shaped@.len() == self.state.accounts@.len(),
                s == self.state@.accounts,
                all == shown(s, list_view(*shaped), self.rules@),
                list_view(accounts) == all.take(i as int),
        {
            assert(s[i as int] == self.state.accounts@[i as int]@);
            assert(list_view(*shaped)[i as int] == shaped@[i as int]@);
            push_value(
                &mut accounts,
                self.public_account(&self.state.accounts[i], shaped[i].dup()),
            );
            assert(list_view(accounts) =~= all.take(i + 1));
        }
        assert(all.take(all.len() as int) =~= all);
        let head = pick_current(&self.state.accounts, &self.rules);
        let mut o = Object::new();
        o.push("currentAccountId", id_value(&self.state.accounts, head));
        o.push("currentAccountIds", JsonValue::Obj(self.provider_heads()));
        o.push("accounts", JsonValue::Arr(accounts));
        o.push("providers", JsonValue::Arr(self.provider_summary()));
        assert(o@ =~= listing(s, list_view(*shaped), self.rules@)->Obj_0);
        JsonValue::Obj(o)
    }

    /// [`listing`], under the name that callers ask for it by.
    pub fn list_accounts(&self, shaped: &Vec<JsonValue>) -> (out: JsonValue)
        requires
            shaped@.len() == self.state.accounts@.len(),
        ensures
            out@ == listing(self.state@.accounts, list_view(*shaped), self.rules@),
    {
        self.snapshot(shaped)
    }

    /// The shown forms of a provider's serving accounts, in the order of the queue.
    pub fn accounts_for_provider(&self, provider: &str, shaped: &Vec<JsonValue>) -> (out: Vec<
        JsonValue,
    >)
        requires
            shaped@.len() == self.state.accounts@.len(),
        ensures
            list_view(out) == queue_of(self.state@.accounts, provider@, self.rules@.band).map_values(
                |i: int| shown(self.state@.accounts, list_view(*shaped), self.rules@)[i],
            ),
    {
        let ghost s = self.state@.accounts;
        let ghost all = shown(s, list_view(*shaped), self.rules@);
        let ghost serves_here = |i: int| serves(s[i], provider@);
        let keys = sort_keys(&self.state.accounts, self.rules.band);
        let order = order_of(&keys);
        let ghost positions = stable_order(keys@);
        let mut out: Vec<JsonValue> = Vec::new();
        assert(positions.take(0).filter(serves_here) =~= Seq::<int>::empty()) by {
            reveal(Seq::filter);
        }
        assert(list_view(out) =~= positions.take(0).filter(serves_here).map_values(|i: int| all[i]));
        for n in 0..order.len()
            invariant
                shaped@.len() == self.state.accounts@.len(),
                s == self.state@.accounts,
                all == shown(s, list_view(*shaped), self.rules@),
                order@.len() == keys@.len(),
                keys@.len() == s.len(),
                positions == order@.map_values(|i: usize| i as int),
                forall|i: int| 0 <= i < order@.len() ==> #[trigger] order@[i] < keys@.len(),
                serves_here == (|i: int| serves(s[i], provider@)),
                list_view(out) == positions.take(n as int).filter(serves_here).map_values(
                    |i: int| all[i],
                ),
        {
            let at: usize = order[n];
            assert(positions.take(n + 1).drop_last() =~= positions.take(n as int));
            assert(positions.take(n + 1).last() == at as int);
            assert(positions.take(n + 1).filter(serves_here) == if serves_here(at as int) {
                positions.take(n as int).filter(serves_here).push(at as int)
            } else {
                positions.take(n as int).filter(serves_here)
            }) by {
                reveal(Seq::filter);
            }
            let record = &self.state.accounts[at];
            assert(s[at as int] == record@);
            if same(record.provider().as_str(), provider) && record.enabled()
                && record.has_credentials() {
                assert(list_view(*shaped)[at as int] == shaped@[at as int]@);
                push_value(&mut out, self.public_account(record, shaped[at].dup()));
                assert(list_view(out) =~= positions.take(n + 1).filter(serves_here).map_values(
                    |i: int| all[i],
                ));
            }
        }
        assert(positions.take(positions.len() as int) =~= positions);
        out
    }
}

} // verus!
