//! Terms from afar: what a fetched list says, and when it is merged.
use vstd::prelude::*;
use crate::desensitize::engine::{clean, normalize_terms};
use crate::desensitize::service::{missing_from, with_missing, Desensitizer, ServiceView};
use crate::desensitize::state::{string_list, texts_in};
use crate::json::{find, json_of_text, parse_json, Fields, Json, JsonValue};
use crate::number::{int_number, number_as_u64, number_below, number_truncated};
use crate::text::{concat, decimal, decimal_i64, decimal_u64, trim, trimmed};
use crate::words::words;

verus! {

/// How long fetching may take.
pub const FETCH_TIMEOUT_MS: u64 = 30_000;

/// How many terms from afar are taken.
pub const MAX_REMOTE_TERMS: usize = 4000;

/// A list of terms from afar.
pub struct RemoteTerms {
    pub version: u32,
    pub terms: Vec<String>,
}

/// The plain value of [`RemoteTerms`].
pub struct RemoteView {
    pub version: u32,
    pub terms: Seq<Seq<char>>,
}

impl View for RemoteTerms {
    type V = RemoteView;

    open spec fn view(&self) -> RemoteView {
        RemoteView { version: self.version, terms: words(self.terms@) }
    }
}

/// The version that an object names, zero where it names none that fits.
pub open spec fn named_version(o: Fields) -> u32 {
    match find(o, "version"@) {
        Some(Json::Num(n)) => match number_as_u64(n) {
            Some(k) => if k <= u32::MAX {
                k as u32
            } else {
                0
            },
            None => 0,
        },
        _ => 0,
    }
}

/// What a document says: an object with a version and a list, or a bare list.
pub open spec fn remote_in(doc: Json) -> Result<RemoteView, Seq<char>> {
    match doc {
        Json::Obj(o) => match find(o, "terms"@) {
            Some(Json::Arr(items)) => Ok(
                RemoteView { version: named_version(o), terms: clean(texts_in(items)) },
            ),
            _ => Err("缺少 terms 数组"@),
        },
        Json::Arr(items) => Ok(RemoteView { version: 0, terms: clean(texts_in(items)) }),
        _ => Err("顶层必须是对象或数组"@),
    }
}

/// What a text says.
pub open spec fn remote_of_text(text: Seq<char>) -> Result<RemoteView, Seq<char>> {
    match json_of_text(text) {
        Ok(doc) => remote_in(doc),
        Err(e) => Err("JSON 解析失败："@ + e),
    }
}

/// [`remote_in`].
pub fn remote_of_document(doc: &JsonValue) -> (r: Result<RemoteTerms, String>)
    ensures
        match remote_in(doc@) {
            Ok(v) => r is Ok && r->Ok_0@ == v,
            Err(e) => r is Err && r->Err_0@ == e,
        },
{
    match doc {
        JsonValue::Obj(o) => {
            let version: u32 = match o.get("version") {
                Some(JsonValue::Num(n)) => match n.as_u64() {
                    Some(k) => if k <= u32::MAX as u64 {
                        k as u32
                    } else {
                        0
                    },
                    None => 0,
                },
                _ => 0,
            };
            match o.get("terms") {
                Some(JsonValue::Arr(items)) => Ok(
                    RemoteTerms { version, terms: normalize_terms(&string_list(items)) },
                ),
                _ => Err("缺少 terms 数组".to_owned()),
            }
        },
        JsonValue::Arr(items) => Ok(
            RemoteTerms { version: 0, terms: normalize_terms(&string_list(items)) },
        ),
        _ => Err("顶层必须是对象或数组".to_owned()),
    }
}

/// [`remote_of_text`].
pub fn parse_remote(text: &str) -> (r: Result<RemoteTerms, String>)
    ensures
        match remote_of_text(text@) {
            Ok(v) => r is Ok && r->Ok_0@ == v,
            Err(e) => r is Err && r->Err_0@ == e,
        },
{
    match parse_json(text) {
        Ok(doc) => remote_of_document(&doc),
        Err(e) => Err(concat("JSON 解析失败：", e.as_str())),
    }
}

/// A list from afar is never longer than what is taken.
pub proof fn remote_list_is_bounded(doc: Json)
    requires
        remote_in(doc) is Ok,
    ensures
        remote_in(doc)->Ok_0.terms.len() <= MAX_REMOTE_TERMS,
{
    match doc {
        Json::Obj(o) => {
            let items = find(o, "terms"@)->0->Arr_0;
            crate::desensitize::engine::clean_is_clean(texts_in(items));
        },
        Json::Arr(items) => {
            crate::desensitize::engine::clean_is_clean(texts_in(items));
        },
        _ => {},
    }
}

/// Where the list is fetched: as the environment says, else the usual place.
pub fn remote_url(value: Option<&str>) -> (out: String)
    ensures
        out@ == if value is Some && trimmed(value->0@).len() > 0 {
            trimmed(value->0@)
        } else {
            "https://raw.githubusercontent.com/aimod-cc/agent2api/main/sensitive-words.json"@
        },
{
    if let Some(v) = value {
        let url = trim(v);
        if !url.as_str().is_empty() {
            return url;
        }
    }
    "https://raw.githubusercontent.com/aimod-cc/agent2api/main/sensitive-words.json".to_owned()
}

/// What came of the last synchronisation.
pub struct SyncState {
    pub last_sync_at: i64,
    pub remote_version: u32,
    pub added: usize,
    pub message: String,
}

/// The plain value of a [`SyncState`].
pub struct SyncView {
    pub last_sync_at: i64,
    pub remote_version: u32,
    pub added: nat,
    pub message: Seq<char>,
}

impl View for SyncState {
    type V = SyncView;

    open spec fn view(&self) -> SyncView {
        SyncView {
            last_sync_at: self.last_sync_at,
            remote_version: self.remote_version,
            added: self.added as nat,
            message: self.message@,
        }
    }
}

impl SyncState {
    /// Nothing was synchronised yet.
    pub fn never() -> (out: SyncState)
        ensures
            out@ == (SyncView {
                last_sync_at: 0,
                remote_version: 0,
                added: 0,
                message: Seq::empty(),
            }),
    {
        SyncState { last_sync_at: 0, remote_version: 0, added: 0, message: String::new() }
    }
}

/// The list is merged: its version is later, or it was asked for.
pub open spec fn merges(s: ServiceView, version: u32, force: bool) -> bool {
    force || number_below(s.version, version as i64)
}

/// The settings after a list was merged.
pub open spec fn merged(s: ServiceView, remote: RemoteView) -> ServiceView {
    ServiceView {
        terms: with_missing(s.terms, remote.terms),
        version: if number_below(s.version, remote.version as i64) {
            int_number(remote.version as int)
        } else {
            s.version
        },
        ..s
    }
}

/// The settings after a synchronisation. Where nothing could be fetched, nothing changes.
pub open spec fn synced(s: ServiceView, remote: Option<RemoteView>, force: bool) -> ServiceView {
    match remote {
        Some(r) => if merges(s, r.version, force) {
            merged(s, r)
        } else {
            s
        },
        None => s,
    }
}

pub open spec fn latest_message(s: ServiceView, version: u32) -> Seq<char> {
    "已是最新（远端 v"@ + decimal(version as int) + "，本地 v"@ + decimal(number_truncated(s.version))
        + "）"@
}

pub open spec fn merged_message(s: ServiceView, r: RemoteView) -> Seq<char> {
    let added = missing_from(s.terms, r.terms).len();
    let after = merged(s, r).terms.len();
    if added == 0 {
        "远端 v"@ + decimal(r.version as int) + " 无新增词条（当前 "@ + decimal(after as int) + " 个）"@
    } else {
        "远端 v"@ + decimal(r.version as int) + " 补入 "@ + decimal(added as int) + " 个词条（"@
            + decimal(s.terms.len() as int) + " → "@ + decimal(after as int) + " 个）"@
    }
}

/// What is told of a synchronisation.
pub open spec fn sync_result(
    s: ServiceView,
    remote: Result<RemoteView, Seq<char>>,
    force: bool,
    now: i64,
) -> SyncView {
    match remote {
        Err(e) => SyncView {
            last_sync_at: now,
            remote_version: 0,
            added: 0,
            message: "拉取失败："@ + e,
        },
        Ok(r) => if merges(s, r.version, force) {
            SyncView {
                last_sync_at: now,
                remote_version: r.version,
                added: missing_from(s.terms, r.terms).len(),
                message: merged_message(s, r),
            }
        } else {
            SyncView {
                last_sync_at: now,
                remote_version: r.version,
                added: 0,
                message: latest_message(s, r.version),
            }
        },
    }
}

/// A synchronisation only ever adds terms, and the version never goes back.
pub proof fn sync_only_adds(s: ServiceView, remote: Option<RemoteView>, force: bool)
    requires
        crate::desensitize::engine::is_clean(s.terms),
    ensures
        synced(s, remote, force).terms.len() >= s.terms.len(),
        synced(s, remote, force).terms.take(s.terms.len() as int) == s.terms,
        synced(s, remote, force).version == s.version || (remote is Some && number_below(
            s.version,
            remote->0.version as i64,
        )),
{
    assert(s.terms.take(s.terms.len() as int) =~= s.terms);
    match remote {
        Some(r) => {
            crate::desensitize::service::adding_keeps_terms(s.terms, r.terms);
        },
        None => {},
    }
}

/// The plain value of what was fetched.
pub open spec fn fetched_view(fetched: Result<RemoteTerms, String>) -> Result<RemoteView, Seq<char>> {
    match fetched {
        Ok(r) => Ok(r@),
        Err(e) => Err(e@),
    }
}

pub open spec fn fetched_ok(fetched: Result<RemoteTerms, String>) -> Option<RemoteView> {
    match fetched {
        Ok(r) => Some(r@),
        Err(_) => None,
    }
}

/// Merges what was fetched, where it is to be merged, and tells what came of it.
pub fn sync(
    local: &mut Desensitizer,
    fetched: Result<RemoteTerms, String>,
    force: bool,
    now: i64,
) -> (out: SyncState)
    requires
        old(local).wf(),
    ensures
        final(local).wf(),
        final(local)@ == synced(old(local)@, fetched_ok(fetched), force),
        out@ == sync_result(old(local)@, fetched_view(fetched), force, now),
{
    let ghost s = local@;
    let remote = match fetched {
        Ok(remote) => remote,
        Err(e) => {
            return SyncState {
                last_sync_at: now,
                remote_version: 0,
                added: 0,
                message: concat("拉取失败：", e.as_str()),
            };
        },
    };
    let before_version = local.defaults_version();
    let before_count = local.term_count();
    if !force && !before_version.below(remote.version as i64) {
        let mut message = concat("已是最新（远端 v", decimal_u64(remote.version as u64).as_str());
        message.append("，本地 v");
        message.append(decimal_i64(before_version.truncated()).as_str());
        message.append("）");
        return SyncState {
            last_sync_at: now,
            remote_version: remote.version,
            added: 0,
            message,
        };
    }
    let added = local.merge_remote_terms(&remote.terms, remote.version);
    assert(words(added@).len() == added@.len());
    let mut message = concat("远端 v", decimal_u64(remote.version as u64).as_str());
    if added.len() == 0 {
        message.append(" 无新增词条（当前 ");
        message.append(decimal_u64(local.term_count() as u64).as_str());
        message.append(" 个）");
    } else {
        message.append(" 补入 ");
        message.append(decimal_u64(added.len() as u64).as_str());
        message.append(" 个词条（");
        message.append(decimal_u64(before_count as u64).as_str());
        message.append(" → ");
        message.append(decimal_u64(local.term_count() as u64).as_str());
        message.append(" 个）");
    }
    SyncState {
        last_sync_at: now,
        remote_version: remote.version,
        added: added.len(),
        message,
    }
}

} // verus!
