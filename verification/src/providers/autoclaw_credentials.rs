//! Where AutoClaw credentials come from, and which of them count.
//!
//! The desktop client's file comes first, the gateway configuration second; where both fail, the
//! error is that of the first. What only the operating system can do (reading files, decrypting,
//! taking a token apart) is done by the caller, and its outcome is handed in.
use vstd::prelude::*;
use crate::js::{either, json_number, plain_number};
use crate::json::{
    field, find, json_of_text, list_view, number_of, number_view, parse_json, read_number,
    render_json, seen, text_in, text_of_json, text_or_empty, text_seen, text_view, Fields, Json,
    JsonValue, Object,
};
use crate::number::{number_exceeds, number_positive, Number, NumberView, EXACT_BELOW};
use crate::text::{
    begins, chars_of, concat, concat3, decimal, decimal_i64, i64_of_text, last_chars, parse_i64,
    same, same_ignoring_case, starts_with, tail, text_between, trim, trimmed,
};

verus! {

/// The largest credentials file that is read.
pub const MAX_AUTH_FILE_SIZE: u64 = 262_144;

/// How long a request for credentials may take.
pub const REQUEST_TIMEOUT_MS: u64 = 30_000;

/// How long before a token expires it is refreshed.
pub const PROACTIVE_REFRESH_MARGIN_MS: i64 = 120_000;

/// The code that asks for the other way to refresh.
pub const REFRESH_FALLBACK_CODE: i64 = 400_002;

/// Where credentials come from.
#[derive(Clone, Copy, PartialEq, Eq, Structural)]
pub enum CredentialOrigin {
    DesktopAuthFile,
    GatewayConfig,
    AccountStore,
    Environment,
}

impl CredentialOrigin {
    /// The credentials are those of a file on this machine, as they are at the moment.
    pub fn is_local_file(self) -> (r: bool)
        ensures
            r == (self == CredentialOrigin::DesktopAuthFile || self
                == CredentialOrigin::GatewayConfig),
    {
        match self {
            CredentialOrigin::DesktopAuthFile => true,
            CredentialOrigin::GatewayConfig => true,
            _ => false,
        }
    }
}

/// Credentials, ready for use.
pub struct AutoClawCredentials {
    pub id: String,
    pub token: String,
    pub refresh_token: String,
    pub device_id: String,
    pub user_id: String,
    pub expires_at: Option<Number>,
    pub origin: CredentialOrigin,
    pub cache_key: Option<String>,
}

/// The plain value of [`AutoClawCredentials`].
pub struct CredentialsView {
    pub id: Seq<char>,
    pub token: Seq<char>,
    pub refresh_token: Seq<char>,
    pub device_id: Seq<char>,
    pub user_id: Seq<char>,
    pub expires_at: Option<NumberView>,
    pub origin: CredentialOrigin,
    pub cache_key: Option<Seq<char>>,
}

impl View for AutoClawCredentials {
    type V = CredentialsView;

    open spec fn view(&self) -> CredentialsView {
        CredentialsView {
            id: self.id@,
            token: self.token@,
            refresh_token: self.refresh_token@,
            device_id: self.device_id@,
            user_id: self.user_id@,
            expires_at: number_view(self.expires_at),
            origin: self.origin,
            cache_key: text_view(self.cache_key),
        }
    }
}

fn dup_text(v: &Option<String>) -> (r: Option<String>)
    ensures
        text_view(r) == text_view(*v),
{
    match v {
        Some(s) => Some(s.clone()),
        None => None,
    }
}

fn dup_number(v: &Option<Number>) -> (r: Option<Number>)
    ensures
        number_view(r) == number_view(*v),
{
    match v {
        Some(n) => Some(n.dup()),
        None => None,
    }
}

/// An empty text.
fn nothing() -> (out: String)
    ensures
        out@ == Seq::<char>::empty(),
{
    String::new()
}

impl AutoClawCredentials {
    /// The same credentials again.
    pub fn dup(&self) -> (out: AutoClawCredentials)
        ensures
            out@ == self@,
    {
        AutoClawCredentials {
            id: self.id.clone(),
            token: self.token.clone(),
            refresh_token: self.refresh_token.clone(),
            device_id: self.device_id.clone(),
            user_id: self.user_id.clone(),
            expires_at: dup_number(&self.expires_at),
            origin: self.origin,
            cache_key: dup_text(&self.cache_key),
        }
    }

    /// The credentials expire within the margin. Where nobody knows when they expire, they do
    /// not. The time is one that doubles hold exactly.
    pub fn is_expiring(&self, now: i64) -> (r: bool)
        requires
            -(EXACT_BELOW as int) < now,
            now + PROACTIVE_REFRESH_MARGIN_MS < EXACT_BELOW,
        ensures
            r == match self@.expires_at {
                Some(n) => !number_exceeds(n, (now + PROACTIVE_REFRESH_MARGIN_MS) as i64),
                None => false,
            },
    {
        match &self.expires_at {
            Some(n) => !n.exceeds(now + PROACTIVE_REFRESH_MARGIN_MS),
            None => false,
        }
    }

    /// Credentials with a refresh token can be refreshed.
    pub fn can_refresh(&self) -> (r: bool)
        ensures
            r == (self@.refresh_token.len() > 0),
    {
        !self.refresh_token.as_str().is_empty()
    }
}

// ─── Paths and addresses ─────────────────────────────────────

/// The plain values of the parts of a path.
pub open spec fn path_view(parts: Seq<String>) -> Seq<Seq<char>> {
    parts.map_values(|s: String| s@)
}

/// Where the desktop client keeps its data: as the environment says, else the client's place on
/// Windows; nowhere on other systems.
pub open spec fn user_data_dir(
    override_dir: Option<Seq<char>>,
    windows: bool,
    appdata: Option<Seq<char>>,
    home: Seq<char>,
) -> Option<Seq<Seq<char>>> {
    if override_dir is Some && trimmed(override_dir->0).len() > 0 {
        Some(seq![trimmed(override_dir->0)])
    } else if !windows {
        None
    } else if appdata is Some && trimmed(appdata->0).len() > 0 {
        Some(seq![trimmed(appdata->0), "AutoClaw"@])
    } else {
        Some(seq![home, "AppData"@, "Roaming"@, "AutoClaw"@])
    }
}

fn default_user_data_dir(
    override_dir: Option<&str>,
    windows: bool,
    appdata: Option<&str>,
    home: &str,
) -> (r: Option<Vec<String>>)
    ensures
        match user_data_dir(text_seen(override_dir), windows, text_seen(appdata), home@) {
            Some(p) => r is Some && path_view(r->0@) == p,
            None => r is None,
        },
{
    let mut parts: Vec<String> = Vec::new();
    if let Some(dir) = override_dir {
        let dir = trim(dir);
        if !dir.as_str().is_empty() {
            let ghost text = dir@;
            parts.push(dir);
            assert(path_view(parts@) =~= seq![text]);
            return Some(parts);
        }
    }
    if !windows {
        return None;
    }
    if let Some(dir) = appdata {
        let dir = trim(dir);
        if !dir.as_str().is_empty() {
            let ghost text = dir@;
            parts.push(dir);
            parts.push("AutoClaw".to_owned());
            assert(path_view(parts@) =~= seq![text, "AutoClaw"@]);
            return Some(parts);
        }
    }
    parts.push(home.to_owned());
    parts.push("AppData".to_owned());
    parts.push("Roaming".to_owned());
    parts.push("AutoClaw".to_owned());
    assert(path_view(parts@) =~= seq![home@, "AppData"@, "Roaming"@, "AutoClaw"@]);
    Some(parts)
}

/// The desktop client's file with the tokens, part by part.
pub fn desktop_auth_file(
    override_dir: Option<&str>,
    windows: bool,
    appdata: Option<&str>,
    home: &str,
) -> (r: Option<Vec<String>>)
    ensures
        match user_data_dir(text_seen(override_dir), windows, text_seen(appdata), home@) {
            Some(p) => r is Some && path_view(r->0@) == p.push("auth.json"@),
            None => r is None,
        },
{
    match default_user_data_dir(override_dir, windows, appdata, home) {
        Some(dir) => {
            let mut parts = dir;
            let ghost before = parts@;
            parts.push("auth.json".to_owned());
            assert(path_view(parts@) =~= path_view(before).push("auth.json"@));
            Some(parts)
        },
        None => None,
    }
}

/// The desktop client's file with the key, part by part.
pub fn local_state_file(
    override_dir: Option<&str>,
    windows: bool,
    appdata: Option<&str>,
    home: &str,
) -> (r: Option<Vec<String>>)
    ensures
        match user_data_dir(text_seen(override_dir), windows, text_seen(appdata), home@) {
            Some(p) => r is Some && path_view(r->0@) == p.push("Local State"@),
            None => r is None,
        },
{
    match default_user_data_dir(override_dir, windows, appdata, home) {
        Some(dir) => {
            let mut parts = dir;
            let ghost before = parts@;
            parts.push("Local State".to_owned());
            assert(path_view(parts@) =~= path_view(before).push("Local State"@));
            Some(parts)
        },
        None => None,
    }
}

/// The gateway configuration, part by part.
pub fn gateway_config_file(home: &str) -> (parts: Vec<String>)
    ensures
        path_view(parts@) == seq![home@, ".openclaw-autoclaw"@, "openclaw.json"@],
{
    let mut parts: Vec<String> = Vec::new();
    parts.push(home.to_owned());
    parts.push(".openclaw-autoclaw".to_owned());
    parts.push("openclaw.json".to_owned());
    assert(path_view(parts@) =~= seq![home@, ".openclaw-autoclaw"@, "openclaw.json"@]);
    parts
}

/// A text without the slashes it ends with.
pub open spec fn without_slashes(text: Seq<char>) -> Seq<char>
    decreases text.len(),
{
    if text.len() > 0 && text.last() == '/' {
        without_slashes(text.drop_last())
    } else {
        text
    }
}

/// An address: as the environment says, else the default.
pub open spec fn base_url(value: Option<Seq<char>>, default: Seq<char>) -> Seq<char> {
    match value {
        Some(v) => if without_slashes(trimmed(v)).len() > 0 {
            without_slashes(trimmed(v))
        } else {
            default
        },
        None => default,
    }
}

fn base_url_of(value: Option<&str>, default: &str) -> (out: String)
    ensures
        out@ == base_url(text_seen(value), default@),
{
    match value {
        Some(v) => {
            let chars = chars_of(trim(v).as_str());
            let mut to: usize = chars.len();
            assert(chars@.take(to as int) =~= chars@);
            while to > 0 && chars[to - 1] == '/'
                invariant
                    to <= chars@.len(),
                    without_slashes(chars@) == without_slashes(chars@.take(to as int)),
                decreases to,
            {
                assert(chars@.take(to as int).drop_last() =~= chars@.take(to - 1));
                to = to - 1;
            }
            assert(chars@.subrange(0, to as int) =~= chars@.take(to as int));
            let url = text_between(&chars, 0, to);
            if url.as_str().is_empty() {
                default.to_owned()
            } else {
                url
            }
        },
        None => default.to_owned(),
    }
}

/// Where users are kept.
pub fn userapi_base_url(value: Option<&str>) -> (out: String)
    ensures
        out@ == base_url(text_seen(value), "https://autoglm-acceleration-api.zhipuai.cn"@),
{
    base_url_of(value, "https://autoglm-acceleration-api.zhipuai.cn")
}

/// Where requests are forwarded to.
pub fn upstream_base_url(value: Option<&str>) -> (out: String)
    ensures
        out@ == base_url(
            text_seen(value),
            "https://autoglm-acceleration-api.zhipuai.cn/autoclaw-proxy/proxy/autoclaw"@,
        ),
{
    base_url_of(value, "https://autoglm-acceleration-api.zhipuai.cn/autoclaw-proxy/proxy/autoclaw")
}

// ─── Files ───────────────────────────────────────────────────

/// What is known of a file before it is read.
pub struct FileFacts {
    pub found: bool,
    pub access_error: Option<String>,
    pub symlink: bool,
    pub regular: bool,
    pub size: u64,
}

/// Why a file is not read, if it is not: only a regular file of a fitting size is, and no link.
pub open spec fn file_refusal(label: Seq<char>, facts: FileFacts) -> Option<Seq<char>> {
    if !facts.found {
        Some("未找到"@ + label)
    } else if facts.access_error is Some {
        Some("无法访问"@ + label + ": "@ + facts.access_error->0@)
    } else if facts.symlink {
        Some(label + "路径是符号链接，已拒绝读取"@)
    } else if !facts.regular {
        Some(label + "路径不是普通文件"@)
    } else if facts.size == 0 || facts.size > MAX_AUTH_FILE_SIZE {
        Some(label + "文件大小异常"@)
    } else {
        None
    }
}

/// [`file_refusal`].
pub fn check_file(label: &str, facts: &FileFacts) -> (r: Option<String>)
    ensures
        text_view(r) == file_refusal(label@, *facts),
{
    if !facts.found {
        return Some(concat("未找到", label));
    }
    if let Some(error) = &facts.access_error {
        let mut message = concat3("无法访问", label, ": ");
        message.append(error.as_str());
        return Some(message);
    }
    if facts.symlink {
        Some(concat(label, "路径是符号链接，已拒绝读取"))
    } else if !facts.regular {
        Some(concat(label, "路径不是普通文件"))
    } else if facts.size == 0 || facts.size > MAX_AUTH_FILE_SIZE {
        Some(concat(label, "文件大小异常"))
    } else {
        None
    }
}

/// The object that the text of a file holds, or why it holds none.
pub open spec fn file_object(label: Seq<char>, text: Seq<char>) -> Result<Fields, Seq<char>> {
    match json_of_text(text) {
        Ok(Json::Obj(o)) => Ok(o),
        Ok(_) => Err(label + "根节点不是 JSON 对象"@),
        Err(_) => Err(label + "无法解析（不是有效 JSON）"@),
    }
}

/// [`file_object`].
pub fn read_json_file(label: &str, text: &str) -> (r: Result<Object, String>)
    ensures
        match file_object(label@, text@) {
            Ok(o) => r is Ok && r->Ok_0@ == o,
            Err(e) => r is Err && r->Err_0@ == e,
        },
{
    match parse_json(text) {
        Ok(JsonValue::Obj(o)) => Ok(o),
        Ok(_) => Err(concat(label, "根节点不是 JSON 对象")),
        Err(_) => Err(concat(label, "无法解析（不是有效 JSON）")),
    }
}

// ─── The cache ───────────────────────────────────────────────

/// The key under which the credentials of a file are kept: the kind of file, a fingerprint of its
/// path, and the time of its last change.
pub open spec fn key_of(kind: Seq<char>, fingerprint: Seq<char>, modified_at: i64) -> Seq<char> {
    kind + ":"@ + fingerprint + ":"@ + decimal(modified_at as int)
}

/// [`key_of`].
pub fn cache_key(kind: &str, fingerprint: &str, modified_at: i64) -> (out: String)
    ensures
        out@ == key_of(kind@, fingerprint@, modified_at),
{
    let mut out = concat3(kind, ":", fingerprint);
    out.append(":");
    out.append(decimal_i64(modified_at).as_str());
    out
}

/// Where the first colon stands; the length of the text where there is none.
pub open spec fn first_colon(text: Seq<char>) -> int
    decreases text.len(),
{
    if text.len() == 0 || text[0] == ':' {
        0
    } else {
        1 + first_colon(text.drop_first())
    }
}

/// Where the last colon stands; less than zero where there is none.
pub open spec fn last_colon(text: Seq<char>) -> int
    decreases text.len(),
{
    if text.len() == 0 {
        -1
    } else if text.last() == ':' {
        text.len() - 1
    } else {
        last_colon(text.drop_last())
    }
}

/// The kind of file and the time of change that a key tells of.
pub open spec fn key_parts(key: Seq<char>) -> Option<(Seq<char>, i64)> {
    let at = last_colon(key);
    if at < 0 {
        None
    } else {
        match i64_of_text(key.skip(at + 1)) {
            Some(stamp) => {
                let prefix = key.take(at);
                let end = first_colon(prefix);
                if end < prefix.len() {
                    Some((prefix.take(end), stamp))
                } else {
                    None
                }
            },
            None => None,
        }
    }
}

proof fn lemma_last_colon(text: Seq<char>, at: int)
    requires
        0 <= at < text.len(),
        text[at] == ':',
        forall|i: int| at < i < text.len() ==> text[i] != ':',
    ensures
        last_colon(text) == at,
    decreases text.len(),
{
    if at < text.len() - 1 {
        assert(text.last() == text[text.len() - 1]);
        lemma_last_colon(text.drop_last(), at);
    }
}

proof fn lemma_first_colon(text: Seq<char>, at: int)
    requires
        0 <= at < text.len(),
        text[at] == ':',
        forall|i: int| 0 <= i < at ==> text[i] != ':',
    ensures
        first_colon(text) == at,
    decreases text.len(),
{
    if at > 0 {
        assert(text[0] != ':');
        lemma_first_colon(text.drop_first(), at - 1);
    }
}

proof fn lemma_first_colon_range(text: Seq<char>)
    ensures
        0 <= first_colon(text) <= text.len(),
    decreases text.len(),
{
    if text.len() > 0 && text[0] != ':' {
        lemma_first_colon_range(text.drop_first());
    }
}

/// A key tells the kind and the time that it was made from, whatever the fingerprint.
pub proof fn cache_key_reads_back(kind: Seq<char>, fingerprint: Seq<char>, modified_at: i64)
    requires
        forall|i: int| 0 <= i < kind.len() ==> kind[i] != ':',
    ensures
        key_parts(key_of(kind, fingerprint, modified_at)) == Some((kind, modified_at)),
{
    reveal_strlit(":");
    let stamp = decimal(modified_at as int);
    let prefix = kind + ":"@ + fingerprint;
    let key = key_of(kind, fingerprint, modified_at);
    let at = prefix.len() as int;
    crate::text::numeral_reads_back(modified_at as int);
    assert(":"@.len() == 1 && ":"@[0] == ':');
    assert(key[at] == ':');
    assert(key.skip(at + 1) =~= stamp);
    assert forall|i: int| at < i < key.len() implies key[i] != ':' by {
        assert(key[i] == stamp[i - at - 1]);
        lemma_decimal_no_colon(modified_at as int, i - at - 1);
    }
    lemma_last_colon(key, at);
    assert(key.take(at) =~= prefix);
    assert(prefix[kind.len() as int] == ':');
    assert forall|i: int| 0 <= i < kind.len() implies prefix[i] != ':' by {
        assert(prefix[i] == kind[i]);
    }
    lemma_first_colon(prefix, kind.len() as int);
    assert(prefix.take(kind.len() as int) =~= kind);
}

proof fn lemma_decimal_no_colon(n: int, i: int)
    requires
        0 <= i < decimal(n).len(),
    ensures
        decimal(n)[i] != ':',
{
    crate::text::numeral_reads_back(n);
    let text = decimal(n);
    if text[0] == '-' || text[0] == '+' {
        if i > 0 {
            assert(crate::text::all_digits(text.skip(1)));
            assert(crate::text::is_digit(text.skip(1)[i - 1]));
        }
    } else {
        assert(crate::text::is_digit(text[i]));
    }
}

/// The kind of file that credentials were read from.
#[derive(Clone, Copy, PartialEq, Eq, Structural)]
pub enum LocalSource {
    AuthFile,
    GatewayConfig,
}

/// The file and the time of change that a key tells of.
pub open spec fn source_of(key: Seq<char>) -> Option<(LocalSource, i64)> {
    match key_parts(key) {
        Some(p) => if p.0 == "auth"@ {
            Some((LocalSource::AuthFile, p.1))
        } else if p.0 == "gw"@ {
            Some((LocalSource::GatewayConfig, p.1))
        } else {
            None
        },
        None => None,
    }
}

/// [`source_of`].
pub fn local_source(key: &str) -> (r: Option<(LocalSource, i64)>)
    ensures
        r == source_of(key@),
{
    let chars = chars_of(key);
    let mut at: usize = chars.len();
    assert(chars@.take(at as int) =~= chars@);
    while at > 0 && chars[at - 1] != ':'
        invariant
            at <= chars@.len(),
            last_colon(chars@) == last_colon(chars@.take(at as int)),
        decreases at,
    {
        assert(chars@.take(at as int).drop_last() =~= chars@.take(at - 1));
        at = at - 1;
    }
    if at == 0 {
        return None;
    }
    assert(chars@.take(at as int).last() == ':');
    assert(last_colon(chars@) == at - 1);
    assert(chars@.subrange(at as int, chars@.len() as int) =~= chars@.skip(at as int));
    let stamp = match parse_i64(text_between(&chars, at, chars.len()).as_str()) {
        Some(n) => n,
        None => {
            return None;
        },
    };
    let end: usize = at - 1;
    let ghost prefix = chars@.take(end as int);
    let mut i: usize = 0;
    assert(prefix.skip(0) =~= prefix);
    while i < end && chars[i] != ':'
        invariant
            i <= end < chars@.len(),
            prefix == chars@.take(end as int),
            first_colon(prefix) == i + first_colon(prefix.skip(i as int)),
        decreases end - i,
    {
        assert(prefix.skip(i as int)[0] == chars@[i as int]);
        assert(prefix.skip(i as int).drop_first() =~= prefix.skip(i + 1));
        i = i + 1;
    }
    if i == end {
        return None;
    }
    assert(prefix.skip(i as int)[0] == ':');
    assert(chars@.subrange(0, i as int) =~= prefix.take(i as int));
    let kind = text_between(&chars, 0, i);
    if same(kind.as_str(), "auth") {
        Some((LocalSource::AuthFile, stamp))
    } else if same(kind.as_str(), "gw") {
        Some((LocalSource::GatewayConfig, stamp))
    } else {
        None
    }
}

/// The file of credentials is still the one that they were read from. `seen_at` is the time of
/// its last change, if it is a regular file that can be looked at. Credentials of no file have
/// nothing that could change.
pub open spec fn unchanged(key: Option<Seq<char>>, seen_at: Option<i64>) -> bool {
    match key {
        None => true,
        Some(k) => match source_of(k) {
            Some(s) => seen_at == Some(s.1),
            None => false,
        },
    }
}

/// [`unchanged`].
pub fn local_source_unchanged(credentials: &AutoClawCredentials, seen_at: Option<i64>) -> (r: bool)
    ensures
        r == unchanged(credentials@.cache_key, seen_at),
{
    match &credentials.cache_key {
        None => true,
        Some(key) => match local_source(key.as_str()) {
            Some((_, stamp)) => match seen_at {
                Some(t) => t == stamp,
                None => false,
            },
            None => false,
        },
    }
}

/// The one set of credentials that is kept.
pub struct CredentialsCache {
    pub slot: Option<(String, AutoClawCredentials)>,
}

/// The plain value of a [`CredentialsCache`].
pub open spec fn slot_view(slot: Option<(String, AutoClawCredentials)>) -> Option<
    (Seq<char>, CredentialsView),
> {
    match slot {
        Some(s) => Some((s.0@, s.1@)),
        None => None,
    }
}

impl View for CredentialsCache {
    type V = Option<(Seq<char>, CredentialsView)>;

    open spec fn view(&self) -> Option<(Seq<char>, CredentialsView)> {
        slot_view(self.slot)
    }
}

/// What the cache holds under a key.
pub open spec fn cached(
    slot: Option<(Seq<char>, CredentialsView)>,
    key: Seq<char>,
) -> Option<CredentialsView> {
    match slot {
        Some(s) => if s.0 == key {
            Some(s.1)
        } else {
            None
        },
        None => None,
    }
}

/// The cache still holds the credentials that were refreshed, and their file is unchanged.
pub open spec fn still_current(
    slot: Option<(Seq<char>, CredentialsView)>,
    key: Seq<char>,
    expected: CredentialsView,
    seen_at: Option<i64>,
) -> bool {
    &&& unchanged(expected.cache_key, seen_at)
    &&& cached(slot, key) is Some
    &&& cached(slot, key)->0.token == expected.token
    &&& cached(slot, key)->0.refresh_token == expected.refresh_token
}

impl CredentialsCache {
    pub fn new() -> (out: CredentialsCache)
        ensures
            out@ is None,
    {
        CredentialsCache { slot: None }
    }

    /// [`cached`].
    pub fn lookup_cached(&self, key: &str) -> (r: Option<AutoClawCredentials>)
        ensures
            match cached(self@, key@) {
                Some(c) => r is Some && r->0@ == c,
                None => r is None,
            },
    {
        match &self.slot {
            Some(s) => if same(s.0.as_str(), key) {
                Some(s.1.dup())
            } else {
                None
            },
            None => None,
        }
    }

    /// Keeps credentials in place of those kept before.
    pub fn store_cached(&mut self, key: &str, credentials: &AutoClawCredentials)
        ensures
            final(self)@ == Some((key@, credentials@)),
    {
        self.slot = Some((key.to_owned(), credentials.dup()));
    }

    /// Keeps refreshed credentials only where those that were refreshed are still the current
    /// ones, so that a slow refresh never displaces a new sign-in.
    pub fn store_cached_if_current(
        &mut self,
        key: &str,
        expected: &AutoClawCredentials,
        credentials: &AutoClawCredentials,
        seen_at: Option<i64>,
    ) -> (r: bool)
        ensures
            r == still_current(old(self)@, key@, expected@, seen_at),
            final(self)@ == if r {
                Some((key@, credentials@))
            } else {
                old(self)@
            },
    {
        if !local_source_unchanged(expected, seen_at) {
            return false;
        }
        let current = match &self.slot {
            Some(s) => same(s.0.as_str(), key) && same(s.1.token.as_str(), expected.token.as_str())
                && same(s.1.refresh_token.as_str(), expected.refresh_token.as_str()),
            None => false,
        };
        if current {
            self.store_cached(key, credentials);
        }
        current
    }
}

// ─── Credentials out of a token ──────────────────────────────

/// A value as text; null as nothing.
pub open spec fn claim_text(v: Option<Json>) -> Seq<char> {
    match v {
        Some(Json::Str(s)) => s,
        Some(Json::Null) => Seq::empty(),
        Some(x) => text_of_json(x),
        None => Seq::empty(),
    }
}

/// What the claims of a token hold under a key.
pub open spec fn claim(claims: Option<Json>, key: Seq<char>) -> Option<Json> {
    match claims {
        Some(c) => field(c, key),
        None => None,
    }
}

/// The claims name a time of expiry.
pub open spec fn names_expiry(claims: Option<Json>) -> bool {
    match number_of(claim(claims, "exp"@)) {
        Some(n) => number_positive(n),
        None => false,
    }
}

/// Credentials with what the claims of their token say. `expiry_ms` is the claimed time of expiry
/// in milliseconds.
pub open spec fn claimed(
    id: Seq<char>,
    token: Seq<char>,
    refresh_token: Seq<char>,
    device_id: Seq<char>,
    claims: Option<Json>,
    expiry_ms: NumberView,
    origin: CredentialOrigin,
    cache_key: Option<Seq<char>>,
) -> CredentialsView {
    CredentialsView {
        id,
        token,
        refresh_token,
        device_id: if device_id.len() > 0 {
            device_id
        } else {
            claim_text(claim(claims, "device_id"@))
        },
        user_id: claim_text(claim(claims, "user_id"@)),
        expires_at: if names_expiry(claims) {
            Some(expiry_ms)
        } else {
            None
        },
        origin,
        cache_key,
    }
}

/// The plain value of optional claims.
pub open spec fn claims_view(claims: &Option<JsonValue>) -> Option<Json> {
    match claims {
        Some(c) => Some(c@),
        None => None,
    }
}

fn claim_of<'a>(claims: &'a Option<JsonValue>, key: &str) -> (r: Option<&'a JsonValue>)
    ensures
        seen(r) == claim(claims_view(claims), key@),
{
    match claims {
        Some(c) => c.get(key),
        None => None,
    }
}

fn claim_string(v: Option<&JsonValue>) -> (out: String)
    ensures
        out@ == claim_text(seen(v)),
{
    match v {
        Some(JsonValue::Str(s)) => s.clone(),
        Some(JsonValue::Null) => nothing(),
        Some(x) => render_json(x),
        None => nothing(),
    }
}

/// What a token says of itself: its claims, and the claimed time of expiry in milliseconds.
pub struct TokenClaims {
    pub claims: Option<JsonValue>,
    pub expiry_ms: Number,
}

/// [`claimed`].
pub fn credentials_from_claims(
    id: String,
    token: String,
    refresh_token: String,
    device_id: String,
    said: &TokenClaims,
    origin: CredentialOrigin,
    cache_key: Option<String>,
) -> (out: AutoClawCredentials)
    ensures
        out@ == claimed(
            id@,
            token@,
            refresh_token@,
            device_id@,
            claims_view(&said.claims),
            said.expiry_ms@,
            origin,
            text_view(cache_key),
        ),
{
    let named = match read_number(claim_of(&said.claims, "exp")) {
        Some(n) => n.is_positive(),
        None => false,
    };
    let device = if device_id.as_str().is_empty() {
        claim_string(claim_of(&said.claims, "device_id"))
    } else {
        device_id
    };
    AutoClawCredentials {
        id,
        token,
        refresh_token,
        device_id: device,
        user_id: claim_string(claim_of(&said.claims, "user_id")),
        expires_at: if named {
            Some(said.expiry_ms.dup())
        } else {
            None
        },
        origin,
        cache_key,
    }
}

/// A token without white space around it and without the word that names its kind.
pub open spec fn bare_token(text: Seq<char>) -> Seq<char> {
    let t = trimmed(text);
    if t.len() >= 7 && same_ignoring_case(t.take(7), "Bearer "@) {
        trimmed(t.skip(7))
    } else {
        t
    }
}

/// [`bare_token`].
pub fn strip_bearer(text: &str) -> (out: String)
    ensures
        out@ == bare_token(text@),
{
    let t = trim(text);
    let chars = chars_of(t.as_str());
    if chars.len() >= 7 {
        assert(chars@.subrange(0, 7) =~= chars@.take(7));
        assert(chars@.subrange(7, chars@.len() as int) =~= chars@.skip(7));
        if crate::text::eq_ignore_case(text_between(&chars, 0, 7).as_str(), "Bearer ") {
            return trim(text_between(&chars, 7, chars.len()).as_str());
        }
    }
    t
}

// ─── The first source: the desktop client's file ─────────────

/// A text that was decrypted, or why it could not be.
pub type Decrypted = Result<String, String>;

/// What the desktop client's file gives. `key_error` is why there is no key, where there is none;
/// `token` and `refresh` are the file's two texts once decrypted.
pub open spec fn auth_file_meaning(
    file: Fields,
    key_error: Option<Seq<char>>,
    token: Decrypted,
    refresh: Decrypted,
    claims: Option<Json>,
    expiry_ms: NumberView,
    cache_key: Seq<char>,
) -> Result<CredentialsView, Seq<char>> {
    let raw_token = text_or_empty(find(file, "token"@));
    let raw_refresh = text_or_empty(find(file, "refreshToken"@));
    if raw_token.len() == 0 && raw_refresh.len() == 0 {
        Err("AutoClaw auth.json 中没有 token"@)
    } else if key_error is Some && begins(raw_token, "enc:"@) {
        Err("AutoClaw token 是加密存储且解密失败: "@ + key_error->0)
    } else {
        match token {
            Err(reason) => Err(reason@),
            Ok(t) => match refresh {
                Err(reason) => Err(reason@),
                Ok(r) => if bare_token(t@).len() == 0 {
                    Err("AutoClaw auth.json token 解密结果为空"@)
                } else {
                    Ok(
                        claimed(
                            "desktop-auth"@,
                            bare_token(t@),
                            bare_token(r@),
                            trimmed(text_or_empty(find(file, "deviceId"@))),
                            claims,
                            expiry_ms,
                            CredentialOrigin::DesktopAuthFile,
                            Some(cache_key),
                        ),
                    )
                },
            },
        }
    }
}

/// [`auth_file_meaning`].
pub fn from_auth_file(
    file: &Object,
    key_error: Option<&str>,
    token: &Decrypted,
    refresh: &Decrypted,
    said: &TokenClaims,
    cache_key: &str,
) -> (r: Result<AutoClawCredentials, String>)
    ensures
        match auth_file_meaning(
            file@,
            text_seen(key_error),
            *token,
            *refresh,
            claims_view(&said.claims),
            said.expiry_ms@,
            cache_key@,
        ) {
            Ok(c) => r is Ok && r->Ok_0@ == c,
            Err(e) => r is Err && r->Err_0@ == e,
        },
{
    let raw_token = text_in(file.get("token"));
    let raw_refresh = text_in(file.get("refreshToken"));
    if raw_token.as_str().is_empty() && raw_refresh.as_str().is_empty() {
        return Err("AutoClaw auth.json 中没有 token".to_owned());
    }
    if let Some(reason) = key_error {
        if starts_with(raw_token.as_str(), "enc:") {
            return Err(concat("AutoClaw token 是加密存储且解密失败: ", reason));
        }
    }
    let bare = match token {
        Ok(t) => strip_bearer(t.as_str()),
        Err(reason) => {
            return Err(reason.clone());
        },
    };
    let bare_refresh = match refresh {
        Ok(t) => strip_bearer(t.as_str()),
        Err(reason) => {
            return Err(reason.clone());
        },
    };
    if bare.as_str().is_empty() {
        return Err("AutoClaw auth.json token 解密结果为空".to_owned());
    }
    Ok(
        credentials_from_claims(
            "desktop-auth".to_owned(),
            bare,
            bare_refresh,
            trim(text_in(file.get("deviceId")).as_str()),
            said,
            CredentialOrigin::DesktopAuthFile,
            Some(cache_key.to_owned()),
        ),
    )
}

// ─── The second source: the gateway configuration ────────────

/// The token in the headers of a model, under either spelling.
pub open spec fn header_token(headers: Fields) -> Option<Seq<char>> {
    either(
        filled_bare(find(headers, "X-Authorization"@)),
        filled_bare(find(headers, "x-authorization"@)),
    )
}

/// A text that is a token once it is bare.
pub open spec fn filled_bare(v: Option<Json>) -> Option<Seq<char>> {
    match v {
        Some(Json::Str(s)) => if bare_token(s).len() > 0 {
            Some(bare_token(s))
        } else {
            None
        },
        _ => None,
    }
}

pub open spec fn model_token(model: Json) -> Option<Seq<char>> {
    match field(model, "headers"@) {
        Some(Json::Obj(headers)) => header_token(headers),
        _ => None,
    }
}

/// The token of the first model that has one.
pub open spec fn models_token(models: Seq<Json>) -> Option<Seq<char>>
    decreases models.len(),
{
    if models.len() == 0 {
        None
    } else {
        either(model_token(models[0]), models_token(models.drop_first()))
    }
}

pub open spec fn provider_token(provider: Json) -> Option<Seq<char>> {
    match field(provider, "models"@) {
        Some(Json::Arr(models)) => models_token(models),
        _ => None,
    }
}

/// The token of the first provider that has one, in the order of the file.
pub open spec fn providers_token(providers: Fields) -> Option<Seq<char>>
    decreases providers.len(),
{
    if providers.len() == 0 {
        None
    } else {
        either(provider_token(providers[0].1), providers_token(providers.drop_first()))
    }
}

/// The token in a gateway configuration.
pub open spec fn config_token(file: Fields) -> Option<Seq<char>> {
    match find(file, "models"@) {
        Some(models) => match field(models, "providers"@) {
            Some(Json::Obj(providers)) => providers_token(providers),
            _ => None,
        },
        None => None,
    }
}

fn bare_in(v: Option<&JsonValue>) -> (r: Option<String>)
    ensures
        text_view(r) == filled_bare(seen(v)),
{
    match v {
        Some(JsonValue::Str(s)) => {
            let bare = strip_bearer(s.as_str());
            if bare.as_str().is_empty() {
                None
            } else {
                Some(bare)
            }
        },
        _ => None,
    }
}

fn token_of_model(model: &JsonValue) -> (r: Option<String>)
    ensures
        text_view(r) == model_token(model@),
{
    match model.get("headers") {
        Some(JsonValue::Obj(headers)) => match bare_in(headers.get("X-Authorization")) {
            Some(t) => Some(t),
            None => bare_in(headers.get("x-authorization")),
        },
        _ => None,
    }
}

fn token_of_provider(provider: &JsonValue) -> (r: Option<String>)
    ensures
        text_view(r) == provider_token(provider@),
{
    match provider.get("models") {
        Some(JsonValue::Arr(models)) => {
            let ghost all = list_view(*models);
            assert(all.skip(0) =~= all);
            for i in 0..models.len()
                invariant
                    all == list_view(*models),
                    models_token(all) == models_token(all.skip(i as int)),
                    provider_token(provider@) == models_token(all),
            {
                assert(all.skip(i as int)[0] == models@[i as int]@);
                assert(all.skip(i as int).drop_first() =~= all.skip(i + 1));
                let hit = token_of_model(&models[i]);
                if hit.is_some() {
                    return hit;
                }
            }
            None
        },
        _ => None,
    }
}

/// [`config_token`].
pub fn gateway_token(file: &Object) -> (r: Option<String>)
    ensures
        text_view(r) == config_token(file@),
{
    let models = match file.get("models") {
        Some(models) => models,
        None => {
            return None;
        },
    };
    match models.get("providers") {
        Some(JsonValue::Obj(providers)) => {
            let ghost all = providers@;
            assert(all.skip(0) =~= all);
            for i in 0..providers.entries.len()
                invariant
                    all == providers@,
                    providers_token(all) == providers_token(all.skip(i as int)),
                    config_token(file@) == providers_token(all),
            {
                assert(all.skip(i as int)[0] == (
                    providers.entries@[i as int].0@,
                    providers.entries@[i as int].1@,
                ));
                assert(all.skip(i as int).drop_first() =~= all.skip(i + 1));
                let hit = token_of_provider(&providers.entries[i].1);
                if hit.is_some() {
                    return hit;
                }
            }
            None
        },
        _ => None,
    }
}

/// What a gateway configuration gives: a token that cannot be refreshed.
pub open spec fn gateway_meaning(
    file: Fields,
    claims: Option<Json>,
    expiry_ms: NumberView,
    cache_key: Seq<char>,
) -> Result<CredentialsView, Seq<char>> {
    match config_token(file) {
        Some(token) => Ok(
            claimed(
                "desktop-auth"@,
                token,
                Seq::empty(),
                Seq::empty(),
                claims,
                expiry_ms,
                CredentialOrigin::GatewayConfig,
                Some(cache_key),
            ),
        ),
        None => Err("openclaw.json 中没有可用的 X-Authorization token"@),
    }
}

/// [`gateway_meaning`].
pub fn from_gateway_config(file: &Object, said: &TokenClaims, cache_key: &str) -> (r: Result<
    AutoClawCredentials,
    String,
>)
    ensures
        match gateway_meaning(file@, claims_view(&said.claims), said.expiry_ms@, cache_key@) {
            Ok(c) => r is Ok && r->Ok_0@ == c,
            Err(e) => r is Err && r->Err_0@ == e,
        },
{
    match gateway_token(file) {
        Some(token) => Ok(
            credentials_from_claims(
                "desktop-auth".to_owned(),
                token,
                nothing(),
                nothing(),
                said,
                CredentialOrigin::GatewayConfig,
                Some(cache_key.to_owned()),
            ),
        ),
        None => Err("openclaw.json 中没有可用的 X-Authorization token".to_owned()),
    }
}

/// A failure that is answered with a status.
pub struct CredentialsError {
    pub status: i32,
    pub message: String,
}

/// A refusal for want of credentials.
pub open spec fn unauthorized(message: Seq<char>) -> (i32, Seq<char>) {
    (401, message)
}

impl View for CredentialsError {
    type V = (i32, Seq<char>);

    open spec fn view(&self) -> (i32, Seq<char>) {
        (self.status, self.message@)
    }
}

fn refuse(message: &str) -> (out: CredentialsError)
    ensures
        out@ == unauthorized(message@),
{
    CredentialsError { status: 401, message: message.to_owned() }
}

/// The local credentials: those of the first source, else those of the second, else the error of
/// the first.
pub fn local_credentials(
    auth_file: Result<AutoClawCredentials, String>,
    gateway: Result<AutoClawCredentials, String>,
) -> (r: Result<AutoClawCredentials, CredentialsError>)
    ensures
        match auth_file {
            Ok(c) => r is Ok && r->Ok_0 == c,
            Err(e) => match gateway {
                Ok(c) => r is Ok && r->Ok_0 == c,
                Err(_) => r is Err && r->Err_0@ == unauthorized(
                    "AutoClaw 桌面端登录态不可用："@ + e@,
                ),
            },
        },
{
    match auth_file {
        Ok(c) => Ok(c),
        Err(e) => match gateway {
            Ok(c) => Ok(c),
            Err(_) => Err(refuse(concat("AutoClaw 桌面端登录态不可用：", e.as_str()).as_str())),
        },
    }
}

/// The credentials of the environment, where it has a token.
pub open spec fn env_meaning(
    token: Option<Seq<char>>,
    refresh: Option<Seq<char>>,
    device: Option<Seq<char>>,
    claims: Option<Json>,
    expiry_ms: NumberView,
) -> Option<CredentialsView> {
    if token is Some && bare_token(token->0).len() > 0 {
        Some(
            claimed(
                "env"@,
                bare_token(token->0),
                match refresh {
                    Some(r) => bare_token(r),
                    None => Seq::empty(),
                },
                match device {
                    Some(d) => trimmed(d),
                    None => Seq::empty(),
                },
                claims,
                expiry_ms,
                CredentialOrigin::Environment,
                None,
            ),
        )
    } else {
        None
    }
}

/// [`env_meaning`].
pub fn env_credentials(
    token: Option<&str>,
    refresh: Option<&str>,
    device: Option<&str>,
    said: &TokenClaims,
) -> (r: Option<AutoClawCredentials>)
    ensures
        match env_meaning(
            text_seen(token),
            text_seen(refresh),
            text_seen(device),
            claims_view(&said.claims),
            said.expiry_ms@,
        ) {
            Some(c) => r is Some && r->0@ == c,
            None => r is None,
        },
{
    let bare = match token {
        Some(t) => strip_bearer(t),
        None => {
            return None;
        },
    };
    if bare.as_str().is_empty() {
        return None;
    }
    let refresh_token = match refresh {
        Some(t) => strip_bearer(t),
        None => nothing(),
    };
    let device_id = match device {
        Some(t) => trim(t),
        None => nothing(),
    };
    Some(
        credentials_from_claims(
            "env".to_owned(),
            bare,
            refresh_token,
            device_id,
            said,
            CredentialOrigin::Environment,
            None,
        ),
    )
}

// ─── Records of accounts ─────────────────────────────────────

/// A trimmed text of a record.
pub open spec fn record_text(record: Json, key: Seq<char>) -> Seq<char> {
    trimmed(text_or_empty(field(record, key)))
}

/// The token of a record as it is written: under either of its names, the first that is filled.
pub open spec fn record_token(record: Json) -> Seq<char> {
    if record_text(record, "token"@).len() > 0 {
        record_text(record, "token"@)
    } else {
        record_text(record, "accessToken"@)
    }
}

/// One of the record's tokens is encrypted.
pub open spec fn needs_decrypt(record: Json) -> bool {
    begins(record_token(record), "enc:"@) || begins(
        record_text(record, "refreshToken"@),
        "enc:"@,
    )
}

/// Whether there is a key, or why not.
pub enum KeyOutcome {
    Ready,
    OtherSystem,
    Failed(String),
}

/// Why the key stands in the way, if it does.
pub open spec fn key_refusal(record: Json, key: KeyOutcome) -> Option<Seq<char>> {
    if !needs_decrypt(record) {
        None
    } else {
        match key {
            KeyOutcome::Ready => None,
            KeyOutcome::OtherSystem => Some("AutoClaw 加密凭证仅支持 Windows"@),
            KeyOutcome::Failed(reason) => Some("AutoClaw 加密凭证解密失败："@ + reason@),
        }
    }
}

/// The id of a record: its own, else one made from the user.
pub open spec fn record_id(record: Json, claims: Option<Json>) -> Seq<char> {
    if record_text(record, "id"@).len() > 0 {
        record_text(record, "id"@)
    } else {
        "user-"@ + claim_text(claim(claims, "user_id"@))
    }
}

/// What a record of an account gives. `token` and `refresh` are its two texts once decrypted. The
/// record's own time of expiry counts before that of the token.
pub open spec fn record_meaning(
    record: Json,
    key: KeyOutcome,
    token: Decrypted,
    refresh: Decrypted,
    claims: Option<Json>,
    expiry_ms: NumberView,
) -> Result<CredentialsView, (i32, Seq<char>)> {
    if record_token(record).len() == 0 {
        Err(unauthorized("AutoClaw 账号缺少 token，请重新添加"@))
    } else {
        match key_refusal(record, key) {
            Some(e) => Err(unauthorized(e)),
            None => match token {
                Err(reason) => Err(unauthorized(reason@)),
                Ok(t) => match refresh {
                    Err(reason) => Err(unauthorized(reason@)),
                    Ok(r) => if bare_token(t@).len() == 0 {
                        Err(unauthorized("AutoClaw 账号 token 为空"@))
                    } else {
                        let c = claimed(
                            record_id(record, claims),
                            bare_token(t@),
                            bare_token(r@),
                            record_text(record, "deviceId"@),
                            claims,
                            expiry_ms,
                            CredentialOrigin::AccountStore,
                            None,
                        );
                        Ok(
                            match number_of(field(record, "tokenExpiresAt"@)) {
                                Some(n) => CredentialsView { expires_at: Some(n), ..c },
                                None => c,
                            },
                        )
                    },
                },
            },
        }
    }
}

fn text_of_record(record: &JsonValue, key: &str) -> (out: String)
    ensures
        out@ == record_text(record@, key@),
{
    trim(text_in(record.get(key)).as_str())
}

/// The two texts of a record that may have to be decrypted, and whether one has to be.
pub fn record_tokens(record: &JsonValue) -> (r: (String, String, bool))
    ensures
        r.0@ == record_token(record@),
        r.1@ == record_text(record@, "refreshToken"@),
        r.2 == needs_decrypt(record@),
{
    let first = text_of_record(record, "token");
    let token = if first.as_str().is_empty() {
        text_of_record(record, "accessToken")
    } else {
        first
    };
    let refresh = text_of_record(record, "refreshToken");
    let encrypted = starts_with(token.as_str(), "enc:") || starts_with(refresh.as_str(), "enc:");
    (token, refresh, encrypted)
}

/// [`record_meaning`].
pub fn credentials_from_record(
    record: &JsonValue,
    key: &KeyOutcome,
    token: &Decrypted,
    refresh: &Decrypted,
    said: &TokenClaims,
) -> (r: Result<AutoClawCredentials, CredentialsError>)
    ensures
        match record_meaning(
            record@,
            *key,
            *token,
            *refresh,
            claims_view(&said.claims),
            said.expiry_ms@,
        ) {
            Ok(c) => r is Ok && r->Ok_0@ == c,
            Err(e) => r is Err && r->Err_0@ == e,
        },
{
    let (raw_token, _raw_refresh, encrypted) = record_tokens(record);
    if raw_token.as_str().is_empty() {
        return Err(refuse("AutoClaw 账号缺少 token，请重新添加"));
    }
    if encrypted {
        match key {
            KeyOutcome::Ready => {},
            KeyOutcome::OtherSystem => {
                return Err(refuse("AutoClaw 加密凭证仅支持 Windows"));
            },
            KeyOutcome::Failed(reason) => {
                return Err(
                    refuse(concat("AutoClaw 加密凭证解密失败：", reason.as_str()).as_str()),
                );
            },
        }
    }
    let bare = match token {
        Ok(t) => strip_bearer(t.as_str()),
        Err(reason) => {
            return Err(refuse(reason.as_str()));
        },
    };
    let bare_refresh = match refresh {
        Ok(t) => strip_bearer(t.as_str()),
        Err(reason) => {
            return Err(refuse(reason.as_str()));
        },
    };
    if bare.as_str().is_empty() {
        return Err(refuse("AutoClaw 账号 token 为空"));
    }
    let own = text_of_record(record, "id");
    let id = if own.as_str().is_empty() {
        concat("user-", claim_string(claim_of(&said.claims, "user_id")).as_str())
    } else {
        own
    };
    let mut credentials = credentials_from_claims(
        id,
        bare,
        bare_refresh,
        text_of_record(record, "deviceId"),
        said,
        CredentialOrigin::AccountStore,
        None,
    );
    if let Some(n) = read_number(record.get("tokenExpiresAt")) {
        credentials.expires_at = Some(n);
    }
    Ok(credentials)
}

/// Where the credentials for a request are taken from.
#[derive(Clone, Copy, PartialEq, Eq, Structural)]
pub enum SnapshotSource {
    LocalThenEnvironment,
    Local,
    Record,
}

/// Without a record, the local credentials and then the environment; for the desktop's record,
/// the local credentials alone; for any other, the record.
pub open spec fn snapshot_source(record: Option<Json>) -> SnapshotSource {
    match record {
        None => SnapshotSource::LocalThenEnvironment,
        Some(r) => if field(r, "desktop"@) == Some(Json::Bool(true)) || field(r, "id"@) == Some(
            Json::Str("desktop-auth"@),
        ) {
            SnapshotSource::Local
        } else {
            SnapshotSource::Record
        },
    }
}

/// [`snapshot_source`].
pub fn snapshot_for(record: Option<&JsonValue>) -> (r: SnapshotSource)
    ensures
        r == snapshot_source(seen(record)),
{
    match record {
        None => SnapshotSource::LocalThenEnvironment,
        Some(r) => {
            let desktop = match r.get("desktop") {
                Some(JsonValue::Bool(b)) => *b,
                _ => false,
            };
            let own = match r.get("id") {
                Some(JsonValue::Str(s)) => same(s.as_str(), "desktop-auth"),
                _ => false,
            };
            if desktop || own {
                SnapshotSource::Local
            } else {
                SnapshotSource::Record
            }
        },
    }
}

pub open spec fn origin_name(origin: CredentialOrigin) -> Seq<char> {
    match origin {
        CredentialOrigin::DesktopAuthFile => "autoclaw-auth-file"@,
        CredentialOrigin::GatewayConfig => "autoclaw-gateway-config"@,
        CredentialOrigin::AccountStore => "account-store"@,
        CredentialOrigin::Environment => "environment"@,
    }
}

/// What is shown of local credentials: of the token only its last four characters.
pub open spec fn summary_of(c: CredentialsView) -> Json {
    Json::Obj(
        seq![
            ("ok"@, Json::Bool(true)),
            ("id"@, Json::Str("desktop-auth"@)),
            ("userId"@, Json::Str(c.user_id)),
            ("tokenTail"@, Json::Str(tail(c.token, 4))),
            (
                "tokenExpiresAt"@,
                match c.expires_at {
                    Some(n) => plain_number(n),
                    None => Json::Null,
                },
            ),
            ("hasRefreshToken"@, Json::Bool(c.refresh_token.len() > 0)),
            ("canRefresh"@, Json::Bool(c.refresh_token.len() > 0)),
            ("deviceId"@, Json::Str(c.device_id)),
            ("source"@, Json::Str(origin_name(c.origin))),
        ],
    )
}

/// [`summary_of`].
pub fn local_summary(credentials: &AutoClawCredentials) -> (out: JsonValue)
    ensures
        out@ == summary_of(credentials@),
{
    let expires_at = match &credentials.expires_at {
        Some(n) => json_number(n),
        None => JsonValue::Null,
    };
    let source = match credentials.origin {
        CredentialOrigin::DesktopAuthFile => "autoclaw-auth-file",
        CredentialOrigin::GatewayConfig => "autoclaw-gateway-config",
        CredentialOrigin::AccountStore => "account-store",
        CredentialOrigin::Environment => "environment",
    };
    let mut o = Object::new();
    o.push("ok", JsonValue::Bool(true));
    o.push("id", JsonValue::text("desktop-auth"));
    o.push("userId", JsonValue::text(credentials.user_id.as_str()));
    o.push("tokenTail", JsonValue::Str(last_chars(credentials.token.as_str(), 4)));
    o.push("tokenExpiresAt", expires_at);
    o.push("hasRefreshToken", JsonValue::Bool(credentials.can_refresh()));
    o.push("canRefresh", JsonValue::Bool(credentials.can_refresh()));
    o.push("deviceId", JsonValue::text(credentials.device_id.as_str()));
    o.push("source", JsonValue::text(source));
    assert(o@ =~= summary_of(credentials@)->Obj_0);
    JsonValue::Obj(o)
}

} // verus!
