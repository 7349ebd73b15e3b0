//! The keys that clients of the gateway sign in with.
//!
//! A configuration holds a list of keys. An older one holds a single key instead, which counts as
//! a list of one until a list is written.
use vstd::prelude::*;
use sha2::Digest;
use crate::json::{
    field, find, find_of_put, find_of_without, json_int, list_view, push_value, put, text_in,
    text_or_empty, text_seen, without, Fields, Json, JsonValue, Object,
};
use crate::model_rules::{filled, filled_in, tidy};
use crate::number::number_as_i64;
use crate::text::{
    begins, char_count, concat3, decimal, decimal_u64, digit, digit_char, head, hexadecimal,
    last_chars, same, tail, trim, trimmed, truncate_chars, write_numeral,
};
use crate::words::{holds_word, push_word, words};

verus! {

/// The shortest key that is accepted.
pub const MIN_KEY_LENGTH: usize = 8;

/// A key, with the name it goes by.
pub struct ApiKeyEntry {
    pub id: String,
    pub name: String,
    pub key: String,
    pub enabled: bool,
    pub created_at: i64,
}

/// The plain value of an [`ApiKeyEntry`].
pub struct KeyView {
    pub id: Seq<char>,
    pub name: Seq<char>,
    pub key: Seq<char>,
    pub enabled: bool,
    pub created_at: i64,
}

impl View for ApiKeyEntry {
    type V = KeyView;

    open spec fn view(&self) -> KeyView {
        KeyView {
            id: self.id@,
            name: self.name@,
            key: self.key@,
            enabled: self.enabled,
            created_at: self.created_at,
        }
    }
}

pub open spec fn keys_view(list: Seq<ApiKeyEntry>) -> Seq<KeyView> {
    list.map_values(|e: ApiKeyEntry| e@)
}

// ─── Reading and writing ─────────────────────────────────────

/// The key that a JSON value stands for: one with an id and a key.
pub open spec fn key_in(v: Json) -> Option<KeyView> {
    let id = text_or_empty(field(v, "id"@));
    match filled(field(v, "key"@)) {
        Some(key) => if id.len() > 0 {
            Some(
                KeyView {
                    id,
                    name: text_or_empty(field(v, "name"@)),
                    key,
                    enabled: field(v, "enabled"@) != Some(Json::Bool(false)),
                    created_at: integer_or_zero(field(v, "createdAt"@)),
                },
            )
        } else {
            None
        },
        None => None,
    }
}

pub open spec fn integer_or_zero(v: Option<Json>) -> i64 {
    match v {
        Some(Json::Num(n)) => match number_as_i64(n) {
            Some(k) => k,
            None => 0i64,
        },
        _ => 0i64,
    }
}

pub open spec fn keys_in(items: Seq<Json>) -> Seq<KeyView>
    decreases items.len(),
{
    if items.len() == 0 {
        Seq::empty()
    } else {
        let before = keys_in(items.drop_last());
        match key_in(items.last()) {
            Some(k) => before.push(k),
            None => before,
        }
    }
}

/// The single key of an older configuration.
pub open spec fn old_key(key: Seq<char>) -> KeyView {
    KeyView { id: "legacy"@, name: "默认 Key"@, key, enabled: true, created_at: 0 }
}

/// The keys in a configuration.
pub open spec fn keys_in_config(raw: Fields) -> Seq<KeyView> {
    match find(raw, "apiKeys"@) {
        Some(Json::Arr(items)) => keys_in(items),
        _ => match filled(find(raw, "apiKey"@)) {
            Some(key) => seq![old_key(key)],
            None => Seq::empty(),
        },
    }
}

/// The form in which a key is kept.
pub open spec fn key_json(k: KeyView) -> Json {
    Json::Obj(
        seq![
            ("id"@, Json::Str(k.id)),
            ("name"@, Json::Str(k.name)),
            ("key"@, Json::Str(k.key)),
            ("enabled"@, Json::Bool(k.enabled)),
            ("createdAt"@, json_int(k.created_at as int)),
        ],
    )
}

/// A key with its ends alone.
pub open spec fn masked(key: Seq<char>) -> Seq<char> {
    head(key, 6) + "..."@ + tail(key, 4)
}

/// The form in which a key is shown to its owner.
pub open spec fn public_key_json(k: KeyView) -> Json {
    Json::Obj(
        seq![
            ("id"@, Json::Str(k.id)),
            ("name"@, Json::Str(k.name)),
            ("key"@, Json::Str(k.key)),
            ("masked"@, Json::Str(masked(k.key))),
            ("enabled"@, Json::Bool(k.enabled)),
            ("createdAt"@, json_int(k.created_at as int)),
        ],
    )
}

pub open spec fn keys_json(keys: Seq<KeyView>) -> Json {
    Json::Arr(keys.map_values(|k: KeyView| key_json(k)))
}

/// A configuration with a list of keys, which takes the place of an older single one.
pub open spec fn with_keys(raw: Fields, keys: Seq<KeyView>) -> Fields {
    put(without(raw, "apiKey"@), "apiKeys"@, keys_json(keys))
}

/// Keys as they are read and added: each with an id, and without blanks around it.
pub open spec fn proper(keys: Seq<KeyView>) -> bool {
    forall|i: int|
        0 <= i < keys.len() ==> (#[trigger] keys[i]).id.len() > 0 && tidy(keys[i].key)
}

proof fn lemma_key_back(k: KeyView)
    requires
        k.id.len() > 0,
        tidy(k.key),
    ensures
        key_in(key_json(k)) == Some(k),
{
    reveal_strlit("id");
    reveal_strlit("name");
    reveal_strlit("key");
    reveal_strlit("enabled");
    reveal_strlit("createdAt");
    assert("id"@.len() == 2 && "name"@.len() == 4 && "key"@.len() == 3 && "enabled"@.len() == 7
        && "createdAt"@.len() == 9);
    let o = key_json(k)->Obj_0;
    assert(o.drop_last() =~= o.take(4));
    assert(o.take(4).drop_last() =~= o.take(3));
    assert(o.take(3).drop_last() =~= o.take(2));
    assert(o.take(2).drop_last() =~= o.take(1));
    reveal_with_fuel(find, 6);
    assert(find(o, "id"@) == Some(Json::Str(k.id)));
    assert(find(o, "name"@) == Some(Json::Str(k.name)));
    assert(find(o, "key"@) == Some(Json::Str(k.key)));
    assert(find(o, "enabled"@) == Some(Json::Bool(k.enabled)));
    assert(find(o, "createdAt"@) == Some(json_int(k.created_at as int)));
}

proof fn lemma_keys_back(keys: Seq<KeyView>)
    requires
        proper(keys),
    ensures
        keys_in(keys.map_values(|k: KeyView| key_json(k))) == keys,
    decreases keys.len(),
{
    let items = keys.map_values(|k: KeyView| key_json(k));
    if keys.len() > 0 {
        lemma_keys_back(keys.drop_last());
        lemma_key_back(keys.last());
        assert(items.drop_last() =~= keys.drop_last().map_values(|k: KeyView| key_json(k)));
        assert(keys.drop_last().push(keys.last()) =~= keys);
    } else {
        assert(keys =~= Seq::empty());
    }
}

/// Keys that are written are read back as they were, an older single key is gone, and the rest of
/// the configuration is as before.
pub proof fn written_keys_read_back(raw: Fields, keys: Seq<KeyView>, other: Seq<char>)
    requires
        proper(keys),
        other != "apiKey"@,
        other != "apiKeys"@,
    ensures
        keys_in_config(with_keys(raw, keys)) == keys,
        find(with_keys(raw, keys), "apiKey"@) is None,
        find(with_keys(raw, keys), other) == find(raw, other),
{
    broadcast use {find_of_put, find_of_without};

    reveal_strlit("apiKey");
    reveal_strlit("apiKeys");
    assert("apiKey"@.len() != "apiKeys"@.len());
    lemma_keys_back(keys);
}

proof fn lemma_read_keys_are_proper(items: Seq<Json>)
    ensures
        proper(keys_in(items)),
    decreases items.len(),
{
    if items.len() > 0 {
        lemma_read_keys_are_proper(items.drop_last());
        crate::text::trimming_twice(text_or_empty(field(items.last(), "key"@)));
    }
}

/// Keys that are read have ids, and no blanks around them.
pub proof fn read_keys_are_proper(raw: Fields)
    ensures
        proper(keys_in_config(raw)),
{
    match find(raw, "apiKeys"@) {
        Some(Json::Arr(items)) => lemma_read_keys_are_proper(items),
        _ => {
            reveal_strlit("legacy");
            crate::text::trimming_twice(text_or_empty(find(raw, "apiKey"@)));
        },
    }
}

/// [`masked`].
pub fn mask(key: &str) -> (out: String)
    ensures
        out@ == masked(key@),
{
    concat3(truncate_chars(key, 6).as_str(), "...", last_chars(key, 4).as_str())
}

impl ApiKeyEntry {
    pub fn dup(&self) -> (out: ApiKeyEntry)
        ensures
            out@ == self@,
    {
        ApiKeyEntry {
            id: self.id.clone(),
            name: self.name.clone(),
            key: self.key.clone(),
            enabled: self.enabled,
            created_at: self.created_at,
        }
    }

    /// [`key_in`].
    pub fn from_value(v: &JsonValue) -> (r: Option<ApiKeyEntry>)
        ensures
            match key_in(v@) {
                Some(k) => r is Some && r->0@ == k,
                None => r is None,
            },
    {
        let key = match filled_in(v.get("key")) {
            Some(key) => key,
            None => return None,
        };
        let id = text_in(v.get("id"));
        if id.as_str().is_empty() {
            return None;
        }
        let enabled = match v.get("enabled") {
            Some(JsonValue::Bool(b)) => *b,
            _ => true,
        };
        let created_at: i64 = match v.get("createdAt") {
            Some(JsonValue::Num(n)) => match n.as_i64() {
                Some(k) => k,
                None => 0,
            },
            _ => 0,
        };
        Some(ApiKeyEntry { id, name: text_in(v.get("name")), key, enabled, created_at })
    }

    /// [`key_json`].
    pub fn to_value(&self) -> (out: JsonValue)
        ensures
            out@ == key_json(self@),
    {
        let mut o = Object::new();
        o.push("id", JsonValue::text(self.id.as_str()));
        o.push("name", JsonValue::text(self.name.as_str()));
        o.push("key", JsonValue::text(self.key.as_str()));
        o.push("enabled", JsonValue::Bool(self.enabled));
        o.push("createdAt", JsonValue::integer(self.created_at));
        assert(o@ =~= key_json(self@)->Obj_0);
        JsonValue::Obj(o)
    }

    /// [`public_key_json`].
    pub fn public_json(&self) -> (out: JsonValue)
        ensures
            out@ == public_key_json(self@),
    {
        let mut o = Object::new();
        o.push("id", JsonValue::text(self.id.as_str()));
        o.push("name", JsonValue::text(self.name.as_str()));
        o.push("key", JsonValue::text(self.key.as_str()));
        o.push("masked", JsonValue::Str(mask(self.key.as_str())));
        o.push("enabled", JsonValue::Bool(self.enabled));
        o.push("createdAt", JsonValue::integer(self.created_at));
        assert(o@ =~= public_key_json(self@)->Obj_0);
        JsonValue::Obj(o)
    }
}

fn push_key(list: &mut Vec<ApiKeyEntry>, k: ApiKeyEntry)
    ensures
        keys_view(final(list)@) == keys_view(old(list)@).push(k@),
{
    let ghost before = list@;
    list.push(k);
    assert(keys_view(list@) =~= keys_view(before).push(k@));
}

/// [`keys_in_config`].
pub fn entries_from(raw: &Object) -> (out: Vec<ApiKeyEntry>)
    ensures
        keys_view(out@) == keys_in_config(raw@),
{
    let mut out: Vec<ApiKeyEntry> = Vec::new();
    assert(keys_view(out@) =~= Seq::empty());
    if let Some(JsonValue::Arr(items)) = raw.get("apiKeys") {
        let ghost all = list_view(*items);
        assert(all.take(0) =~= Seq::empty());
        for i in 0..items.len()
            invariant
                all == list_view(*items),
                keys_view(out@) == keys_in(all.take(i as int)),
        {
            assert(all.take(i + 1).drop_last() =~= all.take(i as int));
            assert(all.take(i + 1).last() == items@[i as int]@);
            if let Some(k) = ApiKeyEntry::from_value(&items[i]) {
                push_key(&mut out, k);
            }
        }
        assert(all.take(all.len() as int) =~= all);
        return out;
    }
    if let Some(key) = filled_in(raw.get("apiKey")) {
        let entry = ApiKeyEntry {
            id: "legacy".to_owned(),
            name: "默认 Key".to_owned(),
            key,
            enabled: true,
            created_at: 0,
        };
        push_key(&mut out, entry);
        assert(keys_view(out@) =~= seq![old_key(key@)]);
    }
    out
}

/// All keys of a configuration.
pub fn list(raw: &Object) -> (out: Vec<ApiKeyEntry>)
    ensures
        keys_view(out@) == keys_in_config(raw@),
{
    entries_from(raw)
}

/// Writes the keys into a configuration: [`with_keys`].
pub fn replace_api_keys(raw: &mut Object, keys: &Vec<ApiKeyEntry>)
    ensures
        final(raw)@ == with_keys(old(raw)@, keys_view(keys@)),
{
    let ghost all = keys_view(keys@).map_values(|k: KeyView| key_json(k));
    let mut items: Vec<JsonValue> = Vec::new();
    assert(list_view(items) =~= all.take(0));
    for i in 0..keys.len()
        invariant
            all == keys_view(keys@).map_values(|k: KeyView| key_json(k)),
            list_view(items) == all.take(i as int),
    {
        assert(keys_view(keys@)[i as int] == keys@[i as int]@);
        push_value(&mut items, keys[i].to_value());
        assert(list_view(items) =~= all.take(i + 1));
    }
    assert(all.take(all.len() as int) =~= all);
    raw.remove("apiKey");
    raw.insert("apiKeys", JsonValue::Arr(items));
}

// ─── Who may pass ────────────────────────────────────────────

/// The keys that are switched on.
pub open spec fn enabled_keys(keys: Seq<KeyView>) -> Seq<Seq<char>>
    decreases keys.len(),
{
    if keys.len() == 0 {
        Seq::empty()
    } else {
        let before = enabled_keys(keys.drop_last());
        if keys.last().enabled {
            before.push(keys.last().key)
        } else {
            before
        }
    }
}

/// The keys that let a client pass, with the one that the environment gives, where it gives one.
/// Where there is none, every client passes.
pub open spec fn active_keys(raw: Fields, env: Option<Seq<char>>) -> Seq<Seq<char>> {
    let keys = enabled_keys(keys_in_config(raw));
    match env {
        Some(e) => if trimmed(e).len() == 0 || keys.contains(trimmed(e)) {
            keys
        } else {
            keys.push(trimmed(e))
        },
        None => keys,
    }
}

/// [`active_keys`].
pub fn active_keys_from(raw: &Object, env: Option<&str>) -> (out: Vec<String>)
    ensures
        words(out@) == active_keys(raw@, text_seen(env)),
{
    let entries = entries_from(raw);
    let ghost all = keys_view(entries@);
    let mut out: Vec<String> = Vec::new();
    assert(words(out@) =~= Seq::empty());
    assert(all.take(0) =~= Seq::empty());
    for i in 0..entries.len()
        invariant
            all == keys_view(entries@),
            words(out@) == enabled_keys(all.take(i as int)),
    {
        assert(all.take(i + 1).drop_last() =~= all.take(i as int));
        assert(all.take(i + 1).last() == entries@[i as int]@);
        if entries[i].enabled {
            push_word(&mut out, entries[i].key.clone());
        }
    }
    assert(all.take(all.len() as int) =~= all);
    if let Some(e) = env {
        let e = trim(e);
        if !e.as_str().is_empty() && !holds_word(&out, e.as_str()) {
            push_word(&mut out, e);
        }
    }
    out
}

proof fn lemma_enabled_keys(keys: Seq<KeyView>, i: int)
    requires
        0 <= i < keys.len(),
        keys[i].enabled,
    ensures
        enabled_keys(keys).contains(keys[i].key),
    decreases keys.len(),
{
    let before = enabled_keys(keys.drop_last());
    if i == keys.len() - 1 {
        assert(enabled_keys(keys)[before.len() as int] == keys[i].key);
    } else {
        lemma_enabled_keys(keys.drop_last(), i);
        let j = choose|j: int| 0 <= j < before.len() && before[j] == keys[i].key;
        assert(enabled_keys(keys)[j] == keys[i].key);
    }
}

/// Each key that is switched on lets a client pass, and so does the one from the environment.
pub proof fn enabled_keys_pass(raw: Fields, env: Option<Seq<char>>, i: int)
    requires
        0 <= i < keys_in_config(raw).len(),
        keys_in_config(raw)[i].enabled,
    ensures
        active_keys(raw, env).contains(keys_in_config(raw)[i].key),
        env is Some && trimmed(env->0).len() > 0 ==> active_keys(raw, env).contains(
            trimmed(env->0),
        ),
{
    let keys = enabled_keys(keys_in_config(raw));
    lemma_enabled_keys(keys_in_config(raw), i);
    let j = choose|j: int| 0 <= j < keys.len() && keys[j] == keys_in_config(raw)[i].key;
    assert(active_keys(raw, env)[j] == keys[j]);
    if env is Some && trimmed(env->0).len() > 0 && !keys.contains(trimmed(env->0)) {
        assert(active_keys(raw, env)[keys.len() as int] == trimmed(env->0));
    }
}

// ─── New keys ────────────────────────────────────────────────

/// What a new key is made from: a time in nanoseconds, a process, a counter and an address.
pub struct KeySeed {
    pub nanos: u128,
    pub process: u32,
    pub counter: u64,
    pub address: u64,
}

/// The bytes of a number, the lowest first.
pub open spec fn little_end(n: nat, width: nat) -> Seq<u8>
    decreases width,
{
    if width == 0 {
        Seq::empty()
    } else {
        seq![(n % 256) as u8] + little_end(n / 256, (width - 1) as nat)
    }
}

pub open spec fn seed_bytes(s: KeySeed) -> Seq<u8> {
    little_end(s.nanos as nat, 16) + little_end(s.process as nat, 4) + little_end(
        s.counter as nat,
        8,
    ) + little_end(s.address as nat, 8)
}

/// The first `n` bytes in hexadecimal, two digits each.
pub open spec fn hex_of(bytes: Seq<u8>, n: nat) -> Seq<char>
    decreases n,
{
    if n == 0 {
        Seq::empty()
    } else {
        hex_of(bytes, (n - 1) as nat) + seq![
            digit((bytes[n - 1] / 16) as nat),
            digit((bytes[n - 1] % 16) as nat),
        ]
    }
}

/// The SHA-256 digest of some bytes.
pub uninterp spec fn sha256_of(bytes: Seq<u8>) -> Seq<u8>;

/// `sha2::Sha256::digest`: 32 bytes that depend on the given ones alone.
#[verifier::external_body]
fn sha256(bytes: &Vec<u8>) -> (out: Vec<u8>)
    ensures
        out@ == sha256_of(bytes@),
        out@.len() == 32,
{
    sha2::Sha256::digest(bytes).to_vec()
}

/// A key that a digest gives.
pub open spec fn key_of_digest(digest: Seq<u8>) -> Seq<char> {
    "sk-a2a-"@ + hex_of(digest, 16)
}

/// The key that a seed gives.
pub open spec fn key_of_seed(s: KeySeed) -> Seq<char> {
    key_of_digest(sha256_of(seed_bytes(s)))
}

fn push_number(bytes: &mut Vec<u8>, n: u128, width: usize)
    requires
        n < 0x1_0000_0000_0000_0000 || width == 16,
    ensures
        final(bytes)@ == old(bytes)@ + little_end(n as nat, width as nat),
{
    let ghost start = bytes@;
    let ghost all = little_end(n as nat, width as nat);
    let mut rest: u128 = n;
    let mut left: usize = width;
    assert(start + all =~= bytes@ + little_end(rest as nat, left as nat));
    while left > 0
        invariant
            start + all == bytes@ + little_end(rest as nat, left as nat),
        decreases left,
    {
        let ghost before = bytes@;
        let byte: u8 = (rest % 256) as u8;
        bytes.push(byte);
        assert(before + little_end(rest as nat, left as nat) =~= bytes@ + little_end(
            (rest / 256) as nat,
            (left - 1) as nat,
        ));
        rest = rest / 256;
        left = left - 1;
    }
    assert(bytes@ + little_end(rest as nat, 0) =~= bytes@);
}

/// [`key_of_digest`].
pub fn key_from_digest(digest: &Vec<u8>) -> (out: String)
    requires
        digest@.len() >= 16,
    ensures
        out@ == key_of_digest(digest@),
{
    let mut out = "sk-a2a-".to_owned();
    assert(out@ =~= "sk-a2a-"@ + hex_of(digest@, 0));
    for i in 0..16usize
        invariant
            digest@.len() >= 16,
            out@ == "sk-a2a-"@ + hex_of(digest@, i as nat),
    {
        let b: u8 = digest[i];
        out.push(digit_char(b / 16));
        out.push(digit_char(b % 16));
        assert(out@ =~= "sk-a2a-"@ + hex_of(digest@, (i + 1) as nat));
    }
    out
}

/// A new key: [`key_of_seed`].
pub fn generate(seed: &KeySeed) -> (out: String)
    ensures
        out@ == key_of_seed(*seed),
{
    let mut bytes: Vec<u8> = Vec::new();
    push_number(&mut bytes, seed.nanos, 16);
    push_number(&mut bytes, seed.process as u128, 4);
    push_number(&mut bytes, seed.counter as u128, 8);
    push_number(&mut bytes, seed.address as u128, 8);
    assert(bytes@ =~= seed_bytes(*seed));
    key_from_digest(&sha256(&bytes))
}

proof fn lemma_hex_length(bytes: Seq<u8>, n: nat)
    ensures
        hex_of(bytes, n).len() == 2 * n,
    decreases n,
{
    if n > 0 {
        lemma_hex_length(bytes, (n - 1) as nat);
    }
}

/// A new key has its prefix and 32 digits, and so is long enough.
pub proof fn new_keys_are_long_enough(s: KeySeed)
    ensures
        begins(key_of_seed(s), "sk-a2a-"@),
        key_of_seed(s).len() == 39,
        key_of_seed(s).len() >= MIN_KEY_LENGTH,
{
    reveal_strlit("sk-a2a-");
    lemma_hex_length(sha256_of(seed_bytes(s)), 16);
    assert(key_of_seed(s).take(7) =~= "sk-a2a-"@);
}

// ─── Changing the list ───────────────────────────────────────

/// The key that is meant: the one given, or a new one.
pub open spec fn meant_key(given: Option<Seq<char>>, s: KeySeed) -> Seq<char> {
    match given {
        Some(k) => if trimmed(k).len() > 0 {
            trimmed(k)
        } else {
            key_of_seed(s)
        },
        None => key_of_seed(s),
    }
}

pub open spec fn has_key(keys: Seq<KeyView>, key: Seq<char>) -> bool {
    exists|i: int| 0 <= i < keys.len() && (#[trigger] keys[i]).key == key
}

/// Why a key is not added.
pub open spec fn key_refused(keys: Seq<KeyView>, given: Option<Seq<char>>, s: KeySeed) -> Option<
    Seq<char>,
> {
    if given is Some && 0 < trimmed(given->0).len() < MIN_KEY_LENGTH {
        Some("API Key 至少需要 8 个字符"@)
    } else if has_key(keys, meant_key(given, s)) {
        Some("这把 Key 已经存在"@)
    } else {
        None
    }
}

/// The entry that is added.
pub open spec fn new_key(
    keys: Seq<KeyView>,
    name: Seq<char>,
    given: Option<Seq<char>>,
    s: KeySeed,
    now: i64,
) -> KeyView {
    KeyView {
        id: "k"@ + hexadecimal(now as nat) + decimal(keys.len() as int),
        name: trimmed(name),
        key: meant_key(given, s),
        enabled: true,
        created_at: now,
    }
}

/// No key is there twice.
pub open spec fn distinct_keys(keys: Seq<KeyView>) -> bool {
    forall|i: int, j: int|
        0 <= i < j < keys.len() ==> (#[trigger] keys[i]).key != (#[trigger] keys[j]).key
}

/// Adding a key keeps all keys different, and the keys that are there as they are.
pub proof fn adding_keeps_keys_distinct(
    keys: Seq<KeyView>,
    name: Seq<char>,
    given: Option<Seq<char>>,
    s: KeySeed,
    now: i64,
)
    requires
        distinct_keys(keys),
        key_refused(keys, given, s) is None,
    ensures
        distinct_keys(keys.push(new_key(keys, name, given, s, now))),
        keys.push(new_key(keys, name, given, s, now)).drop_last() == keys,
{
    let after = keys.push(new_key(keys, name, given, s, now));
    assert(after.drop_last() =~= keys);
    assert forall|i: int, j: int| 0 <= i < j < after.len() implies (#[trigger] after[i]).key != (
    #[trigger] after[j]).key by {
        assert(after[i] == keys[i]);
        if j < keys.len() {
            assert(after[j] == keys[j]);
        }
    }
}

fn is_key_there(keys: &Vec<ApiKeyEntry>, key: &str) -> (r: bool)
    ensures
        r == has_key(keys_view(keys@), key@),
{
    let ghost all = keys_view(keys@);
    for i in 0..keys.len()
        invariant
            all == keys_view(keys@),
            forall|k: int| 0 <= k < i ==> (#[trigger] all[k]).key != key@,
    {
        assert(all[i as int] == keys@[i as int]@);
        if same(keys[i].key.as_str(), key) {
            return true;
        }
    }
    false
}

/// Adds a key: the one given, or a new one where none is. A key that is too short or there already
/// is refused.
pub fn add(
    keys: &mut Vec<ApiKeyEntry>,
    name: &str,
    key: Option<&str>,
    seed: &KeySeed,
    now: i64,
) -> (r: Result<ApiKeyEntry, String>)
    requires
        0 <= now,
    ensures
        match r {
            Ok(entry) => {
                &&& key_refused(keys_view(old(keys)@), text_seen(key), *seed) is None
                &&& entry@ == new_key(keys_view(old(keys)@), name@, text_seen(key), *seed, now)
                &&& keys_view(final(keys)@) == keys_view(old(keys)@).push(entry@)
            },
            Err(e) => {
                &&& key_refused(keys_view(old(keys)@), text_seen(key), *seed) == Some(e@)
                &&& final(keys)@ == old(keys)@
            },
        },
{
    let given = match key {
        Some(k) => trim(k),
        None => String::new(),
    };
    let meant = if given.as_str().is_empty() {
        generate(seed)
    } else {
        if char_count(given.as_str()) < MIN_KEY_LENGTH {
            return Err("API Key 至少需要 8 个字符".to_owned());
        }
        given
    };
    if is_key_there(keys, meant.as_str()) {
        return Err("这把 Key 已经存在".to_owned());
    }
    assert(keys_view(keys@).len() == keys@.len());
    let entry = ApiKeyEntry {
        id: concat3(
            "k",
            write_numeral(now as u64, 16).as_str(),
            decimal_u64(keys.len() as u64).as_str(),
        ),
        name: trim(name),
        key: meant,
        enabled: true,
        created_at: now,
    };
    push_key(keys, entry.dup());
    Ok(entry)
}

/// The position of the first key with an id.
pub open spec fn key_at(keys: Seq<KeyView>, id: Seq<char>) -> Option<int>
    decreases keys.len(),
{
    if keys.len() == 0 {
        None
    } else {
        match key_at(keys.drop_last(), id) {
            Some(i) => Some(i),
            None => if keys.last().id == id {
                Some(keys.len() - 1)
            } else {
                None
            },
        }
    }
}

/// A key with another name or switched, as far as it is said.
pub open spec fn changed_key(k: KeyView, name: Option<Seq<char>>, enabled: Option<bool>) -> KeyView {
    KeyView {
        name: match name {
            Some(n) => trimmed(n),
            None => k.name,
        },
        enabled: match enabled {
            Some(e) => e,
            None => k.enabled,
        },
        ..k
    }
}

/// Gives a key another name, or switches it on or off.
pub fn update(
    keys: &mut Vec<ApiKeyEntry>,
    id: &str,
    name: Option<&str>,
    enabled: Option<bool>,
) -> (r: Result<ApiKeyEntry, String>)
    ensures
        match key_at(keys_view(old(keys)@), id@) {
            Some(i) => {
                &&& r is Ok
                &&& r->Ok_0@ == changed_key(keys_view(old(keys)@)[i], text_seen(name), enabled)
                &&& keys_view(final(keys)@) == keys_view(old(keys)@).update(i, r->Ok_0@)
            },
            None => r is Err && r->Err_0@ == "Key 不存在"@ && final(keys)@ == old(keys)@,
        },
{
    let ghost all = keys_view(keys@);
    assert(all.take(0) =~= Seq::empty());
    let total: usize = keys.len();
    for i in 0..total
        invariant
            total == keys@.len(),
            all == keys_view(keys@),
            keys@ == old(keys)@,
            key_at(all.take(i as int), id@) is None,
    {
        assert(all.take(i + 1).drop_last() =~= all.take(i as int));
        assert(all.take(i + 1).last() == keys@[i as int]@);
        if same(keys[i].id.as_str(), id) {
            let mut entry = keys[i].dup();
            if let Some(n) = name {
                entry.name = trim(n);
            }
            if let Some(e) = enabled {
                entry.enabled = e;
            }
            proof {
                lemma_key_at(all, id@, i + 1);
            }
            keys.set(i, entry.dup());
            assert(keys_view(keys@) =~= all.update(i as int, entry@));
            return Ok(entry);
        }
    }
    assert(all.take(all.len() as int) =~= all);
    Err("Key 不存在".to_owned())
}

proof fn lemma_key_at(keys: Seq<KeyView>, id: Seq<char>, n: int)
    requires
        0 <= n <= keys.len(),
        key_at(keys.take(n), id) is Some,
    ensures
        key_at(keys, id) == key_at(keys.take(n), id),
    decreases keys.len() - n,
{
    if n < keys.len() {
        assert(keys.take(n + 1).drop_last() =~= keys.take(n));
        lemma_key_at(keys, id, n + 1);
    } else {
        assert(keys.take(n) =~= keys);
    }
}

/// The keys with other ids.
pub open spec fn keys_but(keys: Seq<KeyView>, id: Seq<char>) -> Seq<KeyView>
    decreases keys.len(),
{
    if keys.len() == 0 {
        Seq::empty()
    } else {
        let before = keys_but(keys.drop_last(), id);
        if keys.last().id == id {
            before
        } else {
            before.push(keys.last())
        }
    }
}

/// A removed key is gone, and removing what is not there changes nothing.
pub proof fn removed_key_is_gone(keys: Seq<KeyView>, id: Seq<char>)
    ensures
        key_at(keys_but(keys, id), id) is None,
        key_at(keys, id) is None ==> keys_but(keys, id) == keys,
    decreases keys.len(),
{
    if keys.len() > 0 {
        removed_key_is_gone(keys.drop_last(), id);
        let before = keys_but(keys.drop_last(), id);
        assert(before.push(keys.last()).drop_last() =~= before);
        assert(keys.drop_last().push(keys.last()) =~= keys);
    } else {
        assert(keys =~= Seq::empty());
    }
}

/// Removes the keys with an id.
pub fn remove(keys: &mut Vec<ApiKeyEntry>, id: &str) -> (r: Result<(), String>)
    ensures
        keys_view(final(keys)@) == keys_but(keys_view(old(keys)@), id@),
        match key_at(keys_view(old(keys)@), id@) {
            Some(_) => r is Ok,
            None => r is Err && r->Err_0@ == "Key 不存在"@,
        },
{
    let ghost all = keys_view(keys@);
    let mut left: Vec<ApiKeyEntry> = Vec::new();
    let mut found = false;
    assert(keys_view(left@) =~= Seq::empty());
    assert(all.take(0) =~= Seq::empty());
    for i in 0..keys.len()
        invariant
            all == keys_view(keys@),
            keys@ == old(keys)@,
            keys_view(left@) == keys_but(all.take(i as int), id@),
            found == (key_at(all.take(i as int), id@) is Some),
    {
        assert(all.take(i + 1).drop_last() =~= all.take(i as int));
        assert(all.take(i + 1).last() == keys@[i as int]@);
        if same(keys[i].id.as_str(), id) {
            found = true;
        } else {
            push_key(&mut left, keys[i].dup());
        }
    }
    assert(all.take(all.len() as int) =~= all);
    *keys = left;
    if found {
        Ok(())
    } else {
        Err("Key 不存在".to_owned())
    }
}

} // verus!
