//! Whose token is used, and how long.
use vstd::prelude::*;
use crate::json::{field, json_int, json_of_text, lemma_find_at, lemma_find_none, Fields, Json};
use crate::number::{number_positive, NumberView};
use crate::protocol::stream_laws::{part_of, said};
use crate::providers::autoclaw_credentials::{
    auth_file_meaning, bare_token, base_url, cache_key_reads_back, cached, config_token,
    env_meaning, file_object, file_refusal, gateway_meaning, key_of, model_token, models_token,
    provider_token, providers_token, record_meaning, record_token, snapshot_source, still_current,
    summary_of, unchanged, user_data_dir, without_slashes, CredentialOrigin, CredentialsView,
    Decrypted, FileFacts, KeyOutcome, SnapshotSource,
};
use crate::text::{same_ignoring_case, trimmed};

verus! {

/// The word that names the kind of a token is taken off, in whatever case; another token stays as
/// it is, without the blanks around it.
pub proof fn token_is_bare(text: Seq<char>, word: Seq<char>, token: Seq<char>)
    ensures
        trimmed(text) == word + token && word.len() == 7 && same_ignoring_case(word, "Bearer "@)
            ==> bare_token(text) == trimmed(token),
        trimmed(text).len() < 7 || !same_ignoring_case(trimmed(text).take(7), "Bearer "@)
            ==> bare_token(text) == trimmed(text),
{
    if trimmed(text) == word + token && word.len() == 7 {
        assert(trimmed(text).take(7) =~= word);
        assert(trimmed(text).skip(7) =~= token);
    }
}

/// What the claims of a token say under a key.
pub open spec fn claims_say(claims: Option<Json>, key: Seq<char>) -> Json {
    match claims {
        Some(c) => part_of(c, key),
        None => Json::Null,
    }
}

/// The credentials hold this token, this refresh token and this device, and the user and the time
/// of expiry that the claims of the token name.
pub open spec fn made_of(
    c: CredentialsView,
    token: Seq<char>,
    refresh: Seq<char>,
    device: Seq<char>,
    claims: Option<Json>,
    expiry_ms: NumberView,
) -> bool {
    &&& c.token == token
    &&& c.refresh_token == refresh
    &&& device.len() > 0 ==> c.device_id == device
    &&& device.len() == 0 && claims_say(claims, "device_id"@) is Str ==> c.device_id == said(
        claims_say(claims, "device_id"@),
    )
    &&& claims_say(claims, "user_id"@) is Str ==> c.user_id == said(claims_say(claims, "user_id"@))
}

/// The time of expiry that a token names.
pub open spec fn expires_as_claimed(
    c: CredentialsView,
    claims: Option<Json>,
    expiry_ms: NumberView,
) -> bool {
    &&& claims_say(claims, "exp"@) is Num && number_positive(claims_say(claims, "exp"@)->Num_0)
        ==> c.expires_at == Some(expiry_ms)
    &&& claims_say(claims, "exp"@) == Json::Null ==> c.expires_at is None
}

/// The desktop client's file gives its own token and its own refresh token, decrypted and bare.
pub proof fn auth_file_gives_its_tokens(
    file: Fields,
    key_error: Option<Seq<char>>,
    token: Decrypted,
    refresh: Decrypted,
    claims: Option<Json>,
    expiry_ms: NumberView,
    cache_key: Seq<char>,
)
    requires
        token is Ok,
        refresh is Ok,
    ensures
        ({
            let r = auth_file_meaning(file, key_error, token, refresh, claims, expiry_ms, cache_key);
            &&& r is Ok ==> {
                &&& made_of(
                    r->Ok_0,
                    bare_token(token->Ok_0@),
                    bare_token(refresh->Ok_0@),
                    trimmed(said(part_of(Json::Obj(file), "deviceId"@))),
                    claims,
                    expiry_ms,
                )
                &&& expires_as_claimed(r->Ok_0, claims, expiry_ms)
                &&& r->Ok_0.origin == CredentialOrigin::DesktopAuthFile
                &&& r->Ok_0.cache_key == Some(cache_key)
            }
            &&& key_error is None && said(part_of(Json::Obj(file), "token"@)).len() > 0
                && bare_token(token->Ok_0@).len() > 0 ==> r is Ok
            &&& bare_token(token->Ok_0@).len() == 0 ==> r is Err
        }),
{
}

/// A gateway configuration gives its token, which cannot be refreshed.
pub proof fn gateway_gives_its_token(
    file: Fields,
    claims: Option<Json>,
    expiry_ms: NumberView,
    cache_key: Seq<char>,
)
    ensures
        ({
            let r = gateway_meaning(file, claims, expiry_ms, cache_key);
            &&& r is Ok <==> config_token(file) is Some
            &&& r is Ok ==> made_of(
                r->Ok_0,
                config_token(file)->0,
                Seq::empty(),
                Seq::empty(),
                claims,
                expiry_ms,
            ) && r->Ok_0.origin == CredentialOrigin::GatewayConfig && expires_as_claimed(
                r->Ok_0,
                claims,
                expiry_ms,
            )
        }),
{
}

/// The environment gives its token where it has one.
pub proof fn environment_gives_its_token(
    token: Seq<char>,
    refresh: Seq<char>,
    device: Seq<char>,
    claims: Option<Json>,
    expiry_ms: NumberView,
)
    ensures
        ({
            let r = env_meaning(Some(token), Some(refresh), Some(device), claims, expiry_ms);
            &&& r is Some <==> bare_token(token).len() > 0
            &&& r is Some ==> made_of(
                r->0,
                bare_token(token),
                bare_token(refresh),
                trimmed(device),
                claims,
                expiry_ms,
            ) && r->0.origin == CredentialOrigin::Environment && expires_as_claimed(
                r->0,
                claims,
                expiry_ms,
            )
        }),
        env_meaning(None, Some(refresh), Some(device), claims, expiry_ms) is None,
{
}

/// A record gives its own token and its own refresh token, decrypted and bare, under its own id;
/// its own time of expiry counts before that of the token.
pub proof fn record_gives_its_tokens(
    record: Json,
    key: KeyOutcome,
    token: Decrypted,
    refresh: Decrypted,
    claims: Option<Json>,
    expiry_ms: NumberView,
)
    requires
        token is Ok,
        refresh is Ok,
    ensures
        ({
            let r = record_meaning(record, key, token, refresh, claims, expiry_ms);
            let id = trimmed(said(part_of(record, "id"@)));
            &&& r is Ok ==> {
                &&& made_of(
                    r->Ok_0,
                    bare_token(token->Ok_0@),
                    bare_token(refresh->Ok_0@),
                    trimmed(said(part_of(record, "deviceId"@))),
                    claims,
                    expiry_ms,
                )
                &&& r->Ok_0.origin == CredentialOrigin::AccountStore
                &&& id.len() > 0 ==> r->Ok_0.id == id
                &&& part_of(record, "tokenExpiresAt"@) is Num ==> r->Ok_0.expires_at == Some(
                    part_of(record, "tokenExpiresAt"@)->Num_0,
                )
                &&& part_of(record, "tokenExpiresAt"@) == Json::Null ==> expires_as_claimed(
                    r->Ok_0,
                    claims,
                    expiry_ms,
                )
            }
            &&& key is Ready && record_token(record).len() > 0 && bare_token(token->Ok_0@).len() > 0
                ==> r is Ok
            &&& r matches Err(e) ==> e.0 == 401
        }),
{
}

/// The token of a record stands under either of its names, the first that is filled.
pub proof fn record_token_is_the_first_filled(record: Json)
    ensures
        ({
            let first = trimmed(said(part_of(record, "token"@)));
            let second = trimmed(said(part_of(record, "accessToken"@)));
            &&& first.len() > 0 ==> record_token(record) == first
            &&& first.len() == 0 ==> record_token(record) == second
        }),
{
}

// ─── The gateway's configuration ─────────────────────────────

proof fn lemma_models_token(models: Seq<Json>, i: int)
    requires
        0 <= i < models.len(),
        model_token(models[i]) is Some,
        forall|j: int| 0 <= j < i ==> model_token(#[trigger] models[j]) is None,
    ensures
        models_token(models) == model_token(models[i]),
    decreases models.len(),
{
    if i > 0 {
        assert(model_token(models[0]) is None);
        let rest = models.drop_first();
        assert forall|j: int| 0 <= j < i - 1 implies model_token(#[trigger] rest[j]) is None by {
            assert(rest[j] == models[j + 1]);
        }
        lemma_models_token(rest, i - 1);
    }
}

proof fn lemma_providers_token(providers: Fields, i: int)
    requires
        0 <= i < providers.len(),
        provider_token(providers[i].1) is Some,
        forall|j: int| 0 <= j < i ==> provider_token((#[trigger] providers[j]).1) is None,
    ensures
        providers_token(providers) == provider_token(providers[i].1),
    decreases providers.len(),
{
    if i > 0 {
        assert(provider_token(providers[0].1) is None);
        let rest = providers.drop_first();
        assert forall|j: int| 0 <= j < i - 1 implies provider_token((#[trigger] rest[j]).1)
            is None by {
            assert(rest[j] == providers[j + 1]);
        }
        lemma_providers_token(rest, i - 1);
    }
}

/// The token of the configuration is that of the first model with one, of the first provider that
/// has such a model: the text of its authorization header, bare.
pub proof fn config_token_is_the_first(
    file: Fields,
    providers: Fields,
    models: Seq<Json>,
    i: int,
    k: int,
    header: Seq<char>,
)
    requires
        part_of(part_of(Json::Obj(file), "models"@), "providers"@) == Json::Obj(providers),
        0 <= i < providers.len(),
        part_of(providers[i].1, "models"@) == Json::Arr(models),
        0 <= k < models.len(),
        part_of(part_of(models[k], "headers"@), "X-Authorization"@) == Json::Str(header),
        bare_token(header).len() > 0,
        forall|j: int| 0 <= j < k ==> model_token(#[trigger] models[j]) is None,
        forall|j: int| 0 <= j < i ==> provider_token((#[trigger] providers[j]).1) is None,
    ensures
        config_token(file) == Some(bare_token(header)),
{
    assert(model_token(models[k]) == Some(bare_token(header)));
    lemma_models_token(models, k);
    lemma_providers_token(providers, i);
}

// ─── Files and the cache ─────────────────────────────────────

/// A file is read exactly where it is there, can be looked at, is a regular file and no link, and
/// is neither empty nor too large.
pub proof fn fitting_files_are_read(label: Seq<char>, facts: FileFacts)
    ensures
        file_refusal(label, facts) is None <==> facts.found && facts.access_error is None
            && !facts.symlink && facts.regular && 0 < facts.size <= 262_144,
{
}

/// Credentials of a file are current as long as the file was last changed when they were read.
pub proof fn changed_file_is_noticed(fingerprint: Seq<char>, modified_at: i64, seen_at: Option<i64>)
    ensures
        unchanged(Some(key_of("auth"@, fingerprint, modified_at)), seen_at) <==> seen_at == Some(
            modified_at,
        ),
        unchanged(Some(key_of("gw"@, fingerprint, modified_at)), seen_at) <==> seen_at == Some(
            modified_at,
        ),
        unchanged(None, seen_at),
{
    reveal_strlit("auth");
    reveal_strlit("gw");
    assert("auth"@.len() == 4 && "gw"@.len() == 2);
    assert("auth"@[0] == 'a' && "auth"@[1] == 'u' && "auth"@[2] == 't' && "auth"@[3] == 'h');
    assert("gw"@[0] == 'g' && "gw"@[1] == 'w');
    cache_key_reads_back("auth"@, fingerprint, modified_at);
    cache_key_reads_back("gw"@, fingerprint, modified_at);
}

/// The cache gives back what was put in under the same key, and nothing under another.
pub proof fn cache_gives_back(key: Seq<char>, c: CredentialsView, other: Seq<char>)
    ensures
        cached(Some((key, c)), key) == Some(c),
        other != key ==> cached(Some((key, c)), other) is None,
        cached(None, key) is None,
{
}

/// Refreshed credentials are written only where the cache holds the tokens that were refreshed and
/// their file is as it was.
pub proof fn refreshed_tokens_are_current(
    slot: Option<(Seq<char>, CredentialsView)>,
    key: Seq<char>,
    expected: CredentialsView,
    seen_at: Option<i64>,
)
    ensures
        still_current(slot, key, expected, seen_at) <==> unchanged(expected.cache_key, seen_at) && (
        slot matches Some(s) && s.0 == key && s.1.token == expected.token && s.1.refresh_token
            == expected.refresh_token),
{
}

/// An address of the environment counts, without the slashes it ends with.
pub proof fn address_of_the_environment_counts(value: Seq<char>, default: Seq<char>)
    ensures
        trimmed(value).len() > 0 && trimmed(value).last() != '/' ==> base_url(Some(value), default)
            == trimmed(value),
        without_slashes(trimmed(value)).len() > 0 ==> base_url(Some(value), default).last() != '/',
        base_url(None, default) == default,
        trimmed(value).len() == 0 ==> base_url(Some(value), default) == default,
{
    lemma_without_slashes(trimmed(value));
}

proof fn lemma_without_slashes(text: Seq<char>)
    ensures
        without_slashes(text).len() > 0 ==> without_slashes(text).last() != '/',
        without_slashes(text).len() <= text.len(),
        without_slashes(text) == text.take(without_slashes(text).len() as int),
        forall|i: int| without_slashes(text).len() <= i < text.len() ==> text[i] == '/',
    decreases text.len(),
{
    if text.len() > 0 && text.last() == '/' {
        let short = text.drop_last();
        lemma_without_slashes(short);
        let n = without_slashes(short).len() as int;
        assert(short.take(n) =~= text.take(n));
        assert forall|i: int| n <= i < text.len() implies text[i] == '/' by {
            if i < short.len() {
                assert(short[i] == text[i]);
            }
        }
    } else {
        assert(text.take(text.len() as int) =~= text);
    }
}

/// Where the credentials are looked for: for no record in the local files and then the
/// environment, for that of the desktop client in the local files, for any other in the record.
pub proof fn credentials_are_looked_for(record: Json)
    ensures
        snapshot_source(None) == SnapshotSource::LocalThenEnvironment,
        part_of(record, "desktop"@) == Json::Bool(true) || part_of(record, "id"@) == Json::Str(
            "desktop-auth"@,
        ) ==> snapshot_source(Some(record)) == SnapshotSource::Local,
        part_of(record, "desktop"@) != Json::Bool(true) && part_of(record, "id"@) != Json::Str(
            "desktop-auth"@,
        ) ==> snapshot_source(Some(record)) == SnapshotSource::Record,
{
}

proof fn lemma_summary_words()
    ensures
        "ok"@.len() == 2,
        "id"@.len() == 2,
        "userId"@.len() == 6,
        "tokenTail"@.len() == 9,
        "tokenExpiresAt"@.len() == 14,
        "hasRefreshToken"@.len() == 15,
        "canRefresh"@.len() == 10,
        "deviceId"@.len() == 8,
        "source"@.len() == 6,
        "token"@.len() == 5,
        "refreshToken"@.len() == 12,
        "ok"@ != "id"@,
        "userId"@ != "source"@,
{
    reveal_strlit("ok");
    reveal_strlit("id");
    reveal_strlit("userId");
    reveal_strlit("tokenTail");
    reveal_strlit("tokenExpiresAt");
    reveal_strlit("hasRefreshToken");
    reveal_strlit("canRefresh");
    reveal_strlit("deviceId");
    reveal_strlit("source");
    reveal_strlit("token");
    reveal_strlit("refreshToken");
    assert("ok"@[0] != "id"@[0]);
    assert("userId"@[0] != "source"@[0]);
}

/// What is shown of local credentials: who they are of, until when, and the last four characters
/// of the token; no token.
pub proof fn summary_holds_no_token(c: CredentialsView)
    ensures
        ({
            let s = summary_of(c);
            &&& field(s, "token"@) is None
            &&& field(s, "refreshToken"@) is None
            &&& part_of(s, "userId"@) == Json::Str(c.user_id)
            &&& part_of(s, "deviceId"@) == Json::Str(c.device_id)
            &&& part_of(s, "hasRefreshToken"@) == Json::Bool(c.refresh_token.len() > 0)
            &&& part_of(s, "canRefresh"@) == Json::Bool(c.refresh_token.len() > 0)
            &&& said(part_of(s, "tokenTail"@)).len() <= 4
            &&& c.token.len() >= 4 ==> part_of(s, "tokenTail"@) == Json::Str(
                c.token.skip(c.token.len() - 4),
            )
            &&& c.expires_at is None ==> part_of(s, "tokenExpiresAt"@) == Json::Null
            &&& forall|t: int|
                0 < t < crate::number::EXACT_BELOW && c.expires_at == Some(
                    #[trigger] crate::number::int_number(t),
                ) ==> part_of(s, "tokenExpiresAt"@) == json_int(t)
        }),
{
    lemma_summary_words();
    let o = summary_of(c)->Obj_0;
    lemma_find_none(o, "token"@);
    lemma_find_none(o, "refreshToken"@);
    lemma_find_at(o, "userId"@, 2);
    lemma_find_at(o, "tokenTail"@, 3);
    lemma_find_at(o, "tokenExpiresAt"@, 4);
    lemma_find_at(o, "hasRefreshToken"@, 5);
    lemma_find_at(o, "canRefresh"@, 6);
    lemma_find_at(o, "deviceId"@, 7);
    if c.token.len() == 4 {
        assert(c.token.skip(0) =~= c.token);
    }
}

/// A file gives the object that its text denotes.
pub proof fn file_gives_its_object(label: Seq<char>, text: Seq<char>, o: Fields)
    requires
        json_of_text(text) == Ok::<Json, Seq<char>>(Json::Obj(o)),
    ensures
        file_object(label, text) == Ok::<Fields, Seq<char>>(o),
{
}

/// The client's data are where the environment says, else at the client's place on Windows, and
/// nowhere on other systems.
pub proof fn data_are_where_they_belong(
    given: Option<Seq<char>>,
    windows: bool,
    appdata: Seq<char>,
    home: Seq<char>,
)
    ensures
        given is Some && trimmed(given->0).len() > 0 ==> user_data_dir(
            given,
            windows,
            Some(appdata),
            home,
        ) == Some(seq![trimmed(given->0)]),
        given is None && !windows ==> user_data_dir(given, windows, Some(appdata), home) is None,
        given is None && windows && trimmed(appdata).len() > 0 ==> {
            let d = user_data_dir(given, windows, Some(appdata), home);
            d is Some && d->0[0] == trimmed(appdata) && d->0.last() == "AutoClaw"@
        },
        given is None && windows ==> {
            let d = user_data_dir(given, windows, None, home);
            d is Some && d->0[0] == home && d->0.last() == "AutoClaw"@
        },
{
}

} // verus!
