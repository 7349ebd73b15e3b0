//! One exchange with a provider, and what is kept of its headers.
use vstd::prelude::*;
use crate::json::{
    dup_or_null, field, find, find_of_put, json_int, or_null, put, text_view, Fields, Json,
    JsonValue, Object,
};
use crate::number::{number_as_i64, number_as_u64};
use crate::text::{ascii_lower, chars_of, same, text_of, to_ascii_lower};

verus! {

// ─── Headers ─────────────────────────────────────────────────

/// What stands in place of a credential.
pub open spec fn redacted() -> Seq<char> {
    "[redacted]"@
}

/// Headers that carry credentials.
pub open spec fn sensitive(name: Seq<char>) -> bool {
    name == "authorization"@
        || name == "proxy-authorization"@
        || name == "cookie"@
        || name == "cookie2"@
        || name == "set-cookie"@
        || name == "x-api-key"@
        || name == "api-key"@
        || name == "x-auth-token"@
        || name == "x-access-token"@
        || name == "x-refresh-token"@
        || name == "x-ide-token"@
        || name == "x-ide-auth"@
        || name == "x-workbuddy-token"@
        || name == "x-raccoon-token"@
        || name == "x-cline-token"@
        || name == "x-qoder-token"@
        || name == "x-catpaw-cookie"@
        || name == "x-autoclaw-token"@
}

/// A name in ASCII lower case.
pub open spec fn in_lower_case(name: Seq<char>) -> Seq<char> {
    name.map_values(|c: char| ascii_lower(c))
}

/// Headers as they are kept: under their names in lower case, with a mark in place of a credential.
/// Of headers with the same name the last one counts.
pub open spec fn kept_headers(headers: Seq<(Seq<char>, Seq<char>)>) -> Fields
    decreases headers.len(),
{
    if headers.len() == 0 {
        Seq::empty()
    } else {
        let name = in_lower_case(headers.last().0);
        put(
            kept_headers(headers.drop_last()),
            name,
            Json::Str(
                if sensitive(name) {
                    redacted()
                } else {
                    headers.last().1
                },
            ),
        )
    }
}

/// No credential is kept: what is kept of a header that carries one is the mark, if anything.
pub proof fn credentials_are_not_kept(headers: Seq<(Seq<char>, Seq<char>)>, name: Seq<char>)
    requires
        sensitive(name),
    ensures
        find(kept_headers(headers), name) is None || find(kept_headers(headers), name) == Some(
            Json::Str(redacted()),
        ),
    decreases headers.len(),
{
    if headers.len() > 0 {
        credentials_are_not_kept(headers.drop_last(), name);
        let last = in_lower_case(headers.last().0);
        find_of_put(
            kept_headers(headers.drop_last()),
            last,
            Json::Str(
                if sensitive(last) {
                    redacted()
                } else {
                    headers.last().1
                },
            ),
            name,
        );
    }
}

/// Every header is kept, a harmless one with its last value.
pub proof fn last_header_counts(headers: Seq<(Seq<char>, Seq<char>)>)
    requires
        headers.len() > 0,
        !sensitive(in_lower_case(headers.last().0)),
    ensures
        find(kept_headers(headers), in_lower_case(headers.last().0)) == Some(
            Json::Str(headers.last().1),
        ),
{
    find_of_put(
        kept_headers(headers.drop_last()),
        in_lower_case(headers.last().0),
        Json::Str(headers.last().1),
        in_lower_case(headers.last().0),
    );
}

pub open spec fn pairs(headers: Seq<(String, String)>) -> Seq<(Seq<char>, Seq<char>)> {
    headers.map_values(|h: (String, String)| (h.0@, h.1@))
}

fn is_sensitive(name: &str) -> (r: bool)
    ensures
        r == sensitive(name@),
{
    same(name, "authorization")
        || same(name, "proxy-authorization")
        || same(name, "cookie")
        || same(name, "cookie2")
        || same(name, "set-cookie")
        || same(name, "x-api-key")
        || same(name, "api-key")
        || same(name, "x-auth-token")
        || same(name, "x-access-token")
        || same(name, "x-refresh-token")
        || same(name, "x-ide-token")
        || same(name, "x-ide-auth")
        || same(name, "x-workbuddy-token")
        || same(name, "x-raccoon-token")
        || same(name, "x-cline-token")
        || same(name, "x-qoder-token")
        || same(name, "x-catpaw-cookie")
        || same(name, "x-autoclaw-token")
}

fn lower_name(name: &str) -> (out: String)
    ensures
        out@ == in_lower_case(name@),
{
    let chars = chars_of(name);
    let ghost all = in_lower_case(name@);
    let mut out: Vec<char> = Vec::new();
    assert(out@ =~= all.take(0));
    for i in 0..chars.len()
        invariant
            chars@ == name@,
            all == in_lower_case(name@),
            out@ == all.take(i as int),
    {
        out.push(to_ascii_lower(chars[i]));
        assert(out@ =~= all.take(i + 1));
    }
    assert(all.take(all.len() as int) =~= all);
    text_of(&out)
}

/// [`kept_headers`].
pub fn redact_headers(headers: &Vec<(String, String)>) -> (out: JsonValue)
    ensures
        out@ == Json::Obj(kept_headers(pairs(headers@))),
{
    let ghost all = pairs(headers@);
    let mut out = Object::new();
    assert(all.take(0) =~= Seq::empty());
    for i in 0..headers.len()
        invariant
            all == pairs(headers@),
            out@ == kept_headers(all.take(i as int)),
    {
        assert(all.take(i + 1).drop_last() =~= all.take(i as int));
        assert(all.take(i + 1).last() == (headers@[i as int].0@, headers@[i as int].1@));
        let name = lower_name(headers[i].0.as_str());
        let value = if is_sensitive(name.as_str()) {
            JsonValue::text("[redacted]")
        } else {
            JsonValue::text(headers[i].1.as_str())
        };
        out.insert(name.as_str(), value);
    }
    assert(all.take(all.len() as int) =~= all);
    JsonValue::Obj(out)
}

// ─── Entries ─────────────────────────────────────────────────

/// One exchange with a provider. What did not come about is missing.
pub struct TrafficEntry {
    pub id: String,
    pub ts: i64,
    pub url: String,
    pub provider: String,
    pub request_headers: JsonValue,
    pub request_body: JsonValue,
    pub status: Option<u16>,
    pub response_headers: Option<JsonValue>,
    pub response_body: Option<String>,
    pub truncated: bool,
}

/// The plain value of a [`TrafficEntry`].
pub struct TrafficView {
    pub id: Seq<char>,
    pub ts: i64,
    pub url: Seq<char>,
    pub provider: Seq<char>,
    pub request_headers: Json,
    pub request_body: Json,
    pub status: Option<u16>,
    pub response_headers: Option<Json>,
    pub response_body: Option<Seq<char>>,
    pub truncated: bool,
}

pub open spec fn optional_view(v: Option<JsonValue>) -> Option<Json> {
    match v {
        Some(x) => Some(x@),
        None => None,
    }
}

impl View for TrafficEntry {
    type V = TrafficView;

    open spec fn view(&self) -> TrafficView {
        TrafficView {
            id: self.id@,
            ts: self.ts,
            url: self.url@,
            provider: self.provider@,
            request_headers: self.request_headers@,
            request_body: self.request_body@,
            status: self.status,
            response_headers: optional_view(self.response_headers),
            response_body: text_view(self.response_body),
            truncated: self.truncated,
        }
    }
}

pub open spec fn entries_view(list: Seq<TrafficEntry>) -> Seq<TrafficView> {
    list.map_values(|e: TrafficEntry| e@)
}

/// An entry of an object, or none.
pub open spec fn part(key: Seq<char>, v: Option<Json>) -> Fields {
    match v {
        Some(x) => seq![(key, x)],
        None => Seq::empty(),
    }
}

pub open spec fn status_json(status: Option<u16>) -> Option<Json> {
    match status {
        Some(n) => Some(json_int(n as int)),
        None => None,
    }
}

pub open spec fn text_json(text: Option<Seq<char>>) -> Option<Json> {
    match text {
        Some(s) => Some(Json::Str(s)),
        None => None,
    }
}

/// The form in which an entry is kept.
pub open spec fn entry_fields(e: TrafficView) -> Fields {
    seq![
        ("id"@, Json::Str(e.id)),
        ("ts"@, json_int(e.ts as int)),
        ("url"@, Json::Str(e.url)),
        ("provider"@, Json::Str(e.provider)),
        ("request_headers"@, e.request_headers),
        ("request_body"@, e.request_body),
    ] + part("status"@, status_json(e.status)) + part("response_headers"@, e.response_headers)
        + part("response_body"@, text_json(e.response_body)) + seq![
        ("truncated"@, Json::Bool(e.truncated)),
    ]
}

/// A text that may be missing.
pub open spec fn text_or_missing(v: Option<Json>) -> Option<Seq<char>> {
    match v {
        None => Some(Seq::empty()),
        Some(Json::Str(s)) => Some(s),
        _ => None,
    }
}

/// A status that may be missing.
pub open spec fn status_or_missing(v: Option<Json>) -> Option<Option<u16>> {
    match v {
        None => Some(None),
        Some(Json::Null) => Some(None),
        Some(Json::Num(n)) => match number_as_u64(n) {
            Some(k) => if k <= u16::MAX {
                Some(Some(k as u16))
            } else {
                None
            },
            None => None,
        },
        _ => None,
    }
}

/// A body that may be missing.
pub open spec fn body_or_missing(v: Option<Json>) -> Option<Option<Seq<char>>> {
    match v {
        None => Some(None),
        Some(Json::Null) => Some(None),
        Some(Json::Str(s)) => Some(Some(s)),
        _ => None,
    }
}

pub open spec fn flag_or_missing(v: Option<Json>) -> Option<bool> {
    match v {
        None => Some(false),
        Some(Json::Bool(b)) => Some(b),
        _ => None,
    }
}

/// A time.
pub open spec fn time_in(v: Option<Json>) -> Option<i64> {
    match v {
        Some(Json::Num(n)) => number_as_i64(n),
        _ => None,
    }
}

/// The entry that a value stands for: an object with an id and a time, in which nothing else has
/// the wrong type.
pub open spec fn entry_in(v: Json) -> Option<TrafficView> {
    let headers = field(v, "response_headers"@);
    match (
        field(v, "id"@),
        time_in(field(v, "ts"@)),
        text_or_missing(field(v, "url"@)),
        text_or_missing(field(v, "provider"@)),
        status_or_missing(field(v, "status"@)),
        body_or_missing(field(v, "response_body"@)),
        flag_or_missing(field(v, "truncated"@)),
    ) {
        (
            Some(Json::Str(id)),
            Some(ts),
            Some(url),
            Some(provider),
            Some(status),
            Some(response_body),
            Some(truncated),
        ) => Some(
            TrafficView {
                id,
                ts,
                url,
                provider,
                request_headers: or_null(field(v, "request_headers"@)),
                request_body: or_null(field(v, "request_body"@)),
                status,
                response_headers: if headers == Some(Json::Null) {
                    None
                } else {
                    headers
                },
                response_body,
                truncated,
            },
        ),
        _ => None,
    }
}

proof fn lemma_find_joined(a: Fields, b: Fields, key: Seq<char>)
    ensures
        find(a + b, key) == (match find(b, key) {
            Some(v) => Some(v),
            None => find(a, key),
        }),
    decreases b.len(),
{
    if b.len() == 0 {
        assert(a + b =~= a);
    } else {
        assert((a + b).drop_last() =~= a + b.drop_last());
        lemma_find_joined(a, b.drop_last(), key);
    }
}

proof fn lemma_find_single(key: Seq<char>, v: Json, other: Seq<char>)
    ensures
        find(seq![(key, v)], other) == (if other == key {
            Some(v)
        } else {
            None
        }),
{
    assert(seq![(key, v)].drop_last() =~= Seq::empty());
    assert(find(seq![(key, v)].drop_last(), other) is None);
}

proof fn lemma_find_part(key: Seq<char>, v: Option<Json>, other: Seq<char>)
    ensures
        find(part(key, v), other) == (if other == key {
            v
        } else {
            None
        }),
{
    match v {
        Some(x) => lemma_find_single(key, x, other),
        None => {},
    }
}

/// What an entry holds under a key.
proof fn lemma_entry_field(e: TrafficView, key: Seq<char>)
    ensures
        find(entry_fields(e), key) == (if key == "truncated"@ {
            Some(Json::Bool(e.truncated))
        } else if key == "response_body"@ {
            text_json(e.response_body)
        } else if key == "response_headers"@ {
            e.response_headers
        } else if key == "status"@ {
            status_json(e.status)
        } else if key == "request_body"@ {
            Some(e.request_body)
        } else if key == "request_headers"@ {
            Some(e.request_headers)
        } else if key == "provider"@ {
            Some(Json::Str(e.provider))
        } else if key == "url"@ {
            Some(Json::Str(e.url))
        } else if key == "ts"@ {
            Some(json_int(e.ts as int))
        } else if key == "id"@ {
            Some(Json::Str(e.id))
        } else {
            None
        }),
{
    lemma_names_differ();
    let first = seq![
        ("id"@, Json::Str(e.id)),
        ("ts"@, json_int(e.ts as int)),
        ("url"@, Json::Str(e.url)),
        ("provider"@, Json::Str(e.provider)),
        ("request_headers"@, e.request_headers),
        ("request_body"@, e.request_body),
    ];
    let with_status = first + part("status"@, status_json(e.status));
    let with_headers = with_status + part("response_headers"@, e.response_headers);
    let with_body = with_headers + part("response_body"@, text_json(e.response_body));
    lemma_find_joined(with_body, seq![("truncated"@, Json::Bool(e.truncated))], key);
    lemma_find_joined(with_headers, part("response_body"@, text_json(e.response_body)), key);
    lemma_find_joined(with_status, part("response_headers"@, e.response_headers), key);
    lemma_find_joined(first, part("status"@, status_json(e.status)), key);
    lemma_find_single("truncated"@, Json::Bool(e.truncated), key);
    lemma_find_part("response_body"@, text_json(e.response_body), key);
    lemma_find_part("response_headers"@, e.response_headers, key);
    lemma_find_part("status"@, status_json(e.status), key);
    assert(first.drop_last() =~= first.take(5));
    assert(first.take(5).drop_last() =~= first.take(4));
    assert(first.take(4).drop_last() =~= first.take(3));
    assert(first.take(3).drop_last() =~= first.take(2));
    assert(first.take(2).drop_last() =~= first.take(1));
    assert(first.take(1).drop_last() =~= first.take(0));
    reveal_with_fuel(find, 8);
}

proof fn lemma_names_differ()
    ensures
        "id"@ != "ts"@,
        "id"@.len() == 2,
        "ts"@.len() == 2,
        "url"@.len() == 3,
        "provider"@.len() == 8,
        "request_headers"@.len() == 15,
        "request_body"@.len() == 12,
        "status"@.len() == 6,
        "response_headers"@.len() == 16,
        "response_body"@.len() == 13,
        "truncated"@.len() == 9,
{
    reveal_strlit("id");
    reveal_strlit("ts");
    reveal_strlit("url");
    reveal_strlit("provider");
    reveal_strlit("request_headers");
    reveal_strlit("request_body");
    reveal_strlit("status");
    reveal_strlit("response_headers");
    reveal_strlit("response_body");
    reveal_strlit("truncated");
    assert("id"@[0] != "ts"@[0]);
}

/// An entry that is kept is read back as it was.
pub proof fn kept_entries_read_back(e: TrafficView)
    requires
        e.response_headers != Some(Json::Null),
    ensures
        entry_in(Json::Obj(entry_fields(e))) == Some(e),
{
    lemma_names_differ();
    lemma_entry_field(e, "id"@);
    lemma_entry_field(e, "ts"@);
    lemma_entry_field(e, "url"@);
    lemma_entry_field(e, "provider"@);
    lemma_entry_field(e, "request_headers"@);
    lemma_entry_field(e, "request_body"@);
    lemma_entry_field(e, "status"@);
    lemma_entry_field(e, "response_headers"@);
    lemma_entry_field(e, "response_body"@);
    lemma_entry_field(e, "truncated"@);
}

fn dup_optional(v: &Option<JsonValue>) -> (out: Option<JsonValue>)
    ensures
        optional_view(out) == optional_view(*v),
{
    match v {
        Some(x) => Some(x.dup()),
        None => None,
    }
}

impl TrafficEntry {
    pub fn dup(&self) -> (out: TrafficEntry)
        ensures
            out@ == self@,
    {
        TrafficEntry {
            id: self.id.clone(),
            ts: self.ts,
            url: self.url.clone(),
            provider: self.provider.clone(),
            request_headers: self.request_headers.dup(),
            request_body: self.request_body.dup(),
            status: self.status,
            response_headers: dup_optional(&self.response_headers),
            response_body: match &self.response_body {
                Some(s) => Some(s.clone()),
                None => None,
            },
            truncated: self.truncated,
        }
    }

    /// [`entry_fields`].
    pub fn to_value(&self) -> (out: JsonValue)
        ensures
            out@ == Json::Obj(entry_fields(self@)),
    {
        let mut o = Object::new();
        o.push("id", JsonValue::text(self.id.as_str()));
        o.push("ts", JsonValue::integer(self.ts));
        o.push("url", JsonValue::text(self.url.as_str()));
        o.push("provider", JsonValue::text(self.provider.as_str()));
        o.push("request_headers", self.request_headers.dup());
        o.push("request_body", self.request_body.dup());
        if let Some(n) = self.status {
            o.push("status", JsonValue::integer(n as i64));
        }
        if let Some(v) = &self.response_headers {
            o.push("response_headers", v.dup());
        }
        if let Some(s) = &self.response_body {
            o.push("response_body", JsonValue::text(s.as_str()));
        }
        o.push("truncated", JsonValue::Bool(self.truncated));
        assert(o@ =~= entry_fields(self@));
        JsonValue::Obj(o)
    }

    /// [`entry_in`].
    pub fn from_value(v: &JsonValue) -> (r: Option<TrafficEntry>)
        ensures
            match entry_in(v@) {
                Some(e) => r is Some && r->0@ == e,
                None => r is None,
            },
    {
        let id = match v.get("id") {
            Some(JsonValue::Str(s)) => s.clone(),
            _ => return None,
        };
        let ts: i64 = match v.get("ts") {
            Some(JsonValue::Num(n)) => match n.as_i64() {
                Some(k) => k,
                None => return None,
            },
            _ => return None,
        };
        proof {
            reveal_strlit("");
            assert(""@ =~= Seq::<char>::empty());
        }
        let url = match v.get("url") {
            None => "".to_owned(),
            Some(JsonValue::Str(s)) => s.clone(),
            _ => return None,
        };
        let provider = match v.get("provider") {
            None => "".to_owned(),
            Some(JsonValue::Str(s)) => s.clone(),
            _ => return None,
        };
        let status: Option<u16> = match v.get("status") {
            None => None,
            Some(JsonValue::Null) => None,
            Some(JsonValue::Num(n)) => match n.as_u64() {
                Some(k) => if k <= 65535 {
                    Some(k as u16)
                } else {
                    return None;
                },
                None => return None,
            },
            _ => return None,
        };
        let response_body = match v.get("response_body") {
            None => None,
            Some(JsonValue::Null) => None,
            Some(JsonValue::Str(s)) => Some(s.clone()),
            _ => return None,
        };
        let truncated = match v.get("truncated") {
            None => false,
            Some(JsonValue::Bool(b)) => *b,
            _ => return None,
        };
        let response_headers = match v.get("response_headers") {
            None => None,
            Some(JsonValue::Null) => None,
            Some(x) => Some(x.dup()),
        };
        Some(
            TrafficEntry {
                id,
                ts,
                url,
                provider,
                request_headers: dup_or_null(v.get("request_headers")),
                request_body: dup_or_null(v.get("request_body")),
                status,
                response_headers,
                response_body,
                truncated,
            },
        )
    }
}

/// The form in which an entry is shown, with null for what is missing.
pub open spec fn detail_json(e: TrafficView) -> Json {
    Json::Obj(
        seq![
            ("id"@, Json::Str(e.id)),
            ("ts"@, json_int(e.ts as int)),
            ("url"@, Json::Str(e.url)),
            ("provider"@, Json::Str(e.provider)),
            ("requestHeaders"@, e.request_headers),
            ("requestBody"@, e.request_body),
            ("status"@, or_null(status_json(e.status))),
            ("responseHeaders"@, or_null(e.response_headers)),
            ("responseBody"@, or_null(text_json(e.response_body))),
            ("truncated"@, Json::Bool(e.truncated)),
        ],
    )
}

/// [`detail_json`].
pub fn detail_payload(entry: &TrafficEntry) -> (out: JsonValue)
    ensures
        out@ == detail_json(entry@),
{
    let mut o = Object::new();
    o.push("id", JsonValue::text(entry.id.as_str()));
    o.push("ts", JsonValue::integer(entry.ts));
    o.push("url", JsonValue::text(entry.url.as_str()));
    o.push("provider", JsonValue::text(entry.provider.as_str()));
    o.push("requestHeaders", entry.request_headers.dup());
    o.push("requestBody", entry.request_body.dup());
    o.push(
        "status",
        match entry.status {
            Some(n) => JsonValue::integer(n as i64),
            None => JsonValue::Null,
        },
    );
    o.push(
        "responseHeaders",
        match &entry.response_headers {
            Some(v) => v.dup(),
            None => JsonValue::Null,
        },
    );
    o.push(
        "responseBody",
        match &entry.response_body {
            Some(s) => JsonValue::text(s.as_str()),
            None => JsonValue::Null,
        },
    );
    o.push("truncated", JsonValue::Bool(entry.truncated));
    assert(o@ =~= detail_json(entry@)->Obj_0);
    JsonValue::Obj(o)
}

/// An entry of which nothing but the request is there yet.
pub open spec fn blank(
    id: Seq<char>,
    url: Seq<char>,
    provider: Seq<char>,
    headers: Seq<(Seq<char>, Seq<char>)>,
    body: Json,
    now: i64,
) -> TrafficView {
    TrafficView {
        id,
        ts: now,
        url,
        provider,
        request_headers: Json::Obj(kept_headers(headers)),
        request_body: body,
        status: None,
        response_headers: None,
        response_body: None,
        truncated: false,
    }
}

/// [`blank`].
pub fn blank_entry(
    id: &str,
    url: &str,
    provider: &str,
    headers: &Vec<(String, String)>,
    body: &JsonValue,
    now: i64,
) -> (out: TrafficEntry)
    ensures
        out@ == blank(id@, url@, provider@, pairs(headers@), body@, now),
{
    TrafficEntry {
        id: id.to_owned(),
        ts: now,
        url: url.to_owned(),
        provider: provider.to_owned(),
        request_headers: redact_headers(headers),
        request_body: body.dup(),
        status: None,
        response_headers: None,
        response_body: None,
        truncated: false,
    }
}

} // verus!
