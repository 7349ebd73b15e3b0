//! What is kept of an exchange, from the first byte sent to the entry that is shown.
use vstd::prelude::*;
use crate::debug_traffic::capture::{answered, attempted, begun, grown, handed_out, CaptureView};
use crate::debug_traffic::cut::{byte_len, cut_text, fitting, json_len};
use crate::debug_traffic::entry::{detail_json, in_lower_case, kept_headers, TrafficView};
use crate::debug_traffic::store::{
    crowded, cut_entry, entry_size, last_entries, last_with, recorded, total_size, within_size,
};
use crate::debug_traffic::{MAX_ENTRIES, MAX_ENTRY_BYTES, MAX_TOTAL_BYTES};
use crate::json::{find, find_of_put, json_int, lemma_find_at, Json};
use crate::protocol::stream_laws::part_of;
use crate::text::ascii_lower;

verus! {

/// The headers that carry credentials, by name in lower case.
pub open spec fn carries_credentials(name: Seq<char>) -> bool {
    name == "authorization"@ || name
        == "proxy-authorization"@ || name
        == "cookie"@ || name
        == "cookie2"@ || name
        == "set-cookie"@ || name
        == "x-api-key"@ || name
        == "api-key"@ || name
        == "x-auth-token"@ || name
        == "x-access-token"@ || name
        == "x-refresh-token"@ || name
        == "x-ide-token"@ || name
        == "x-ide-auth"@ || name
        == "x-workbuddy-token"@ || name
        == "x-raccoon-token"@ || name
        == "x-cline-token"@ || name
        == "x-qoder-token"@ || name
        == "x-catpaw-cookie"@ || name
        == "x-autoclaw-token"@
}

/// The same name, whatever the case of its ASCII letters.
pub open spec fn same_header(a: Seq<char>, name: Seq<char>) -> bool {
    a.len() == name.len() && forall|i: int| 0 <= i < a.len() ==> ascii_lower(#[trigger] a[i]) == name[i]
}

/// Of a header the last value is kept as it came; of one that carries credentials none is.
pub proof fn header_is_kept(headers: Seq<(Seq<char>, Seq<char>)>, name: Seq<char>, i: int)
    requires
        0 <= i < headers.len(),
        same_header(headers[i].0, name),
        forall|j: int| i < j < headers.len() ==> !same_header((#[trigger] headers[j]).0, name),
    ensures
        carries_credentials(name) ==> find(kept_headers(headers), name) == Some(
            Json::Str("[redacted]"@),
        ),
        !carries_credentials(name) ==> find(kept_headers(headers), name) == Some(
            Json::Str(headers[i].1),
        ),
    decreases headers.len(),
{
    broadcast use find_of_put;

    let last = headers.last();
    let short = headers.drop_last();
    let lower = in_lower_case(last.0);
    assert(same_header(last.0, name) <==> lower == name) by {
        if same_header(last.0, name) {
            assert(lower =~= name);
        }
        if lower == name {
            assert forall|k: int| 0 <= k < last.0.len() implies ascii_lower(#[trigger] last.0[k])
                == name[k] by {
                assert(lower[k] == name[k]);
            }
        }
    }
    if i < short.len() {
        assert(!same_header(headers[headers.len() - 1].0, name));
        assert forall|j: int| i < j < short.len() implies !same_header((#[trigger] short[j]).0, name) by {
            assert(short[j] == headers[j]);
        }
        header_is_kept(short, name, i);
    }
}

/// Of an exchange is handed out what was sent and what came back: where to, for which provider,
/// with what body, the status, and the text of the answer piece by piece.
pub proof fn exchange_is_kept(
    c: CaptureView,
    url: Seq<char>,
    provider: Seq<char>,
    sent: Seq<(Seq<char>, Seq<char>)>,
    body: Json,
    now: i64,
    status: u16,
    got: Seq<(Seq<char>, Seq<char>)>,
    first: Seq<char>,
    second: Seq<char>,
)
    requires
        !c.done,
        byte_len(first) < MAX_ENTRY_BYTES,
        first.len() > 0,
    ensures
        ({
            let a = attempted(c, url, provider, sent, body, now);
            let b = answered(a, status, got);
            let d = grown(grown(b, first), second);
            let e = handed_out(d);
            &&& e is Some
            &&& e->0.id == c.entry.id
            &&& e->0.ts == now
            &&& e->0.url == url
            &&& e->0.provider == provider
            &&& e->0.request_headers == Json::Obj(kept_headers(sent))
            &&& e->0.request_body == body
            &&& e->0.status == Some(status)
            &&& e->0.response_headers == Some(Json::Obj(kept_headers(got)))
            &&& e->0.response_body == Some(first + second)
            &&& !e->0.truncated
        }),
{
    let a = attempted(c, url, provider, sent, body, now);
    let b = answered(a, status, got);
    assert(byte_len(Seq::<char>::empty()) == 0);
    assert(b.body + first =~= first);
}

/// An exchange that was not answered is handed out without an answer.
pub proof fn unanswered_exchange_is_kept(
    id: Seq<char>,
    url: Seq<char>,
    provider: Seq<char>,
    sent: Seq<(Seq<char>, Seq<char>)>,
    body: Json,
    start: i64,
    now: i64,
)
    ensures
        ({
            let e = handed_out(attempted(begun(id, start), url, provider, sent, body, now));
            &&& e is Some
            &&& e->0.id == id
            &&& e->0.url == url
            &&& e->0.request_body == body
            &&& e->0.status is None
            &&& e->0.response_body is None
        }),
{
}

/// An entry within its bounds is kept as it is, behind those that are there, of which none goes
/// as long as there is room.
pub proof fn entry_is_recorded(s: Seq<TrafficView>, e: TrafficView)
    requires
        json_len(e.request_body) <= MAX_ENTRY_BYTES,
        e.response_body is Some ==> byte_len(e.response_body->0) <= MAX_ENTRY_BYTES,
    ensures
        recorded(s, e).len() > 0,
        recorded(s, e).last() == e,
        s.len() < MAX_ENTRIES && total_size(s) + entry_size(e) <= MAX_TOTAL_BYTES ==> recorded(s, e)
            == s.push(e),
        forall|k: int|
            0 <= k < recorded(s, e).len() - 1 ==> s.contains(#[trigger] recorded(s, e)[k]),
{
    assert(cut_entry(e) == e);
    assert forall|k: int| 0 <= k < recorded(s, e).len() - 1 implies s.contains(
        #[trigger] recorded(s, e)[k],
    ) by {
        if crowded(s, e) {
            let n = s.len() - s.len() as int / 2;
            assert(recorded(s, e)[k] == s[n + k]);
        } else {
            assert(recorded(s, e)[k] == s[k]);
        }
    }
}

/// Where there is no room the newer half stays, in its order.
pub proof fn newer_half_stays(s: Seq<TrafficView>, e: TrafficView, i: int)
    requires
        crowded(s, cut_entry(e)),
        0 <= i < s.len() as int / 2,
    ensures
        recorded(s, e).len() == s.len() as int / 2 + 1,
        recorded(s, e)[recorded(s, e).len() - 2 - i] == s[s.len() - 1 - i],
{
}

/// An entry is found by its id: the last that has it.
pub proof fn entry_is_found(s: Seq<TrafficView>, id: Seq<char>, i: int)
    requires
        0 <= i < s.len(),
        s[i].id == id,
        forall|j: int| i < j < s.len() ==> (#[trigger] s[j]).id != id,
    ensures
        last_with(s, id) == Some(s[i]),
    decreases s.len(),
{
    if i < s.len() - 1 {
        assert(s[s.len() - 1].id != id);
        let short = s.drop_last();
        assert forall|j: int| i < j < short.len() implies (#[trigger] short[j]).id != id by {
            assert(short[j] == s[j]);
        }
        entry_is_found(short, id, i);
    }
}

/// Of a text that is too long as much stays as fits, and not a character less; a mark ends it.
pub proof fn as_much_stays_as_fits(text: Seq<char>, most: nat)
    ensures
        byte_len(text) <= most ==> cut_text(text, most) == text,
        byte_len(text) > most ==> {
            let n = fitting(text, most).len() as int;
            &&& n < text.len()
            &&& cut_text(text, most) == text.take(n).push('…')
            &&& byte_len(text.take(n)) <= most
            &&& byte_len(text.take(n + 1)) > most
        },
{
    lemma_fitting(text, most);
    assert(text.take(text.len() as int) =~= text);
}

proof fn lemma_fitting(text: Seq<char>, most: nat)
    ensures
        ({
            let n = fitting(text, most).len() as int;
            &&& n <= text.len()
            &&& fitting(text, most) == text.take(n)
            &&& byte_len(text.take(n)) <= most
            &&& n < text.len() ==> byte_len(text.take(n + 1)) > most
        }),
    decreases text.len(),
{
    assert(text.take(text.len() as int) =~= text);
    if byte_len(text) > most {
        let short = text.drop_last();
        lemma_fitting(short, most);
        let n = fitting(short, most).len() as int;
        assert(short.take(n) =~= text.take(n));
        if n < short.len() {
            assert(short.take(n + 1) =~= text.take(n + 1));
        } else {
            assert(text.take(n + 1) =~= text);
        }
    }
}

proof fn lemma_detail_words()
    ensures
        "id"@.len() == 2,
        "ts"@.len() == 2,
        "url"@.len() == 3,
        "provider"@.len() == 8,
        "requestHeaders"@.len() == 14,
        "requestBody"@.len() == 11,
        "status"@.len() == 6,
        "responseHeaders"@.len() == 15,
        "responseBody"@.len() == 12,
        "truncated"@.len() == 9,
        "id"@ != "ts"@,
{
    reveal_strlit("id");
    reveal_strlit("ts");
    reveal_strlit("url");
    reveal_strlit("provider");
    reveal_strlit("requestHeaders");
    reveal_strlit("requestBody");
    reveal_strlit("status");
    reveal_strlit("responseHeaders");
    reveal_strlit("responseBody");
    reveal_strlit("truncated");
    assert("id"@[0] != "ts"@[0]);
}

/// What is shown of an entry is what it holds, with null for what is missing.
pub proof fn shown_entry_is_the_entry(e: TrafficView)
    ensures
        ({
            let d = detail_json(e);
            &&& part_of(d, "id"@) == Json::Str(e.id)
            &&& part_of(d, "ts"@) == json_int(e.ts as int)
            &&& part_of(d, "url"@) == Json::Str(e.url)
            &&& part_of(d, "provider"@) == Json::Str(e.provider)
            &&& part_of(d, "requestHeaders"@) == e.request_headers
            &&& part_of(d, "requestBody"@) == e.request_body
            &&& e.status is Some ==> part_of(d, "status"@) == json_int(e.status->0 as int)
            &&& e.status is None ==> part_of(d, "status"@) == Json::Null
            &&& e.response_headers is Some ==> part_of(d, "responseHeaders"@)
                == e.response_headers->0
            &&& e.response_body is Some ==> part_of(d, "responseBody"@) == Json::Str(
                e.response_body->0,
            )
            &&& e.response_body is None ==> part_of(d, "responseBody"@) == Json::Null
            &&& part_of(d, "truncated"@) == Json::Bool(e.truncated)
        }),
{
    lemma_detail_words();
    let o = detail_json(e)->Obj_0;
    lemma_find_at(o, "id"@, 0);
    lemma_find_at(o, "ts"@, 1);
    lemma_find_at(o, "url"@, 2);
    lemma_find_at(o, "provider"@, 3);
    lemma_find_at(o, "requestHeaders"@, 4);
    lemma_find_at(o, "requestBody"@, 5);
    lemma_find_at(o, "status"@, 6);
    lemma_find_at(o, "responseHeaders"@, 7);
    lemma_find_at(o, "responseBody"@, 8);
    lemma_find_at(o, "truncated"@, 9);
}

/// Of what a file gives the newest entries are kept, as many as may be and as fit, and none of
/// them is left out.
pub proof fn newest_entries_are_loaded(s: Seq<TrafficView>)
    ensures
        ({
            let kept = within_size(last_entries(s));
            let n = s.len() - kept.len();
            &&& 0 <= n
            &&& kept == s.skip(n)
            &&& s.len() <= 500 && total_size(s) <= MAX_TOTAL_BYTES ==> kept == s
            &&& n > 0 && kept.len() < 500 ==> total_size(s.skip(n - 1)) > MAX_TOTAL_BYTES
        }),
{
    let l = last_entries(s);
    lemma_within(l);
    let kept = within_size(l);
    let d = s.len() - l.len();
    assert(l =~= s.skip(d));
    let m = l.len() - kept.len();
    assert(l.skip(m) =~= s.skip(d + m));
    if m > 0 {
        assert(l.skip(m - 1) =~= s.skip(d + m - 1));
    }
    assert(s.skip(0) =~= s);
}

proof fn lemma_within(s: Seq<TrafficView>)
    ensures
        ({
            let kept = within_size(s);
            let n = s.len() - kept.len();
            &&& 0 <= n
            &&& kept == s.skip(n)
            &&& n > 0 ==> total_size(s.skip(n - 1)) > MAX_TOTAL_BYTES
        }),
    decreases s.len(),
{
    assert(s.skip(0) =~= s);
    if s.len() > 0 && total_size(s) > MAX_TOTAL_BYTES {
        let rest = s.drop_first();
        lemma_within(rest);
        let n = s.len() - within_size(s).len();
        assert(rest.skip(n - 1) =~= s.skip(n));
        if n > 1 {
            assert(rest.skip(n - 2) =~= s.skip(n - 1));
        }
    }
}

} // verus!
