//! That every term that is found is split and counted, wherever it stands.
use vstd::prelude::*;
use crate::desensitize::engine::{
    ascii_upper, block_scrubbed, body_hits, bumped_by, by_count, chosen_roles, clean,
    clean_is_clean, compiled, compiled_list, content_scrubbed, counted, filled_terms, folded,
    folded_text, hits, hits_from, is_clean, length_keys, listed, looked_at, match_at, match_from,
    matches_at, message_hits, message_scrubbed, messages_hits, messages_scrubbed, printable,
    roles_among, scrubbed, scrubbed_from, splitting_adds_one_per_hit, tried, uppered, utf16,
    valid_roles, word_char, zwsp, MAX_TERM_LENGTH, TermView,
};
use crate::desensitize::remote::{remote_in, sync_result, synced, RemoteView};
use crate::desensitize::service::{
    added_since, after_processing, chosen_providers, counts_in, finds, initial, missing_from,
    no_counts, outcome_is, processed, providers_among, stats_json, summary_json, terms_without,
    with_kept, with_missing, ProcessOutcome, ServiceView,
};
use crate::desensitize::state::{json_words, persisted_in, texts_in};
use crate::json::{find, find_of_put, json_int, lemma_find_at, Fields, Json};
use crate::order::{order_holds_every_position, order_is_stable_sort, stable_order};
use crate::protocol::stream_laws::{part_of, said};
use crate::text::{js_trimmed, lowered};

verus! {

// ─── Where a term stands ─────────────────────────────────────

/// The term is written in the text at a place, on its own.
pub open spec fn stands_alone(term: Seq<char>, text: Seq<char>, p: int) -> bool {
    let end = p + term.len();
    &&& 0 <= p
    &&& end <= text.len()
    &&& text.subrange(p, end) == term
    &&& p == 0 || !word_char(text[p - 1])
    &&& end == text.len() || !word_char(text[end])
}

/// A term that is written in a text on its own is found there.
pub proof fn written_term_is_found(term: Seq<char>, text: Seq<char>, p: int)
    requires
        stands_alone(term, text, p),
    ensures
        matches_at(compiled(term), text, p),
{
    let end = p + term.len();
    assert(folded_text(text).subrange(p, end) =~= folded_text(term)) by {
        assert forall|k: int| 0 <= k < term.len() implies folded_text(text).subrange(p, end)[k]
            == folded_text(term)[k] by {
            assert(text.subrange(p, end)[k] == term[k]);
        }
    }
}

/// In a text without letters and digits of ASCII around it, a term of other signs is found
/// wherever it is written, also inside a word.
pub proof fn unbounded_term_is_found_anywhere(term: Seq<char>, text: Seq<char>, p: int)
    requires
        !printable(term),
        0 <= p,
        p + term.len() <= text.len(),
        text.subrange(p, p + term.len()) == term,
    ensures
        matches_at(compiled(term), text, p),
{
    let end = p + term.len();
    assert(folded_text(text).subrange(p, end) =~= folded_text(term)) by {
        assert forall|k: int| 0 <= k < term.len() implies folded_text(text).subrange(p, end)[k]
            == folded_text(term)[k] by {
            assert(text.subrange(p, end)[k] == term[k]);
        }
    }
}

/// A term of printable ASCII is not found inside a longer word.
pub proof fn parts_of_words_are_not_found(term: Seq<char>, text: Seq<char>, p: int)
    requires
        printable(term),
        0 <= p,
        (p > 0 && p <= text.len() && word_char(text[p - 1])) || (p + term.len() < text.len()
            && word_char(text[p + term.len()])),
    ensures
        !matches_at(compiled(term), text, p),
{
    assert(compiled(term).units.len() == term.len());
}

/// The case of ASCII letters does not matter.
pub proof fn case_does_not_matter(c: char, d: char)
    requires
        (c as u32) < 128,
        (d as u32) < 128,
        uppered(c) == seq![ascii_upper(c)],
        uppered(d) == seq![ascii_upper(d)],
        ascii_upper(c) == ascii_upper(d),
    ensures
        folded(c) == folded(d),
{
}

// ─── Splitting ───────────────────────────────────────────────

/// No term is found before a place.
pub open spec fn clear_before(terms: Seq<TermView>, text: Seq<char>, p: int) -> bool {
    forall|q: int, i: int|
        0 <= q < p && 0 <= i < terms.len() ==> !#[trigger] matches_at(terms[i], text, q)
}

proof fn lemma_match_none(terms: Seq<TermView>, text: Seq<char>, p: int, from: int)
    requires
        0 <= from <= terms.len(),
        forall|i: int| 0 <= i < terms.len() ==> !#[trigger] matches_at(terms[i], text, p),
    ensures
        match_from(terms, text, p, from) is None,
    decreases terms.len() - from,
{
    if from < terms.len() {
        lemma_match_none(terms, text, p, from + 1);
    }
}

proof fn lemma_match_some(terms: Seq<TermView>, text: Seq<char>, p: int, from: int, i: int)
    requires
        0 <= from <= i < terms.len(),
        matches_at(terms[i], text, p),
    ensures
        match_from(terms, text, p, from) matches Some(k) && from <= k <= i && matches_at(
            terms[k],
            text,
            p,
        ),
    decreases terms.len() - from,
{
    if !matches_at(terms[from], text, p) {
        lemma_match_some(terms, text, p, from + 1, i);
    }
}

proof fn lemma_split_from(terms: Seq<TermView>, text: Seq<char>, q: int, p: int, i: int)
    requires
        filled_terms(terms),
        0 <= q <= p < text.len(),
        clear_before(terms, text, p),
        0 <= i < terms.len(),
        matches_at(terms[i], text, p),
    ensures
        ({
            let r = scrubbed_from(terms, text, q);
            &&& r.len() >= p - q + 2
            &&& r.take(p - q + 1) == text.subrange(q, p + 1)
            &&& r[p - q + 1] == zwsp()
            &&& hits_from(terms, text, q).len() > 0
            &&& hits_from(terms, text, q)[0].len() > 0
            &&& hits_from(terms, text, q)[0] == text.subrange(
                p,
                p + hits_from(terms, text, q)[0].len(),
            )
        }),
    decreases p - q,
{
    let r = scrubbed_from(terms, text, q);
    if q == p {
        lemma_match_some(terms, text, p, 0, i);
        let k = match_at(terms, text, p)->0;
        let n = terms[k].units.len() as int;
        assert(r[0] == text[p] && r[1] == zwsp());
        assert(r.take(1) =~= text.subrange(q, p + 1));
        assert(text.subrange(p, p + n).len() == n);
    } else {
        lemma_match_none(terms, text, q, 0);
        lemma_split_from(terms, text, q + 1, p, i);
        let rest = scrubbed_from(terms, text, q + 1);
        assert(r == seq![text[q]] + rest);
        assert(r.take(p - q + 1) =~= text.subrange(q, p + 1)) by {
            assert forall|k: int| 0 <= k < p - q + 1 implies r[k] == text[q + k] by {
                if k > 0 {
                    assert(r[k] == rest[k - 1]);
                    assert(rest.take(p - q)[k - 1] == text.subrange(q + 1, p + 1)[k - 1]);
                }
            }
        }
    }
}

/// The first term that is found in a text is split after its first character; what is before it
/// stays as it is.
pub proof fn first_term_is_split(terms: Seq<TermView>, text: Seq<char>, p: int, i: int)
    requires
        filled_terms(terms),
        0 <= p < text.len(),
        clear_before(terms, text, p),
        0 <= i < terms.len(),
        matches_at(terms[i], text, p),
    ensures
        scrubbed(terms, text).len() >= p + 2,
        scrubbed(terms, text).take(p + 1) == text.take(p + 1),
        scrubbed(terms, text)[p + 1] == zwsp(),
        hits(terms, text).len() > 0,
        hits(terms, text)[0].len() > 0,
        hits(terms, text)[0] == text.subrange(p, p + hits(terms, text)[0].len()),
{
    lemma_split_from(terms, text, 0, p, i);
    assert(text.subrange(0, p + 1) =~= text.take(p + 1));
}

/// What follows a term is treated as if it began there: after a term that is found, the search
/// goes on behind it.
pub proof fn search_goes_on_behind_a_term(terms: Seq<TermView>, text: Seq<char>, p: int)
    requires
        filled_terms(terms),
        0 <= p < text.len(),
        match_at(terms, text, p) is Some,
    ensures
        ({
            let n = terms[match_at(terms, text, p)->0].units.len() as int;
            &&& p + n <= text.len() ==> scrubbed_from(terms, text, p) == seq![text[p], zwsp()]
                + text.subrange(p + 1, p + n) + scrubbed_from(terms, text, p + n)
            &&& p + n <= text.len() ==> hits_from(terms, text, p) == seq![text.subrange(p, p + n)]
                + hits_from(terms, text, p + n)
        }),
{
    lemma_found(terms, text, p, 0);
}

proof fn lemma_found(terms: Seq<TermView>, text: Seq<char>, p: int, from: int)
    requires
        0 <= from,
        match_from(terms, text, p, from) is Some,
    ensures
        0 <= match_from(terms, text, p, from)->0 < terms.len(),
        matches_at(terms[match_from(terms, text, p, from)->0], text, p),
    decreases terms.len() - from,
{
    if from < terms.len() && !matches_at(terms[from], text, p) {
        lemma_found(terms, text, p, from + 1);
    }
}

// ─── The list of terms ───────────────────────────────────────

proof fn lemma_listed_stays(terms: Seq<Seq<char>>, more: Seq<char>, t: Seq<char>)
    requires
        listed(terms, t),
    ensures
        listed(terms.push(more), t),
{
    let i = choose|i: int| 0 <= i < terms.len() && lowered(#[trigger] terms[i]) == lowered(t);
    assert(terms.push(more)[i] == terms[i]);
}

proof fn lemma_clean_len(candidates: Seq<Seq<char>>)
    ensures
        clean(candidates).len() <= candidates.len(),
    decreases candidates.len(),
{
    if candidates.len() > 0 {
        lemma_clean_len(candidates.drop_last());
    }
}

/// Every proper candidate is listed, as long as there is room: without the blanks around it, but
/// for case.
pub proof fn proper_terms_are_listed(candidates: Seq<Seq<char>>, i: int)
    requires
        0 <= i < candidates.len() <= 2000,
        js_trimmed(candidates[i]).len() > 0,
        utf16(js_trimmed(candidates[i])) <= 200,
    ensures
        listed(clean(candidates), js_trimmed(candidates[i])),
    decreases candidates.len(),
{
    let short = candidates.drop_last();
    let before = clean(short);
    let all = clean(candidates);
    lemma_clean_len(short);
    let t = js_trimmed(candidates[i]);
    if i < short.len() {
        proper_terms_are_listed(short, i);
        if all != before {
            lemma_listed_stays(before, js_trimmed(candidates.last()), t);
        }
    } else if !listed(before, t) {
        assert(all == before.push(t));
        assert(all[all.len() - 1] == t);
    }
}

/// All terms are tried, the longest first.
pub proof fn longest_terms_are_tried_first(terms: Seq<Seq<char>>, i: int, j: int)
    requires
        is_clean(terms),
        0 <= i < j < terms.len(),
    ensures
        tried(terms).len() == terms.len(),
        utf16(tried(terms)[i]) >= utf16(tried(terms)[j]),
        tried(terms).contains(terms[i]),
        tried(terms).contains(terms[j]),
{
    let keys = length_keys(terms);
    let o = stable_order(keys);
    order_is_stable_sort(keys);
    order_holds_every_position(keys, i);
    order_holds_every_position(keys, j);
    let a = choose|a: int| 0 <= a < o.len() && o[a] == i;
    let b = choose|b: int| 0 <= b < o.len() && o[b] == j;
    assert(tried(terms)[a] == terms[i]);
    assert(tried(terms)[b] == terms[j]);
    assert(crate::order::key_le(keys[o[i]], keys[o[j]]));
    assert(utf16(terms[o[i]]) <= 200 && utf16(terms[o[j]]) <= 200);
    assert(tried(terms)[i] == terms[o[i]] && tried(terms)[j] == terms[o[j]]);
}

/// A list with the missing terms of another: every proper one is there afterwards.
pub proof fn missing_terms_are_added(terms: Seq<Seq<char>>, candidates: Seq<Seq<char>>, i: int)
    requires
        0 <= i < candidates.len(),
        terms.len() + candidates.len() <= 2000,
        js_trimmed(candidates[i]) == candidates[i],
        candidates[i].len() > 0,
        utf16(candidates[i]) <= 200,
        is_clean(terms),
        is_clean(candidates),
    ensures
        listed(with_missing(terms, candidates), candidates[i]),
{
    lemma_missing(terms, candidates, i);
    lemma_missing_len(terms, candidates);
    let more = missing_from(terms, candidates);
    let all = terms + more;
    let t = candidates[i];
    if listed(terms, t) {
        let k = choose|k: int| 0 <= k < terms.len() && lowered(#[trigger] terms[k]) == lowered(t);
        assert(all[k] == terms[k]);
        proper_terms_are_listed(all, k);
        lemma_same_listed(clean(all), terms[k], t);
    } else {
        let k = choose|k: int| 0 <= k < more.len() && more[k] == t;
        assert(all[terms.len() + k] == t);
        proper_terms_are_listed(all, terms.len() + k);
    }
}

proof fn lemma_same_listed(terms: Seq<Seq<char>>, a: Seq<char>, b: Seq<char>)
    requires
        listed(terms, a),
        lowered(a) == lowered(b),
    ensures
        listed(terms, b),
{
    let i = choose|i: int| 0 <= i < terms.len() && lowered(#[trigger] terms[i]) == lowered(a);
    assert(lowered(terms[i]) == lowered(b));
}

proof fn lemma_missing_len(known: Seq<Seq<char>>, candidates: Seq<Seq<char>>)
    ensures
        missing_from(known, candidates).len() <= candidates.len(),
    decreases candidates.len(),
{
    if candidates.len() > 0 {
        lemma_missing_len(known, candidates.drop_last());
    }
}

proof fn lemma_missing(known: Seq<Seq<char>>, candidates: Seq<Seq<char>>, i: int)
    requires
        0 <= i < candidates.len(),
        is_clean(candidates),
    ensures
        listed(known, candidates[i]) || missing_from(known, candidates).contains(candidates[i]),
        forall|k: int|
            0 <= k < missing_from(known, candidates).len() ==> candidates.contains(
                #[trigger] missing_from(known, candidates)[k],
            ),
    decreases candidates.len(),
{
    let short = candidates.drop_last();
    let before = missing_from(known, short);
    let all = missing_from(known, candidates);
    let t = candidates[i];
    assert(is_clean(short)) by {
        assert forall|a: int| 0 <= a < short.len() implies (#[trigger] short[a]).len() > 0 && utf16(
            short[a],
        ) <= MAX_TERM_LENGTH && js_trimmed(short[a]) == short[a] by {
            assert(short[a] == candidates[a]);
        }
        assert forall|a: int, b: int| 0 <= a < b < short.len() implies lowered(#[trigger] short[a])
            != lowered(#[trigger] short[b]) by {
            assert(lowered(candidates[a]) != lowered(candidates[b]));
        }
    }
    if short.len() > 0 {
        lemma_missing(known, short, if i < short.len() { i } else { 0 });
    }
    assert forall|k: int| 0 <= k < all.len() implies candidates.contains(#[trigger] all[k]) by {
        if k < before.len() {
            assert(short.contains(before[k]));
            let a = choose|a: int| 0 <= a < short.len() && short[a] == before[k];
            assert(candidates[a] == all[k]);
        } else {
            assert(candidates[candidates.len() - 1] == all[k]);
        }
    }
    if i < short.len() {
        if before.contains(t) {
            let k = choose|k: int| 0 <= k < before.len() && before[k] == t;
            assert(all[k] == t);
        }
    } else if !listed(known, t) {
        if listed(before, t) {
            let k = choose|k: int|
                0 <= k < before.len() && lowered(#[trigger] before[k]) == lowered(t);
            assert(short.contains(before[k]));
            let a = choose|a: int| 0 <= a < short.len() && short[a] == before[k];
            assert(lowered(candidates[a]) != lowered(candidates[candidates.len() - 1]));
        } else {
            assert(all[all.len() - 1] == t);
        }
    }
}

/// What is left after a removal: the terms that were not named, in their order.
pub proof fn unnamed_terms_are_left(terms: Seq<Seq<char>>, named: Seq<Seq<char>>)
    ensures
        terms_without(terms, named) == terms.filter(
            |t: Seq<char>|
                !exists|i: int|
                    0 <= i < named.len() && lowered(js_trimmed(#[trigger] named[i])) == lowered(t),
        ),
    decreases terms.len(),
{
    reveal(Seq::filter);
    if terms.len() > 0 {
        unnamed_terms_are_left(terms.drop_last(), named);
    }
}

// ─── Counting ────────────────────────────────────────────────

/// The count of a word.
pub open spec fn count_for(entries: Seq<(Seq<char>, usize)>, word: Seq<char>) -> int
    decreases entries.len(),
{
    if entries.len() == 0 {
        0
    } else if entries[0].0 == word {
        entries[0].1 as int
    } else {
        count_for(entries.drop_first(), word)
    }
}

/// How often a word is among some.
pub open spec fn times(hits: Seq<Seq<char>>, word: Seq<char>) -> nat
    decreases hits.len(),
{
    if hits.len() == 0 {
        0
    } else {
        times(hits.drop_last(), word) + if hits.last() == word {
            1nat
        } else {
            0
        }
    }
}

proof fn lemma_counted(entries: Seq<(Seq<char>, usize)>, w: Seq<char>, word: Seq<char>)
    requires
        count_for(entries, w) < usize::MAX,
    ensures
        count_for(counted(entries, w), word) == count_for(entries, word) + if word == w {
            1int
        } else {
            0
        },
    decreases entries.len(),
{
    let all = counted(entries, w);
    if entries.len() == 0 {
        assert(all[0] == (w, 1usize));
        if word != w {
            assert(all.drop_first() =~= Seq::empty());
            assert(count_for(all.drop_first(), word) == 0);
        }
    } else if entries[0].0 == w {
        assert(all[0].0 == w);
        assert(all.drop_first() =~= entries.drop_first());
    } else {
        lemma_counted(entries.drop_first(), w, word);
        assert(all[0] == entries[0]);
        assert(all.drop_first() =~= counted(entries.drop_first(), w));
    }
}

proof fn lemma_times(hits: Seq<Seq<char>>, word: Seq<char>)
    ensures
        times(hits, word) <= hits.len(),
    decreases hits.len(),
{
    if hits.len() > 0 {
        lemma_times(hits.drop_last(), word);
    }
}

/// Every hit is counted: in all, and under the word as it is written.
pub proof fn every_hit_is_counted(hits: Seq<Seq<char>>, word: Seq<char>)
    requires
        hits.len() < usize::MAX,
    ensures
        bumped_by(no_counts(), hits).total == hits.len(),
        count_for(bumped_by(no_counts(), hits).entries, word) == times(hits, word),
    decreases hits.len(),
{
    if hits.len() > 0 {
        every_hit_is_counted(hits.drop_last(), word);
        every_hit_is_counted(hits.drop_last(), hits.last());
        lemma_times(hits.drop_last(), hits.last());
        lemma_counted(bumped_by(no_counts(), hits.drop_last()).entries, hits.last(), word);
    }
}

/// The counts are shown with the most first, and none is left out.
pub proof fn most_frequent_comes_first(entries: Seq<(Seq<char>, usize)>, i: int, j: int)
    requires
        0 <= i < j < entries.len(),
        usize::MAX <= u64::MAX,
    ensures
        by_count(entries).len() == entries.len(),
        by_count(entries)[i].1 >= by_count(entries)[j].1,
        by_count(entries).contains(entries[i]),
        by_count(entries).contains(entries[j]),
{
    let keys = crate::desensitize::engine::count_keys(entries);
    let o = stable_order(keys);
    order_is_stable_sort(keys);
    order_holds_every_position(keys, i);
    order_holds_every_position(keys, j);
    let a = choose|a: int| 0 <= a < o.len() && o[a] == i;
    let b = choose|b: int| 0 <= b < o.len() && o[b] == j;
    assert(by_count(entries)[a] == entries[i]);
    assert(by_count(entries)[b] == entries[j]);
    assert(crate::order::key_le(keys[o[i]], keys[o[j]]));
    assert(by_count(entries)[i] == entries[o[i]] && by_count(entries)[j] == entries[o[j]]);
}

// ─── Messages ────────────────────────────────────────────────

proof fn lemma_total(hits: Seq<Seq<char>>)
    ensures
        bumped_by(no_counts(), hits).total > 0 <==> hits.len() > 0,
    decreases hits.len(),
{
    if hits.len() > 0 {
        lemma_total(hits.drop_last());
    }
}

proof fn lemma_no_hits(
    terms: Seq<TermView>,
    roles: Seq<Seq<char>>,
    messages: Seq<Json>,
    n: nat,
    i: int,
)
    requires
        0 <= i < n <= messages.len(),
        messages_hits(terms, roles, messages, n).len() == 0,
    ensures
        message_hits(terms, roles, messages[i]).len() == 0,
    decreases n,
{
    if i < n - 1 {
        lemma_no_hits(terms, roles, messages, (n - 1) as nat, i);
    }
}

proof fn lemma_filled(candidates: Seq<Seq<char>>)
    ensures
        filled_terms(compiled_list(candidates)),
{
    let terms = clean(candidates);
    clean_is_clean(candidates);
    let keys = length_keys(terms);
    order_is_stable_sort(keys);
    let o = stable_order(keys);
    let list = compiled_list(candidates);
    assert forall|i: int| 0 <= i < list.len() implies (#[trigger] list[i]).units.len() > 0 by {
        assert(list[i] == compiled(terms[o[i]]));
        assert(terms[o[i]].len() > 0);
    }
}

proof fn lemma_body_words()
    ensures
        "messages"@.len() == 8,
        "content"@.len() == 7,
        "role"@.len() == 4,
        "text"@.len() == 4,
        "type"@.len() == 4,
        "role"@ != "text"@,
        "role"@ != "type"@,
        "text"@ != "type"@,
{
    reveal_strlit("messages");
    reveal_strlit("content");
    reveal_strlit("role");
    reveal_strlit("text");
    reveal_strlit("type");
    assert("role"@[0] != "text"@[0]);
    assert("role"@[0] != "type"@[0]);
    assert("text"@[1] != "type"@[1]);
}

/// A message of a role that is looked at leaves with its text split, as long as the service is
/// on; the messages keep their places.
pub proof fn looked_at_messages_are_split(
    s: ServiceView,
    body: Fields,
    messages: Seq<Json>,
    i: int,
    role: Seq<char>,
    text: Seq<char>,
)
    requires
        s.enabled,
        clean(s.terms).len() > 0,
        find(body, "messages"@) == Some(Json::Arr(messages)),
        0 <= i < messages.len(),
        part_of(messages[i], "role"@) == Json::Str(role),
        s.roles.contains(role),
        part_of(messages[i], "content"@) == Json::Str(text),
    ensures
        ({
            let after = part_of(processed(s, Json::Obj(body)), "messages"@)->Arr_0;
            &&& part_of(processed(s, Json::Obj(body)), "messages"@) is Arr
            &&& after.len() == messages.len()
            &&& part_of(after[i], "role"@) == Json::Str(role)
            &&& part_of(after[i], "content"@) == Json::Str(scrubbed(compiled_list(s.terms), text))
        }),
{
    broadcast use find_of_put;

    lemma_body_words();
    let b = Json::Obj(body);
    let terms = compiled_list(s.terms);
    lemma_filled(s.terms);
    splitting_adds_one_per_hit(terms, text);
    let all = body_hits(terms, s.roles, b);
    lemma_total(all);
    assert(looked_at(messages[i], s.roles));
    let m = message_scrubbed(terms, s.roles, messages[i]);
    if finds(s, b) {
        assert(messages_scrubbed(terms, s.roles, messages)[i] == m);
    } else {
        assert(all.len() == 0);
        lemma_no_hits(terms, s.roles, messages, messages.len(), i);
        assert(hits(terms, text).len() == 0);
    }
}

/// A text part of a message that is looked at is split; other parts stay.
pub proof fn text_parts_are_split(terms: Seq<TermView>, blocks: Seq<Json>, i: int, text: Seq<char>)
    requires
        0 <= i < blocks.len(),
    ensures
        ({
            let after = content_scrubbed(terms, Json::Arr(blocks))->Arr_0;
            &&& content_scrubbed(terms, Json::Arr(blocks)) is Arr
            &&& after.len() == blocks.len()
            &&& part_of(blocks[i], "type"@) == Json::Str("text"@) && part_of(blocks[i], "text"@)
                == Json::Str(text) ==> part_of(after[i], "text"@) == Json::Str(
                scrubbed(terms, text),
            ) && part_of(after[i], "type"@) == Json::Str("text"@)
            &&& part_of(blocks[i], "type"@) != Json::Str("text"@) ==> after[i] == blocks[i]
        }),
{
    broadcast use find_of_put;

    lemma_body_words();
    let after = content_scrubbed(terms, Json::Arr(blocks))->Arr_0;
    assert(after[i] == block_scrubbed(terms, blocks[i]));
}

/// Switched off, the service changes nothing.
pub proof fn switched_off_changes_nothing(s: ServiceView, body: Json)
    requires
        !s.enabled,
    ensures
        processed(s, body) == body,
{
}

// ─── Settings ────────────────────────────────────────────────

proof fn lemma_roles_among(items: Seq<Json>, candidates: Seq<Seq<char>>, role: Seq<char>)
    ensures
        roles_among(items, candidates).contains(role) <==> candidates.contains(role)
            && items.contains(Json::Str(role)),
        providers_among(items, candidates).contains(role) <==> candidates.contains(role)
            && items.contains(Json::Str(role)),
    decreases candidates.len(),
{
    if candidates.len() > 0 {
        let short = candidates.drop_last();
        lemma_roles_among(items, short, role);
        let before = roles_among(items, short);
        let all = roles_among(items, candidates);
        let before2 = providers_among(items, short);
        let all2 = providers_among(items, candidates);
        assert(candidates.contains(role) <==> short.contains(role) || candidates.last() == role) by {
            if candidates.contains(role) {
                let k = choose|k: int| 0 <= k < candidates.len() && candidates[k] == role;
                if k < short.len() {
                    assert(short[k] == role);
                }
            }
            if short.contains(role) {
                let k = choose|k: int| 0 <= k < short.len() && short[k] == role;
                assert(candidates[k] == role);
            }
            if candidates.last() == role {
                assert(candidates[candidates.len() - 1] == role);
            }
        }
        if items.contains(Json::Str(candidates.last())) {
            lemma_push_contains(before, candidates.last(), role);
            lemma_push_contains(before2, candidates.last(), role);
        }
    }
}

proof fn lemma_push_contains(list: Seq<Seq<char>>, last: Seq<char>, x: Seq<char>)
    ensures
        list.push(last).contains(x) <==> list.contains(x) || last == x,
{
    let all = list.push(last);
    if list.contains(x) {
        let k = choose|k: int| 0 <= k < list.len() && list[k] == x;
        assert(all[k] == x);
    }
    if last == x {
        assert(all[list.len() as int] == x);
    }
    if all.contains(x) && last != x {
        let k = choose|k: int| 0 <= k < all.len() && all[k] == x;
        assert(list[k] == x);
    }
}

/// A role is looked at exactly where the list names it and it is one that messages may have; where
/// the list names none, system and user messages are looked at.
pub proof fn named_roles_are_looked_at(items: Seq<Json>, role: Seq<char>)
    ensures
        ({
            let valid = role == "system"@ || role == "user"@ || role == "assistant"@ || role
                == "tool"@ || role == "developer"@;
            let r = chosen_roles(Some(Json::Arr(items)));
            &&& valid && items.contains(Json::Str(role)) ==> r.contains(role)
            &&& (exists|k: int|
                0 <= k < items.len() && valid_roles().contains(said(#[trigger] items[k]))
                    && items[k] is Str) && r.contains(role) ==> valid && items.contains(
                Json::Str(role),
            )
        }),
        chosen_roles(None) == seq!["system"@, "user"@],
{
    let v = valid_roles();
    assert(v[0] == "system"@ && v[1] == "user"@ && v[2] == "assistant"@ && v[3] == "tool"@ && v[4]
        == "developer"@);
    lemma_roles_among(items, v, role);
    if exists|k: int|
        0 <= k < items.len() && valid_roles().contains(said(#[trigger] items[k])) && items[k]
            is Str {
        let k = choose|k: int|
            0 <= k < items.len() && valid_roles().contains(said(#[trigger] items[k])) && items[k]
                is Str;
        lemma_roles_among(items, v, said(items[k]));
        assert(items.contains(Json::Str(said(items[k]))));
    }
}

/// A provider is dealt with exactly where the list names it and it is known.
pub proof fn named_providers_are_dealt_with(
    items: Seq<Json>,
    registry: Seq<Seq<char>>,
    provider: Seq<char>,
)
    requires
        registry.contains(provider),
        items.contains(Json::Str(provider)),
    ensures
        chosen_providers(Some(Json::Arr(items)), registry).contains(provider),
        forall|p: Seq<char>|
            #[trigger] chosen_providers(Some(Json::Arr(items)), registry).contains(p) ==> items.contains(
                Json::Str(p),
            ) && registry.contains(p),
{
    lemma_roles_among(items, registry, provider);
    assert forall|p: Seq<char>|
        #[trigger] chosen_providers(Some(Json::Arr(items)), registry).contains(p) implies items.contains(
        Json::Str(p),
    ) && registry.contains(p) by {
        lemma_roles_among(items, registry, p);
    }
}

/// Settings that were kept are taken up: whether the service is on, and the terms.
pub proof fn kept_settings_are_taken_up(s: ServiceView, doc: Json, on: bool)
    requires
        part_of(doc, "enabled"@) == Json::Bool(on),
    ensures
        ({
            let t = with_kept(s, persisted_in(doc));
            &&& t.enabled == on
            &&& part_of(doc, "terms"@) is Arr ==> t.terms == clean(
                texts_in(part_of(doc, "terms"@)->Arr_0),
            )
            &&& part_of(doc, "terms"@) == Json::Null ==> t.terms == s.terms
            &&& t.stats == s.stats
        }),
{
}

/// A list from afar is read: its version, and its terms.
pub proof fn remote_list_is_read(o: Fields, items: Seq<Json>, version: u32)
    requires
        find(o, "terms"@) == Some(Json::Arr(items)),
        find(o, "version"@) == Some(json_int(version as int)),
    ensures
        remote_in(Json::Obj(o)) is Ok,
        remote_in(Json::Obj(o))->Ok_0.version == version,
        remote_in(Json::Obj(o))->Ok_0.terms == clean(texts_in(items)),
        remote_in(Json::Arr(items)) is Ok,
        remote_in(Json::Arr(items))->Ok_0.version == 0,
        remote_in(Json::Arr(items))->Ok_0.terms == clean(texts_in(items)),
{
}

/// Among some values, the texts are taken in their order.
pub proof fn texts_are_taken_in_order(items: Seq<Json>, words: Seq<Seq<char>>)
    requires
        items.len() == words.len(),
        forall|i: int| 0 <= i < items.len() ==> #[trigger] items[i] == Json::Str(words[i]),
    ensures
        texts_in(items) == words,
    decreases items.len(),
{
    if items.len() > 0 {
        let a = items.drop_last();
        let b = words.drop_last();
        assert forall|i: int| 0 <= i < a.len() implies #[trigger] a[i] == Json::Str(b[i]) by {
            assert(a[i] == items[i]);
        }
        texts_are_taken_in_order(a, b);
        assert(items[items.len() - 1] == Json::Str(words[items.len() - 1]));
        assert(b.push(words.last()) =~= words);
    } else {
        assert(words =~= Seq::empty());
    }
}

proof fn lemma_stats_words()
    ensures
        "requests"@.len() == 8,
        "changedRequests"@.len() == 15,
        "totalHits"@.len() == 9,
        "topTerms"@.len() == 8,
        "enabled"@.len() == 7,
        "termCount"@.len() == 9,
        "roles"@.len() == 5,
        "providers"@.len() == 9,
        "requests"@ != "topTerms"@,
        "totalHits"@ != "termCount"@,
        "totalHits"@ != "providers"@,
        "termCount"@ != "providers"@,
{
    reveal_strlit("requests");
    reveal_strlit("changedRequests");
    reveal_strlit("totalHits");
    reveal_strlit("topTerms");
    reveal_strlit("enabled");
    reveal_strlit("termCount");
    reveal_strlit("roles");
    reveal_strlit("providers");
    assert("requests"@[0] != "topTerms"@[0]);
    assert("totalHits"@[1] != "termCount"@[1]);
    assert("totalHits"@[0] != "providers"@[0]);
    assert("termCount"@[0] != "providers"@[0]);
}

/// The statistics and the short state say what they are of.
pub proof fn state_is_told(s: ServiceView)
    ensures
        ({
            let t = stats_json(s.stats);
            let u = summary_json(s);
            &&& part_of(t, "requests"@) == json_int(s.stats.requests as int)
            &&& part_of(t, "changedRequests"@) == json_int(s.stats.changed as int)
            &&& part_of(t, "totalHits"@) == json_int(s.stats.hits as int)
            &&& part_of(u, "enabled"@) == Json::Bool(s.enabled)
            &&& part_of(u, "termCount"@) == json_int(s.terms.len() as int)
            &&& part_of(u, "roles"@) == json_words(s.roles)
            &&& part_of(u, "providers"@) == json_words(s.providers)
        }),
{
    lemma_stats_words();
    let o = stats_json(s.stats)->Obj_0;
    lemma_find_at(o, "requests"@, 0);
    lemma_find_at(o, "changedRequests"@, 1);
    lemma_find_at(o, "totalHits"@, 2);
    let p = summary_json(s)->Obj_0;
    lemma_find_at(p, "enabled"@, 0);
    lemma_find_at(p, "termCount"@, 1);
    lemma_find_at(p, "roles"@, 2);
    lemma_find_at(p, "providers"@, 3);
}

/// Every request is counted, one in which something was found as changed, with its hits.
pub proof fn requests_are_counted(s: ServiceView, body: Json)
    requires
        s.stats.requests < usize::MAX,
        s.stats.changed < usize::MAX,
        s.stats.hits + counts_in(s, body).total <= usize::MAX,
    ensures
        ({
            let t = after_processing(s, body);
            &&& t.stats.requests == s.stats.requests + 1
            &&& finds(s, body) ==> t.stats.changed == s.stats.changed + 1 && t.stats.hits
                == s.stats.hits + counts_in(s, body).total
            &&& !finds(s, body) ==> t.stats.changed == s.stats.changed && t.stats.hits
                == s.stats.hits && t.stats.terms == s.stats.terms
            &&& t.terms == s.terms
            &&& t.enabled == s.enabled
        }),
{
}

/// A later list from afar is merged, an earlier one only where it is asked for.
pub proof fn later_list_is_merged(s: ServiceView, r: RemoteView, own: u32, force: bool)
    requires
        s.version == crate::number::int_number(own as int),
    ensures
        r.version > own ==> synced(s, Some(r), force).terms == with_missing(s.terms, r.terms)
            && synced(s, Some(r), force).version == crate::number::int_number(r.version as int),
        r.version <= own && !force ==> synced(s, Some(r), force) == s,
        r.version <= own && force ==> synced(s, Some(r), force).terms == with_missing(
            s.terms,
            r.terms,
        ) && synced(s, Some(r), force).version == s.version,
        synced(s, None, force) == s,
{
    crate::number::small_integers_are_doubles(own as int);
    crate::number::small_integers_are_doubles(r.version as int);
}

/// The service starts switched on, with the default terms and roles and nothing counted.
pub proof fn service_starts_switched_on(registry: Seq<Seq<char>>, third: Seq<Seq<char>>, i: int)
    ensures
        ({
            let s = initial(registry, third);
            &&& s.enabled
            &&& s.roles == seq!["system"@, "user"@]
            &&& s.stats.requests == 0
            &&& s.stats.hits == 0
            &&& 0 <= i < third.len() ==> s.terms.contains(third[i])
        }),
{
    let s = initial(registry, third);
    if 0 <= i < third.len() {
        let n = crate::desensitize::service::plain_terms().len() as int;
        assert(s.terms[n + i] == third[i]);
    }
}

/// The outcome of a request says what the service found in it.
pub proof fn outcome_says_what_was_found(o: ProcessOutcome, s: ServiceView, body: Json)
    requires
        outcome_is(o, s, body),
    ensures
        o.changed == finds(s, body),
        finds(s, body) ==> o.hits == counts_in(s, body).total && o.hits > 0 && o.matched@.len()
            == counts_in(s, body).entries.len(),
        !finds(s, body) ==> o.hits == 0 && o.matched@.len() == 0 && o.term_counts@.len() == 0,
{
    let w = crate::words::words(o.matched@);
    assert(w.len() == o.matched@.len());
    let c = crate::desensitize::engine::counts_view(o.term_counts@);
    assert(c.len() == o.term_counts@.len());
}

/// What is told of a synchronisation: its time, the version from afar and how many terms came in;
/// where nothing could be fetched, why.
pub proof fn sync_is_told(s: ServiceView, r: RemoteView, e: Seq<char>, now: i64)
    ensures
        ({
            let t = sync_result(s, Ok(r), true, now);
            &&& t.last_sync_at == now
            &&& t.remote_version == r.version
            &&& t.added == missing_from(s.terms, r.terms).len()
        }),
        ({
            let t = sync_result(s, Err(e), true, now);
            &&& t.last_sync_at == now
            &&& t.added == 0
            &&& crate::text::ends(t.message, e)
        }),
{
    let t = sync_result(s, Err(e), true, now);
    assert(t.message.skip(t.message.len() - e.len()) =~= e);
}

/// The terms that later versions of the defaults added are those that come in.
pub proof fn later_defaults_come_in(version: u32, third: Seq<Seq<char>>, i: int)
    ensures
        ({
            let added = added_since(crate::number::int_number(version as int), third);
            &&& version < 3 && 0 <= i < third.len() ==> added.contains(third[i])
            &&& version < 2 ==> added.contains("Main branch (you will usually use this for PRs)"@)
            &&& version >= 3 ==> added.len() == 0
        }),
        chosen_providers(None, third) == seq!["workbuddy"@],
{
    crate::number::small_integers_are_doubles(version as int);
    crate::number::small_integers_are_doubles(2);
    crate::number::small_integers_are_doubles(3);
    let added = added_since(crate::number::int_number(version as int), third);
    if version < 2 {
        assert(added[0] == "Main branch (you will usually use this for PRs)"@);
        if 0 <= i < third.len() {
            assert(added[i + 1] == third[i]);
        }
    } else if version < 3 && 0 <= i < third.len() {
        assert(added[i] == third[i]);
    }
}

} // verus!
