//! The settings at work: which terms are split for which roles and providers, and how often.
use vstd::prelude::*;
use crate::desensitize::engine::{
    body_hits, body_scrubbed, bumped_by, by_count, chosen_roles, clean, compile_terms,
    compiled_list, counts_view, default_roles, desensitize_body, is_clean, listed, next_count,
    normalize_roles, normalize_terms, sorted_counts, with_term, Counter, CounterView, TermMatcher,
    DEFAULT_TERMS_VERSION,
};
use crate::desensitize::state::{
    json_words, kept_document, kept_document_is_readable, parse_state, persisted_in, state_value, words_value, PersistedState,
    PersistedView,
};
use crate::json::{
    field, gives, json_int, json_of_text, list_view, push_value, readable, render_json, seen,
    text_of_json, Json, JsonValue, Object,
};
use crate::js::plain_number;
use crate::number::{int_number, number_below, Number, NumberView};
use crate::text::{concat3, decimal, decimal_u64, js_trim, js_trimmed, lowered, same, to_lower};
use crate::words::words;

verus! {

/// How many terms the statistics show.
pub const TOP_TERMS: usize = 20;

// ─── Defaults ────────────────────────────────────────────────

/// The terms of the first two versions. Those of the third name products, and are handed in by
/// the application.
pub open spec fn plain_terms() -> Seq<Seq<char>> {
    seq![
        "DoS"@,
        "DDoS"@,
        "exploit"@,
        "credential testing"@,
        "credential stuffing"@,
        "supply chain compromise"@,
        "supply-chain compromise"@,
        "detection evasion"@,
        "C2 frameworks"@,
        "C2 framework"@,
        "command and control"@,
        "malicious purposes"@,
        "malicious intent"@,
        "mass targeting"@,
        "brute force"@,
        "brute-force"@,
        "privilege escalation"@,
        "reverse shell"@,
        "remote code execution"@,
        "SQL injection"@,
        "XSS"@,
        "CSRF"@,
        "phishing"@,
        "malware"@,
        "ransomware"@,
        "keylogger"@,
        "rootkit"@,
        "backdoor"@,
        "botnet"@,
        "zero-day"@,
        "0day"@,
        "Main branch (you will usually use this for PRs)"@,
    ]
}

/// All default terms, those of the third version last.
pub open spec fn default_terms(third: Seq<Seq<char>>) -> Seq<Seq<char>> {
    plain_terms() + third
}

/// [`default_terms`].
pub fn default_term_list(third: &Vec<String>) -> (out: Vec<String>)
    ensures
        words(out@) == default_terms(words(third@)),
{
    let names = vec![
        "DoS",
        "DDoS",
        "exploit",
        "credential testing",
        "credential stuffing",
        "supply chain compromise",
        "supply-chain compromise",
        "detection evasion",
        "C2 frameworks",
        "C2 framework",
        "command and control",
        "malicious purposes",
        "malicious intent",
        "mass targeting",
        "brute force",
        "brute-force",
        "privilege escalation",
        "reverse shell",
        "remote code execution",
        "SQL injection",
        "XSS",
        "CSRF",
        "phishing",
        "malware",
        "ransomware",
        "keylogger",
        "rootkit",
        "backdoor",
        "botnet",
        "zero-day",
        "0day",
        "Main branch (you will usually use this for PRs)",
    ];
    let plain = owned_words(&names);
    assert(words(plain@) =~= plain_terms());
    join_lists(&plain, third)
}

fn owned_words(names: &Vec<&str>) -> (out: Vec<String>)
    ensures
        words(out@) == names@.map_values(|s: &str| s@),
{
    let mut out: Vec<String> = Vec::new();
    let ghost all = names@.map_values(|s: &str| s@);
    assert(words(out@) =~= all.take(0));
    for i in 0..names.len()
        invariant
            all == names@.map_values(|s: &str| s@),
            words(out@) == all.take(i as int),
    {
        let ghost before = out@;
        out.push(names[i].to_owned());
        assert(words(out@) =~= words(before).push(out@.last()@));
        assert(all.take(i + 1) =~= all.take(i as int).push(all[i as int]));
    }
    assert(all.take(all.len() as int) =~= all);
    out
}

/// The terms that versions after `current` added.
pub open spec fn added_since(current: NumberView, third: Seq<Seq<char>>) -> Seq<Seq<char>> {
    let second = if number_below(current, 2) {
        seq!["Main branch (you will usually use this for PRs)"@]
    } else {
        Seq::empty()
    };
    if number_below(current, 3) {
        second + third
    } else {
        second
    }
}

/// The providers that are dealt with where nothing is said.
pub open spec fn default_scope() -> Seq<Seq<char>> {
    seq!["workbuddy"@]
}

/// [`default_scope`].
pub fn default_provider_scope() -> (out: Vec<String>)
    ensures
        words(out@) == default_scope(),
{
    let mut out: Vec<String> = Vec::new();
    out.push("workbuddy".to_owned());
    assert(words(out@) =~= default_scope());
    out
}

/// The providers of the registry that a list names, in the order of the registry.
pub open spec fn providers_among(items: Seq<Json>, registry: Seq<Seq<char>>) -> Seq<Seq<char>>
    decreases registry.len(),
{
    if registry.len() == 0 {
        Seq::empty()
    } else {
        let before = providers_among(items, registry.drop_last());
        if items.contains(Json::Str(registry.last())) {
            before.push(registry.last())
        } else {
            before
        }
    }
}

/// The providers to deal with: those of a list that are known, the default where none is.
pub open spec fn chosen_providers(input: Option<Json>, registry: Seq<Seq<char>>) -> Seq<Seq<char>> {
    match input {
        Some(Json::Arr(items)) => if providers_among(items, registry).len() > 0 {
            providers_among(items, registry)
        } else {
            default_scope()
        },
        _ => default_scope(),
    }
}

fn names_text(items: &Vec<JsonValue>, text: &str) -> (r: bool)
    ensures
        r == list_view(*items).contains(Json::Str(text@)),
{
    for i in 0..items.len()
        invariant
            forall|k: int| 0 <= k < i ==> #[trigger] list_view(*items)[k] != Json::Str(text@),
    {
        assert(list_view(*items)[i as int] == items@[i as int]@);
        if let JsonValue::Str(s) = &items[i] {
            if same(s.as_str(), text) {
                return true;
            }
        }
    }
    false
}

/// [`chosen_providers`].
pub fn normalize_providers(input: Option<&JsonValue>, registry: &Vec<String>) -> (out: Vec<String>)
    ensures
        words(out@) == chosen_providers(seen(input), words(registry@)),
{
    let items = match input {
        Some(JsonValue::Arr(items)) => items,
        _ => {
            return default_provider_scope();
        },
    };
    let ghost all = words(registry@);
    let mut out: Vec<String> = Vec::new();
    assert(words(out@) =~= providers_among(list_view(*items), all.take(0)));
    for i in 0..registry.len()
        invariant
            all == words(registry@),
            words(out@) == providers_among(list_view(*items), all.take(i as int)),
    {
        assert(all.take(i + 1).drop_last() =~= all.take(i as int));
        assert(all.take(i + 1).last() == registry@[i as int]@);
        if names_text(items, registry[i].as_str()) {
            let ghost before = out@;
            out.push(registry[i].clone());
            assert(words(out@) =~= words(before).push(out@.last()@));
        }
    }
    assert(all.take(all.len() as int) =~= all);
    assert(words(out@).len() == out@.len());
    if out.len() == 0 {
        return default_provider_scope();
    }
    out
}

// ─── Statistics ──────────────────────────────────────────────

/// What was found since the start.
pub struct Stats {
    pub requests: usize,
    pub changed_requests: usize,
    pub total_hits: usize,
    pub term_hits: Vec<(String, usize)>,
}

/// The plain value of [`Stats`].
pub struct StatsView {
    pub requests: usize,
    pub changed: usize,
    pub hits: usize,
    pub terms: Seq<(Seq<char>, usize)>,
}

impl View for Stats {
    type V = StatsView;

    open spec fn view(&self) -> StatsView {
        StatsView {
            requests: self.requests,
            changed: self.changed_requests,
            hits: self.total_hits,
            terms: counts_view(self.term_hits@),
        }
    }
}

/// The sum of two counts, up to the largest that there is.
pub open spec fn sum_count(a: usize, b: usize) -> usize {
    if a + b > usize::MAX {
        usize::MAX
    } else {
        (a + b) as usize
    }
}

fn add_counts(a: usize, b: usize) -> (r: usize)
    ensures
        r == sum_count(a, b),
{
    if a > usize::MAX - b {
        usize::MAX
    } else {
        a + b
    }
}

/// The counts with some more of a word. A new word comes last.
pub open spec fn counted_more(
    entries: Seq<(Seq<char>, usize)>,
    word: Seq<char>,
    count: usize,
) -> Seq<(Seq<char>, usize)>
    decreases entries.len(),
{
    if entries.len() == 0 {
        seq![(word, count)]
    } else if entries[0].0 == word {
        seq![(word, sum_count(entries[0].1, count))] + entries.drop_first()
    } else {
        seq![entries[0]] + counted_more(entries.drop_first(), word, count)
    }
}

pub open spec fn counts_merged(
    entries: Seq<(Seq<char>, usize)>,
    more: Seq<(Seq<char>, usize)>,
) -> Seq<(Seq<char>, usize)>
    decreases more.len(),
{
    if more.len() == 0 {
        entries
    } else {
        counted_more(counts_merged(entries, more.drop_last()), more.last().0, more.last().1)
    }
}

/// The statistics after a request in which nothing was found.
pub open spec fn with_request(s: StatsView) -> StatsView {
    StatsView { requests: next_count(s.requests), ..s }
}

/// The statistics after a request in which something was found.
pub open spec fn with_hits(s: StatsView, hits: usize, counts: Seq<(Seq<char>, usize)>) -> StatsView {
    StatsView {
        requests: next_count(s.requests),
        changed: next_count(s.changed),
        hits: sum_count(s.hits, hits),
        terms: counts_merged(s.terms, counts),
    }
}

pub open spec fn no_stats() -> StatsView {
    StatsView { requests: 0, changed: 0, hits: 0, terms: Seq::empty() }
}

/// The first `limit` counts of those with the most first.
pub open spec fn top_counts(terms: Seq<(Seq<char>, usize)>, limit: nat) -> Seq<(Seq<char>, usize)> {
    if by_count(terms).len() <= limit {
        by_count(terms)
    } else {
        by_count(terms).take(limit as int)
    }
}

pub open spec fn stats_json(s: StatsView) -> Json {
    Json::Obj(
        seq![
            ("requests"@, json_int(s.requests as int)),
            ("changedRequests"@, json_int(s.changed as int)),
            ("totalHits"@, json_int(s.hits as int)),
            (
                "topTerms"@,
                Json::Arr(
                    top_counts(s.terms, TOP_TERMS as nat).map_values(
                        |e: (Seq<char>, usize)| count_json(e),
                    ),
                ),
            ),
        ],
    )
}

pub open spec fn count_json(e: (Seq<char>, usize)) -> Json {
    Json::Obj(seq![("term"@, Json::Str(e.0)), ("count"@, json_int(e.1 as int))])
}

impl Stats {
    pub fn new() -> (out: Stats)
        ensures
            out@ == no_stats(),
    {
        let term_hits: Vec<(String, usize)> = Vec::new();
        assert(counts_view(term_hits@) =~= Seq::empty());
        Stats { requests: 0, changed_requests: 0, total_hits: 0, term_hits }
    }

    /// [`top_counts`].
    pub fn top(&self, limit: usize) -> (out: Vec<(String, usize)>)
        ensures
            counts_view(out@) == top_counts(self@.terms, limit as nat),
    {
        let mut out = sorted_counts(&self.term_hits);
        let ghost all = counts_view(out@);
        if out.len() > limit {
            out.truncate(limit);
            assert(counts_view(out@) =~= all.take(limit as int));
        }
        out
    }

    /// [`stats_json`].
    pub fn snapshot(&self) -> (out: JsonValue)
        ensures
            out@ == stats_json(self@),
    {
        let top = self.top(TOP_TERMS);
        let ghost all = counts_view(top@).map_values(|e: (Seq<char>, usize)| count_json(e));
        let mut items: Vec<JsonValue> = Vec::new();
        assert(list_view(items) =~= all.take(0));
        for i in 0..top.len()
            invariant
                all == counts_view(top@).map_values(|e: (Seq<char>, usize)| count_json(e)),
                list_view(items) == all.take(i as int),
        {
            let mut o = Object::new();
            o.push("term", JsonValue::text(top[i].0.as_str()));
            o.push("count", JsonValue::natural(top[i].1 as u64));
            assert(o@ =~= count_json((top@[i as int].0@, top@[i as int].1))->Obj_0);
            push_value(&mut items, JsonValue::Obj(o));
            assert(list_view(items) =~= all.take(i + 1));
        }
        assert(all.take(all.len() as int) =~= all);
        let mut o = Object::new();
        o.push("requests", JsonValue::natural(self.requests as u64));
        o.push("changedRequests", JsonValue::natural(self.changed_requests as u64));
        o.push("totalHits", JsonValue::natural(self.total_hits as u64));
        o.push("topTerms", JsonValue::Arr(items));
        assert(o@ =~= stats_json(self@)->Obj_0);
        JsonValue::Obj(o)
    }

    fn add(&mut self, word: &str, count: usize)
        ensures
            final(self)@ == (StatsView {
                terms: counted_more(old(self)@.terms, word@, count),
                ..old(self)@
            }),
    {
        let ghost all = counts_view(self.term_hits@);
        let ghost start = self@;
        let mut i: usize = 0;
        assert(all.skip(0) =~= all);
        assert(counted_more(all, word@, count) =~= all.take(0) + counted_more(
            all.skip(0),
            word@,
            count,
        ));
        while i < self.term_hits.len()
            invariant
                i <= self.term_hits@.len(),
                self@ == start,
                start == old(self)@,
                all == counts_view(self.term_hits@),
                all == start.terms,
                counted_more(all, word@, count) == all.take(i as int) + counted_more(
                    all.skip(i as int),
                    word@,
                    count,
                ),
            decreases self.term_hits@.len() - i,
        {
            assert(all.skip(i as int)[0] == (self.term_hits@[i as int].0@, self.term_hits@[i as int].1));
            assert(all.skip(i as int).drop_first() =~= all.skip(i + 1));
            if same(self.term_hits[i].0.as_str(), word) {
                let next: usize = add_counts(self.term_hits[i].1, count);
                self.term_hits.set(i, (word.to_owned(), next));
                assert(counts_view(self.term_hits@) =~= all.take(i as int) + (seq![(word@, next)]
                    + all.skip(i + 1)));
                return ;
            }
            assert(all.take(i as int) + (seq![all[i as int]] + counted_more(
                all.skip(i + 1),
                word@,
                count,
            )) =~= all.take(i + 1) + counted_more(all.skip(i + 1), word@, count));
            i = i + 1;
        }
        assert(all.skip(i as int) =~= Seq::empty());
        self.term_hits.push((word.to_owned(), count));
        assert(counts_view(self.term_hits@) =~= all.take(i as int) + seq![(word@, count)]);
    }

    /// [`with_request`].
    pub fn record_request(&mut self)
        ensures
            final(self)@ == with_request(old(self)@),
    {
        self.requests = if self.requests == usize::MAX { usize::MAX } else { self.requests + 1 };
    }

    /// [`with_hits`].
    pub fn record(&mut self, hits: usize, counts: &Vec<(String, usize)>)
        ensures
            final(self)@ == with_hits(old(self)@, hits, counts_view(counts@)),
    {
        self.requests = if self.requests == usize::MAX { usize::MAX } else { self.requests + 1 };
        self.changed_requests = if self.changed_requests == usize::MAX {
            usize::MAX
        } else {
            self.changed_requests + 1
        };
        self.total_hits = add_counts(self.total_hits, hits);
        let ghost start = self@;
        let ghost all = counts_view(counts@);
        assert(all.take(0) =~= Seq::empty());
        for i in 0..counts.len()
            invariant
                all == counts_view(counts@),
                self@ == (StatsView {
                    terms: counts_merged(start.terms, all.take(i as int)),
                    ..start
                }),
        {
            assert(all.take(i + 1).drop_last() =~= all.take(i as int));
            assert(all.take(i + 1).last() == (counts@[i as int].0@, counts@[i as int].1));
            self.add(counts[i].0.as_str(), counts[i].1);
        }
        assert(all.take(all.len() as int) =~= all);
    }
}

// ─── The service ─────────────────────────────────────────────

/// The settings, the matcher made from them, and the statistics.
pub struct Desensitizer {
    pub enabled: bool,
    pub terms: Vec<String>,
    pub roles: Vec<String>,
    pub providers: Vec<String>,
    pub matcher: Option<TermMatcher>,
    pub defaults_version: Number,
    pub stats: Stats,
    pub registry: Vec<String>,
    /// The default terms of the third version.
    pub third: Vec<String>,
}

/// The plain value of a [`Desensitizer`].
pub struct ServiceView {
    pub enabled: bool,
    pub terms: Seq<Seq<char>>,
    pub roles: Seq<Seq<char>>,
    pub providers: Seq<Seq<char>>,
    pub version: NumberView,
    pub stats: StatsView,
    pub registry: Seq<Seq<char>>,
    pub third: Seq<Seq<char>>,
}

impl View for Desensitizer {
    type V = ServiceView;

    open spec fn view(&self) -> ServiceView {
        ServiceView {
            enabled: self.enabled,
            terms: words(self.terms@),
            roles: words(self.roles@),
            providers: words(self.providers@),
            version: self.defaults_version@,
            stats: self.stats@,
            registry: words(self.registry@),
            third: words(self.third@),
        }
    }
}

/// The matcher is that of the terms.
pub open spec fn matcher_of(matcher: Option<TermMatcher>, terms: Seq<Seq<char>>) -> bool {
    match matcher {
        Some(m) => m.wf() && m@ == compiled_list(terms) && m@.len() > 0,
        None => clean(terms).len() == 0,
    }
}

/// What the service starts with.
pub open spec fn initial(registry: Seq<Seq<char>>, third: Seq<Seq<char>>) -> ServiceView {
    ServiceView {
        enabled: true,
        terms: default_terms(third),
        roles: default_roles(),
        providers: default_scope(),
        version: int_number(DEFAULT_TERMS_VERSION as int),
        stats: no_stats(),
        registry,
        third,
    }
}

/// The settings that were kept. What was not kept stays as it is, but for roles and providers,
/// which then are the default ones.
pub open spec fn with_kept(s: ServiceView, p: PersistedView) -> ServiceView {
    ServiceView {
        enabled: match p.enabled {
            Some(b) => b,
            None => s.enabled,
        },
        terms: match p.terms {
            Some(t) => t,
            None => s.terms,
        },
        roles: chosen_roles(p.roles),
        providers: chosen_providers(p.providers, s.registry),
        version: p.version,
        ..s
    }
}

/// The terms of a list that another does not have, each once, but for case.
pub open spec fn missing_from(known: Seq<Seq<char>>, candidates: Seq<Seq<char>>) -> Seq<Seq<char>>
    decreases candidates.len(),
{
    if candidates.len() == 0 {
        Seq::empty()
    } else {
        let before = missing_from(known, candidates.drop_last());
        if listed(known, candidates.last()) || listed(before, candidates.last()) {
            before
        } else {
            before.push(candidates.last())
        }
    }
}

/// The terms with those of a list that are missing, at the end.
pub open spec fn with_missing(terms: Seq<Seq<char>>, candidates: Seq<Seq<char>>) -> Seq<Seq<char>> {
    clean(terms + missing_from(terms, candidates))
}

/// The settings with the terms that later versions of the defaults added. What was deleted of
/// earlier versions is not brought back.
pub open spec fn with_migrations(s: ServiceView) -> ServiceView {
    if number_below(s.version, 3) {
        ServiceView {
            terms: with_missing(s.terms, added_since(s.version, s.third)),
            version: int_number(DEFAULT_TERMS_VERSION as int),
            ..s
        }
    } else {
        s
    }
}

/// Migrating twice is migrating once.
pub proof fn migration_happens_once(s: ServiceView)
    ensures
        with_migrations(with_migrations(s)) == with_migrations(s),
{
    crate::number::small_integers_are_doubles(3);
}

proof fn lemma_clean_prefix(terms: Seq<Seq<char>>, more: Seq<Seq<char>>)
    requires
        is_clean(terms),
    ensures
        clean(terms + more).len() >= terms.len(),
        clean(terms + more).take(terms.len() as int) == terms,
    decreases more.len(),
{
    if more.len() == 0 {
        assert(terms + more =~= terms);
        crate::desensitize::engine::clean_keeps_clean(terms);
        assert(terms.take(terms.len() as int) =~= terms);
    } else {
        lemma_clean_prefix(terms, more.drop_last());
        assert((terms + more).drop_last() =~= terms + more.drop_last());
        let before = clean(terms + more.drop_last());
        let n = terms.len() as int;
        assert(clean(terms + more) == with_term(before, more.last())) by {
            assert((terms + more).last() == more.last());
        }
        assert(clean(terms + more).take(n) =~= before.take(n));
    }
}

/// Adding terms loses none of those that were there.
pub proof fn adding_keeps_terms(terms: Seq<Seq<char>>, more: Seq<Seq<char>>)
    requires
        is_clean(terms),
    ensures
        clean(terms + more).len() >= terms.len(),
        clean(terms + more).take(terms.len() as int) == terms,
        with_missing(terms, more).len() >= terms.len(),
        with_missing(terms, more).take(terms.len() as int) == terms,
{
    lemma_clean_prefix(terms, more);
    lemma_clean_prefix(terms, missing_from(terms, more));
}

/// The terms that a list does not name, but for case and blanks around them.
pub open spec fn terms_without(terms: Seq<Seq<char>>, named: Seq<Seq<char>>) -> Seq<Seq<char>>
    decreases terms.len(),
{
    if terms.len() == 0 {
        Seq::empty()
    } else {
        let before = terms_without(terms.drop_last(), named);
        if names_term(named, terms.last()) {
            before
        } else {
            before.push(terms.last())
        }
    }
}

pub open spec fn names_term(named: Seq<Seq<char>>, term: Seq<char>) -> bool {
    exists|i: int|
        0 <= i < named.len() && lowered(js_trimmed(#[trigger] named[i])) == lowered(term)
}

proof fn lemma_terms_without(terms: Seq<Seq<char>>, named: Seq<Seq<char>>, i: int)
    requires
        0 <= i < terms_without(terms, named).len(),
    ensures
        !names_term(named, terms_without(terms, named)[i]),
    decreases terms.len(),
{
    let before = terms_without(terms.drop_last(), named);
    if i < before.len() {
        lemma_terms_without(terms.drop_last(), named, i);
    }
}

proof fn lemma_clean_from(candidates: Seq<Seq<char>>, i: int)
    requires
        0 <= i < clean(candidates).len(),
    ensures
        exists|k: int|
            0 <= k < candidates.len() && js_trimmed(#[trigger] candidates[k]) == clean(candidates)[i],
    decreases candidates.len(),
{
    let short = candidates.drop_last();
    if i < clean(short).len() {
        lemma_clean_from(short, i);
        let k = choose|k: int| 0 <= k < short.len() && js_trimmed(#[trigger] short[k]) == clean(short)[i];
        assert(candidates[k] == short[k]);
    } else {
        assert(js_trimmed(candidates[candidates.len() - 1]) == clean(candidates)[i]);
    }
}

/// A term that was removed is not listed any more, whatever its case.
pub proof fn removed_terms_are_gone(terms: Seq<Seq<char>>, named: Seq<Seq<char>>, i: int)
    requires
        is_clean(terms),
        0 <= i < clean(terms_without(terms, named)).len(),
    ensures
        !names_term(named, clean(terms_without(terms, named))[i]),
{
    let kept = terms_without(terms, named);
    lemma_clean_from(kept, i);
    let k = choose|k: int|
        0 <= k < kept.len() && js_trimmed(#[trigger] kept[k]) == clean(kept)[i];
    lemma_terms_without(terms, named, k);
    lemma_kept_from(terms, named, k);
    let j = choose|j: int| 0 <= j < terms.len() && terms[j] == kept[k];
    assert(js_trimmed(terms[j]) == terms[j]);
}

proof fn lemma_kept_from(terms: Seq<Seq<char>>, named: Seq<Seq<char>>, i: int)
    requires
        0 <= i < terms_without(terms, named).len(),
    ensures
        terms.contains(terms_without(terms, named)[i]),
    decreases terms.len(),
{
    let short = terms.drop_last();
    let before = terms_without(short, named);
    let r = terms_without(terms, named);
    if i < before.len() {
        lemma_kept_from(short, named, i);
        let k = choose|k: int| 0 <= k < short.len() && short[k] == before[i];
        assert(terms[k] == r[i]);
    } else {
        assert(terms[terms.len() - 1] == r[i]);
    }
}

/// What the processing of one body gives.
pub struct ProcessOutcome {
    pub changed: bool,
    pub hits: usize,
    pub matched: Vec<String>,
    pub term_counts: Vec<(String, usize)>,
}

/// A processed body, and what was found in it.
pub struct ProcessedBody {
    pub body: JsonValue,
    pub term_counts: Vec<(String, usize)>,
}

pub open spec fn no_counts() -> CounterView {
    CounterView { total: 0, entries: Seq::empty() }
}

/// What is counted in a body.
pub open spec fn counts_in(s: ServiceView, body: Json) -> CounterView {
    bumped_by(no_counts(), body_hits(compiled_list(s.terms), s.roles, body))
}

/// The body is looked at: the service is on, there are terms, and there are messages.
pub open spec fn looks_at(s: ServiceView, body: Json) -> bool {
    s.enabled && clean(s.terms).len() > 0 && field(body, "messages"@) is Some
}

/// Something is found in the body.
pub open spec fn finds(s: ServiceView, body: Json) -> bool {
    looks_at(s, body) && counts_in(s, body).total > 0
}

/// The body after processing.
pub open spec fn processed(s: ServiceView, body: Json) -> Json {
    if finds(s, body) {
        match body_scrubbed(compiled_list(s.terms), s.roles, body) {
            Some(next) => next,
            None => body,
        }
    } else {
        body
    }
}

/// The service after processing: only its statistics change.
pub open spec fn after_processing(s: ServiceView, body: Json) -> ServiceView {
    ServiceView {
        stats: if finds(s, body) {
            with_hits(s.stats, counts_in(s, body).total, by_count(counts_in(s, body).entries))
        } else {
            with_request(s.stats)
        },
        ..s
    }
}

/// The outcome says what was found.
pub open spec fn outcome_is(o: ProcessOutcome, s: ServiceView, body: Json) -> bool {
    let c = counts_in(s, body);
    &&& o.changed == finds(s, body)
    &&& o.hits == if finds(s, body) {
        c.total
    } else {
        0
    }
    &&& words(o.matched@) == if finds(s, body) {
        c.entries.map_values(|e: (Seq<char>, usize)| e.0)
    } else {
        Seq::empty()
    }
    &&& counts_view(o.term_counts@) == if finds(s, body) {
        by_count(c.entries)
    } else {
        Seq::empty()
    }
}

/// The line of the log for what was found.
pub open spec fn hit_line(hits: usize, counts: Seq<(Seq<char>, usize)>) -> Seq<char> {
    "已脱敏命中 "@ + decimal(hits as int) + " 处："@ + counts_text(counts)
}

pub open spec fn counts_text(counts: Seq<(Seq<char>, usize)>) -> Seq<char>
    decreases counts.len(),
{
    if counts.len() == 0 {
        Seq::empty()
    } else {
        let e = counts.last();
        let one = e.0 + "×"@ + decimal(e.1 as int);
        if counts.len() == 1 {
            one
        } else {
            counts_text(counts.drop_last()) + "、"@ + one
        }
    }
}

/// [`hit_line`].
pub fn hit_log_line(outcome: &ProcessOutcome) -> (out: String)
    ensures
        out@ == hit_line(outcome.hits, counts_view(outcome.term_counts@)),
{
    let counts = &outcome.term_counts;
    let ghost all = counts_view(counts@);
    let mut text = String::new();
    assert(text@ =~= counts_text(all.take(0)));
    for i in 0..counts.len()
        invariant
            all == counts_view(counts@),
            text@ == counts_text(all.take(i as int)),
    {
        assert(all.take(i + 1).drop_last() =~= all.take(i as int));
        assert(all.take(i + 1).last() == (counts@[i as int].0@, counts@[i as int].1));
        let one = concat3(counts[i].0.as_str(), "×", decimal_u64(counts[i].1 as u64).as_str());
        if i == 0 {
            text = one;
        } else {
            text.append("、");
            text.append(one.as_str());
        }
    }
    assert(all.take(all.len() as int) =~= all);
    let mut line = concat3("已脱敏命中 ", decimal_u64(outcome.hits as u64).as_str(), " 处：");
    line.append(text.as_str());
    line
}

fn lists_word(items: &Vec<String>, key: &str, ghost_terms: Ghost<Seq<Seq<char>>>) -> (r: bool)
    requires
        items@.len() == ghost_terms@.len(),
        forall|i: int|
            0 <= i < items@.len() ==> (#[trigger] items@[i])@ == lowered(ghost_terms@[i]),
    ensures
        r == exists|i: int|
            0 <= i < ghost_terms@.len() && lowered(#[trigger] ghost_terms@[i]) == key@,
{
    for i in 0..items.len()
        invariant
            items@.len() == ghost_terms@.len(),
            forall|k: int|
                0 <= k < items@.len() ==> (#[trigger] items@[k])@ == lowered(ghost_terms@[k]),
            forall|k: int| 0 <= k < i ==> lowered(#[trigger] ghost_terms@[k]) != key@,
    {
        assert(items@[i as int]@ == lowered(ghost_terms@[i as int]));
        if same(items[i].as_str(), key) {
            return true;
        }
    }
    false
}

fn lower_all(terms: &Vec<String>) -> (out: Vec<String>)
    ensures
        out@.len() == terms@.len(),
        forall|i: int| 0 <= i < out@.len() ==> (#[trigger] out@[i])@ == lowered(words(terms@)[i]),
{
    let mut out: Vec<String> = Vec::new();
    for i in 0..terms.len()
        invariant
            out@.len() == i,
            forall|k: int| 0 <= k < i ==> (#[trigger] out@[k])@ == lowered(words(terms@)[k]),
    {
        out.push(to_lower(terms[i].as_str()));
    }
    out
}

/// [`missing_from`].
pub fn missing_terms(known: &Vec<String>, candidates: &Vec<String>) -> (out: Vec<String>)
    ensures
        words(out@) == missing_from(words(known@), words(candidates@)),
{
    let ghost have = words(known@);
    let ghost all = words(candidates@);
    let known_keys = lower_all(known);
    let mut keys: Vec<String> = Vec::new();
    let mut out: Vec<String> = Vec::new();
    assert(words(out@) =~= missing_from(have, all.take(0)));
    for n in 0..candidates.len()
        invariant
            have == words(known@),
            all == words(candidates@),
            known_keys@.len() == have.len(),
            forall|i: int|
                0 <= i < known_keys@.len() ==> (#[trigger] known_keys@[i])@ == lowered(have[i]),
            words(out@) == missing_from(have, all.take(n as int)),
            keys@.len() == out@.len(),
            forall|i: int| 0 <= i < keys@.len() ==> (#[trigger] keys@[i])@ == lowered(words(out@)[i]),
    {
        assert(all.take(n + 1).drop_last() =~= all.take(n as int));
        assert(all.take(n + 1).last() == candidates@[n as int]@);
        let key = to_lower(candidates[n].as_str());
        assert(words(out@).len() == out@.len());
        if !lists_word(&known_keys, key.as_str(), Ghost(have)) && !lists_word(
            &keys,
            key.as_str(),
            Ghost(words(out@)),
        ) {
            let ghost before = out@;
            let ghost keys_before = keys@;
            keys.push(key);
            out.push(candidates[n].clone());
            assert(words(out@) =~= words(before).push(out@.last()@));
            assert forall|i: int| 0 <= i < keys@.len() implies (#[trigger] keys@[i])@ == lowered(
                words(out@)[i],
            ) by {
                if i < keys_before.len() {
                    assert(keys@[i] == keys_before[i]);
                }
            }
        }
    }
    assert(all.take(all.len() as int) =~= all);
    out
}

fn join_lists(a: &Vec<String>, b: &Vec<String>) -> (out: Vec<String>)
    ensures
        words(out@) == words(a@) + words(b@),
{
    let ghost all = words(a@) + words(b@);
    let mut out: Vec<String> = Vec::new();
    assert(words(out@) =~= all.take(0));
    for i in 0..a.len()
        invariant
            all == words(a@) + words(b@),
            words(out@) == all.take(i as int),
    {
        let ghost before = out@;
        out.push(a[i].clone());
        assert(words(out@) =~= words(before).push(out@.last()@));
        assert(all.take(i + 1) =~= all.take(i as int).push(all[i as int]));
    }
    for i in 0..b.len()
        invariant
            all == words(a@) + words(b@),
            words(out@) == all.take(a@.len() + i),
    {
        let ghost before = out@;
        out.push(b[i].clone());
        assert(words(out@) =~= words(before).push(out@.last()@));
        assert(all.take(a@.len() + i + 1) =~= all.take(a@.len() + i).push(all[a@.len() + i]));
    }
    assert(all.take(all.len() as int) =~= all);
    out
}

fn dup_words(v: &Vec<String>) -> (out: Vec<String>)
    ensures
        words(out@) == words(v@),
{
    let none: Vec<String> = Vec::new();
    let out = join_lists(v, &none);
    assert(words(none@) =~= Seq::empty());
    assert(words(v@) + Seq::empty() =~= words(v@));
    out
}

/// The full state, with the place where it is kept.
pub open spec fn state_json(s: ServiceView, file: Seq<char>) -> Json {
    Json::Obj(
        seq![
            ("enabled"@, Json::Bool(s.enabled)),
            ("terms"@, json_words(s.terms)),
            ("roles"@, json_words(s.roles)),
            ("providers"@, json_words(s.providers)),
            ("termCount"@, json_int(s.terms.len() as int)),
            (
                "defaults"@,
                Json::Obj(
                    seq![
                        ("enabled"@, Json::Bool(true)),
                        ("terms"@, json_words(default_terms(s.third))),
                        ("roles"@, json_words(default_roles())),
                        ("providers"@, json_words(default_scope())),
                        ("version"@, json_int(DEFAULT_TERMS_VERSION as int)),
                    ],
                ),
            ),
            ("file"@, Json::Str(file)),
            ("stats"@, stats_json(s.stats)),
        ],
    )
}

/// The state in short.
pub open spec fn summary_json(s: ServiceView) -> Json {
    Json::Obj(
        seq![
            ("enabled"@, Json::Bool(s.enabled)),
            ("termCount"@, json_int(s.terms.len() as int)),
            ("roles"@, json_words(s.roles)),
            ("providers"@, json_words(s.providers)),
        ],
    )
}

fn default_role_words() -> (out: Vec<String>)
    ensures
        words(out@) == default_roles(),
{
    normalize_roles(None)
}

impl Desensitizer {
    /// The matcher is that of the terms.
    pub open spec fn wf(&self) -> bool {
        matcher_of(self.matcher, self@.terms)
    }

    /// [`initial`].
    pub fn new(registry: &Vec<String>, third: &Vec<String>) -> (out: Desensitizer)
        ensures
            out.wf(),
            out@ == initial(words(registry@), words(third@)),
    {
        let terms = default_term_list(third);
        let matcher = compile_terms(&terms);
        proof {
            lemma_matcher(matcher, words(terms@));
        }
        Desensitizer {
            enabled: true,
            terms,
            roles: default_role_words(),
            providers: default_provider_scope(),
            matcher,
            defaults_version: Number::from_i64(3),
            stats: Stats::new(),
            registry: dup_words(registry),
            third: dup_words(third),
        }
    }

    /// Takes over the settings that were kept, and brings the default terms up to date. Says
    /// whether the settings have to be kept anew.
    pub fn load(&mut self, text: &str) -> (r: Result<bool, String>)
        requires
            old(self).wf(),
        ensures
            final(self).wf(),
            match json_of_text(text@) {
                Ok(doc) => {
                    let s = with_kept(old(self)@, persisted_in(doc));
                    &&& r is Ok
                    &&& r->Ok_0 == number_below(s.version, 3)
                    &&& final(self)@ == with_migrations(s)
                },
                Err(e) => r is Err && r->Err_0@ == e && final(self)@ == old(self)@,
            },
    {
        let kept = match parse_state(text) {
            Ok(kept) => kept,
            Err(e) => {
                return Err(e);
            },
        };
        self.apply_state(kept);
        Ok(self.migrate_defaults())
    }

    /// [`with_kept`].
    pub fn apply_state(&mut self, kept: PersistedState)
        requires
            old(self).wf(),
        ensures
            final(self).wf(),
            final(self)@ == with_kept(old(self)@, kept@),
    {
        let ghost before = self@;
        let ghost p = kept@;
        if let Some(flag) = kept.enabled {
            self.enabled = flag;
        }
        self.roles = normalize_roles(kept.roles.as_ref());
        self.providers = normalize_providers(kept.providers.as_ref(), &self.registry);
        self.defaults_version = kept.defaults_version;
        if let Some(terms) = kept.terms {
            self.terms = terms;
        }
        self.rebuild();
        assert(self@ == with_kept(before, p));
    }

    fn rebuild(&mut self)
        ensures
            final(self).wf(),
            final(self)@ == old(self)@,
    {
        self.matcher = compile_terms(&self.terms);
        proof {
            lemma_matcher(self.matcher, words(self.terms@));
        }
    }

    /// [`with_migrations`]; says whether anything had to be done.
    pub fn migrate_defaults(&mut self) -> (r: bool)
        requires
            old(self).wf(),
        ensures
            final(self).wf(),
            r == number_below(old(self)@.version, 3),
            final(self)@ == with_migrations(old(self)@),
    {
        if !self.defaults_version.below(3) {
            return false;
        }
        let mut names: Vec<&str> = Vec::new();
        let ghost v = self@.version;
        if self.defaults_version.below(2) {
            names.push("Main branch (you will usually use this for PRs)");
        }
        let second = owned_words(&names);
        let candidates = join_lists(&second, &self.third);
        assert(words(candidates@) =~= added_since(v, words(self.third@)));
        let added = missing_terms(&self.terms, &candidates);
        let merged = join_lists(&self.terms, &added);
        self.terms = normalize_terms(&merged);
        self.defaults_version = Number::from_i64(3);
        self.rebuild();
        true
    }

    /// The text that is kept. It denotes what is kept, where the version can be read.
    pub fn saved_text(&self) -> (out: String)
        ensures
            ({
                let doc = kept_document(
                    self@.enabled,
                    self@.terms,
                    self@.roles,
                    self@.providers,
                    self@.version,
                );
                &&& out@ == text_of_json(doc)
                &&& readable(plain_number(self@.version), 0) ==> gives(out@, doc)
            }),
    {
        proof {
            if readable(plain_number(self@.version), 0) {
                kept_document_is_readable(
                    self@.enabled,
                    self@.terms,
                    self@.roles,
                    self@.providers,
                    self@.version,
                );
            }
        }
        render_json(
            &state_value(
                self.enabled,
                &self.terms,
                &self.roles,
                &self.providers,
                &self.defaults_version,
            ),
        )
    }

    /// Splits what is found in a body, and counts it.
    pub fn process_body(&mut self, body: &mut JsonValue) -> (out: ProcessOutcome)
        requires
            old(self).wf(),
        ensures
            final(self).wf(),
            final(self)@ == after_processing(old(self)@, old(body)@),
            final(body)@ == processed(old(self)@, old(body)@),
            outcome_is(out, old(self)@, old(body)@),
    {
        let ghost s = self@;
        let ghost b = body@;
        let none: Vec<(String, usize)> = Vec::new();
        let no_words: Vec<String> = Vec::new();
        assert(counts_view(none@) =~= Seq::empty());
        assert(words(no_words@) =~= Seq::empty());
        let unchanged = ProcessOutcome {
            changed: false,
            hits: 0,
            matched: no_words,
            term_counts: none,
        };
        proof {
            lemma_tried_len(s.terms);
        }
        if !self.enabled || self.matcher.is_none() || body.get("messages").is_none() {
            self.stats.record_request();
            return unchanged;
        }
        let mut counter = Counter::new();
        let next = desensitize_body(body, self.matcher.as_ref(), &self.roles, &mut counter);
        if counter.total == 0 {
            self.stats.record_request();
            return unchanged;
        }
        let term_counts = counter.term_counts();
        let matched = counter.matched_terms();
        if let Some(next) = next {
            *body = next;
        }
        let hits = counter.total;
        self.stats.record(hits, &term_counts);
        ProcessOutcome { changed: true, hits, matched, term_counts }
    }

    /// Processes a copy of a body for a provider that is in the scope; does nothing and counts
    /// nothing for one that is not.
    pub fn process_body_for_provider(
        &mut self,
        provider_id: &str,
        scope: &Vec<String>,
        body: &JsonValue,
    ) -> (r: Option<ProcessedBody>)
        requires
            old(self).wf(),
        ensures
            final(self).wf(),
            if words(scope@).contains(provider_id@) {
                &&& final(self)@ == after_processing(old(self)@, body@)
                &&& r is Some
                &&& r->0.body@ == processed(old(self)@, body@)
                &&& counts_view(r->0.term_counts@) == if finds(old(self)@, body@) {
                    by_count(counts_in(old(self)@, body@).entries)
                } else {
                    Seq::empty()
                }
            } else {
                r is None && final(self)@ == old(self)@
            },
    {
        let mut named = false;
        for i in 0..scope.len()
            invariant
                named == exists|k: int| 0 <= k < i && #[trigger] words(scope@)[k] == provider_id@,
        {
            assert(words(scope@)[i as int] == scope@[i as int]@);
            if same(scope[i].as_str(), provider_id) {
                named = true;
            }
        }
        if !named {
            return None;
        }
        let mut copy = body.dup();
        let outcome = self.process_body(&mut copy);
        Some(ProcessedBody { body: copy, term_counts: outcome.term_counts })
    }

    /// [`state_json`].
    pub fn state(&self, file: &str) -> (out: JsonValue)
        ensures
            out@ == state_json(self@, file@),
    {
        let ghost made = state_json(self@, file@)->Obj_0;
        let mut d = Object::new();
        d.push("enabled", JsonValue::Bool(true));
        d.push("terms", words_value(&default_term_list(&self.third)));
        d.push("roles", words_value(&default_role_words()));
        d.push("providers", words_value(&default_provider_scope()));
        d.push("version", JsonValue::integer(3));
        assert(d@ =~= made[5].1->Obj_0);
        let mut o = Object::new();
        o.push("enabled", JsonValue::Bool(self.enabled));
        o.push("terms", words_value(&self.terms));
        o.push("roles", words_value(&self.roles));
        o.push("providers", words_value(&self.providers));
        o.push("termCount", JsonValue::natural(self.terms.len() as u64));
        o.push("defaults", JsonValue::Obj(d));
        o.push("file", JsonValue::text(file));
        o.push("stats", self.stats.snapshot());
        assert(o@ =~= made);
        JsonValue::Obj(o)
    }

    /// [`summary_json`].
    pub fn summary(&self) -> (out: JsonValue)
        ensures
            out@ == summary_json(self@),
    {
        let mut o = Object::new();
        o.push("enabled", JsonValue::Bool(self.enabled));
        o.push("termCount", JsonValue::natural(self.terms.len() as u64));
        o.push("roles", words_value(&self.roles));
        o.push("providers", words_value(&self.providers));
        assert(o@ =~= summary_json(self@)->Obj_0);
        JsonValue::Obj(o)
    }

    /// The providers that are dealt with.
    pub fn provider_scope(&self) -> (out: Vec<String>)
        ensures
            words(out@) == self@.providers,
    {
        dup_words(&self.providers)
    }

    /// Sets the providers that are dealt with.
    pub fn set_providers(&mut self, providers: &Vec<String>)
        requires
            old(self).wf(),
        ensures
            final(self).wf(),
            final(self)@ == (ServiceView {
                providers: chosen_providers(
                    Some(json_words(words(providers@))),
                    old(self)@.registry,
                ),
                ..old(self)@
            }),
    {
        let list = words_value(providers);
        self.providers = normalize_providers(Some(&list), &self.registry);
    }

    /// The number of terms.
    pub fn term_count(&self) -> (n: usize)
        ensures
            n == self@.terms.len(),
    {
        self.terms.len()
    }

    /// The version of the default terms that was merged last.
    pub fn defaults_version(&self) -> (n: Number)
        ensures
            n@ == self@.version,
    {
        self.defaults_version.dup()
    }

    /// Replaces the terms.
    pub fn set_terms(&mut self, terms: &Vec<String>)
        ensures
            final(self).wf(),
            final(self)@ == (ServiceView { terms: clean(words(terms@)), ..old(self)@ }),
    {
        self.terms = normalize_terms(terms);
        self.rebuild();
    }

    /// Adds terms.
    pub fn add_terms(&mut self, terms: &Vec<String>)
        ensures
            final(self).wf(),
            final(self)@ == (ServiceView {
                terms: clean(old(self)@.terms + words(terms@)),
                ..old(self)@
            }),
    {
        let merged = join_lists(&self.terms, terms);
        self.set_terms(&merged);
    }

    /// Removes terms, whatever their case. Where none is named, nothing changes.
    pub fn remove_terms(&mut self, terms: &Vec<String>)
        requires
            old(self).wf(),
        ensures
            final(self).wf(),
            final(self)@ == if terms@.len() == 0 {
                old(self)@
            } else {
                ServiceView {
                    terms: clean(terms_without(old(self)@.terms, words(terms@))),
                    ..old(self)@
                }
            },
    {
        if terms.len() == 0 {
            return ;
        }
        let ghost named = words(terms@);
        let ghost all = self@.terms;
        let mut drop_keys: Vec<String> = Vec::new();
        for i in 0..terms.len()
            invariant
                named == words(terms@),
                drop_keys@.len() == i,
                forall|k: int|
                    0 <= k < i ==> (#[trigger] drop_keys@[k])@ == lowered(js_trimmed(named[k])),
        {
            drop_keys.push(to_lower(js_trim(terms[i].as_str()).as_str()));
        }
        let mut kept: Vec<String> = Vec::new();
        assert(words(kept@) =~= terms_without(all.take(0), named));
        for n in 0..self.terms.len()
            invariant
                all == words(self.terms@),
                named == words(terms@),
                drop_keys@.len() == named.len(),
                forall|k: int|
                    0 <= k < drop_keys@.len() ==> (#[trigger] drop_keys@[k])@ == lowered(
                        js_trimmed(named[k]),
                    ),
                words(kept@) == terms_without(all.take(n as int), named),
        {
            assert(all.take(n + 1).drop_last() =~= all.take(n as int));
            assert(all.take(n + 1).last() == self.terms@[n as int]@);
            let key = to_lower(self.terms[n].as_str());
            let mut hit = false;
            for i in 0..drop_keys.len()
                invariant
                    key@ == lowered(all[n as int]),
                    drop_keys@.len() == named.len(),
                    forall|k: int|
                        0 <= k < drop_keys@.len() ==> (#[trigger] drop_keys@[k])@ == lowered(
                            js_trimmed(named[k]),
                        ),
                    hit == exists|k: int|
                        0 <= k < i && lowered(js_trimmed(#[trigger] named[k])) == lowered(
                            all[n as int],
                        ),
            {
                assert(drop_keys@[i as int]@ == lowered(js_trimmed(named[i as int])));
                if same(drop_keys[i].as_str(), key.as_str()) {
                    hit = true;
                }
            }
            assert(hit == names_term(named, all[n as int]));
            if !hit {
                let ghost before = kept@;
                kept.push(self.terms[n].clone());
                assert(words(kept@) =~= words(before).push(kept@.last()@));
            }
        }
        assert(all.take(all.len() as int) =~= all);
        self.set_terms(&kept);
    }

    /// Merges terms from afar: those that are missing are added, none is removed, and the version
    /// never goes back. Gives the terms that were missing.
    pub fn merge_remote_terms(&mut self, terms: &Vec<String>, version: u32) -> (added: Vec<String>)
        ensures
            final(self).wf(),
            words(added@) == missing_from(old(self)@.terms, words(terms@)),
            final(self)@ == (ServiceView {
                terms: with_missing(old(self)@.terms, words(terms@)),
                version: if number_below(old(self)@.version, version as i64) {
                    int_number(version as int)
                } else {
                    old(self)@.version
                },
                ..old(self)@
            }),
    {
        let added = missing_terms(&self.terms, terms);
        let merged = join_lists(&self.terms, &added);
        if self.defaults_version.below(version as i64) {
            self.defaults_version = Number::from_i64(version as i64);
        }
        self.set_terms(&merged);
        added
    }

    /// Turns the service on or off.
    pub fn set_enabled(&mut self, enabled: bool)
        requires
            old(self).wf(),
        ensures
            final(self).wf(),
            final(self)@ == (ServiceView { enabled, ..old(self)@ }),
    {
        self.enabled = enabled;
    }

    /// Sets the roles that are looked at.
    pub fn set_roles(&mut self, roles: Option<&JsonValue>)
        requires
            old(self).wf(),
        ensures
            final(self).wf(),
            final(self)@ == (ServiceView { roles: chosen_roles(seen(roles)), ..old(self)@ }),
    {
        self.roles = normalize_roles(roles);
    }

    /// Brings back the default terms.
    pub fn reset_terms(&mut self)
        ensures
            final(self).wf(),
            final(self)@ == (ServiceView { terms: clean(default_terms(old(self)@.third)), ..old(self)@ }),
    {
        let defaults = default_term_list(&self.third);
        self.set_terms(&defaults);
    }

    /// Forgets the statistics.
    pub fn reset_stats(&mut self)
        requires
            old(self).wf(),
        ensures
            final(self).wf(),
            final(self)@ == (ServiceView { stats: no_stats(), ..old(self)@ }),
    {
        self.stats = Stats::new();
    }
}

proof fn lemma_tried_len(terms: Seq<Seq<char>>)
    ensures
        compiled_list(terms).len() == clean(terms).len(),
{
    crate::order::order_is_stable_sort(
        crate::desensitize::engine::length_keys(clean(terms)),
    );
}

proof fn lemma_matcher(matcher: Option<TermMatcher>, terms: Seq<Seq<char>>)
    requires
        match matcher {
            Some(m) => m.wf() && m@ == compiled_list(terms) && m@.len() > 0,
            None => clean(terms).len() == 0,
        },
    ensures
        matcher_of(matcher, terms),
{
}

// ─── Taking over an older file ───────────────────────────────

/// What is kept of an older file: its settings, with the default ones for what it does not say.
pub open spec fn taken_over(p: PersistedView, registry: Seq<Seq<char>>) -> Json {
    kept_document(
        match p.enabled {
            Some(b) => b,
            None => true,
        },
        match p.terms {
            Some(t) => t,
            None => Seq::empty(),
        },
        chosen_roles(p.roles),
        chosen_providers(p.providers, registry),
        p.version,
    )
}

/// The text that is kept of an older file, and how many terms it has. It denotes what is kept,
/// where the version can be read.
pub fn import_legacy(text: &str, registry: &Vec<String>) -> (r: Result<(String, usize), String>)
    ensures
        match json_of_text(text@) {
            Ok(doc) => {
                let p = persisted_in(doc);
                &&& r is Ok
                &&& r->Ok_0.0@ == text_of_json(taken_over(p, words(registry@)))
                &&& readable(plain_number(p.version), 0) ==> gives(
                    r->Ok_0.0@,
                    taken_over(p, words(registry@)),
                )
                &&& r->Ok_0.1 == match p.terms {
                    Some(t) => t.len(),
                    None => 0,
                }
            },
            Err(e) => r is Err && r->Err_0@ == e,
        },
{
    let kept = match parse_state(text) {
        Ok(kept) => kept,
        Err(e) => {
            return Err(e);
        },
    };
    let ghost p = kept@;
    let enabled = match kept.enabled {
        Some(b) => b,
        None => true,
    };
    let none: Vec<String> = Vec::new();
    assert(words(none@) =~= Seq::empty());
    let terms = match kept.terms {
        Some(t) => t,
        None => none,
    };
    assert(words(terms@).len() == terms@.len());
    let count: usize = terms.len();
    let roles = normalize_roles(kept.roles.as_ref());
    let providers = normalize_providers(kept.providers.as_ref(), registry);
    let doc = state_value(enabled, &terms, &roles, &providers, &kept.defaults_version);
    assert(doc@ == taken_over(p, words(registry@)));
    proof {
        if readable(plain_number(p.version), 0) {
            kept_document_is_readable(
                enabled,
                words(terms@),
                words(roles@),
                words(providers@),
                p.version,
            );
        }
    }
    Ok((render_json(&doc), count))
}

} // verus!
