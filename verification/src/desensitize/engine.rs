//! Finding the terms in a text and splitting them.
//!
//! Letters are compared as if in upper case, one character at a time, where that changes neither
//! the number of characters nor whether a character is ASCII. At each place the longer terms are
//! tried first. A term of printable ASCII is found only where it is not part of a longer word.
use std::collections::HashMap;
use vstd::prelude::*;
use crate::json::{field, find, find_of_put, list_view, put, seen, str_of, Json, JsonValue};
use crate::order::{order_of, stable_order, SortKey};
use crate::text::{chars_of, js_trim, js_trimmed, lowered, same, text_between, to_lower};
use crate::words::words;

verus! {

/// How many terms are kept.
pub const MAX_TERMS: usize = 2000;

/// How long a term may be, in UTF-16 code units.
pub const MAX_TERM_LENGTH: usize = 200;

/// The version of the default terms.
pub const DEFAULT_TERMS_VERSION: u32 = 3;

/// The space of no width.
pub open spec fn zwsp() -> char {
    '\u{200b}'
}

// ─── Lengths ─────────────────────────────────────────────────

/// How many UTF-16 code units a character takes.
pub open spec fn units_of(c: char) -> nat {
    if c as u32 >= 0x1_0000 {
        2
    } else {
        1
    }
}

/// How many UTF-16 code units a text takes.
pub open spec fn utf16(text: Seq<char>) -> nat
    decreases text.len(),
{
    if text.len() == 0 {
        0
    } else {
        utf16(text.drop_last()) + units_of(text.last())
    }
}

proof fn lemma_utf16_bound(text: Seq<char>)
    ensures
        text.len() <= utf16(text) <= 2 * text.len(),
    decreases text.len(),
{
    if text.len() > 0 {
        lemma_utf16_bound(text.drop_last());
    }
}

/// [`utf16`], counted up to the largest number that there is.
pub fn utf16_len(value: &str) -> (n: usize)
    ensures
        n == if utf16(value@) > usize::MAX {
            usize::MAX as nat
        } else {
            utf16(value@)
        },
{
    let chars = chars_of(value);
    let mut n: u128 = 0;
    for i in 0..chars.len()
        invariant
            n == utf16(chars@.take(i as int)),
            n <= 2 * i,
    {
        assert(chars@.take(i + 1).drop_last() =~= chars@.take(i as int));
        n = n + if chars[i] as u32 >= 0x1_0000 { 2 } else { 1 };
    }
    assert(chars@.take(chars@.len() as int) =~= chars@);
    if n > usize::MAX as u128 {
        usize::MAX
    } else {
        n as usize
    }
}

// ─── Folding ─────────────────────────────────────────────────

/// The upper-case form of a character by the Unicode tables of the standard library.
pub uninterp spec fn uppered(c: char) -> Seq<char>;

/// `char::to_uppercase`: the result is a function of the character alone; it is never empty, and
/// an ASCII character becomes its ASCII capital, or stays.
#[verifier::external_body]
fn to_upper(c: char) -> (out: Vec<char>)
    ensures
        out@ == uppered(c),
        out@.len() > 0,
        (c as u32) < 128 ==> out@ == seq![ascii_upper(c)],
{
    c.to_uppercase().collect()
}

/// An ASCII lower-case letter becomes its capital; nothing else changes.
pub open spec fn ascii_upper(c: char) -> char {
    if 'a' <= c <= 'z' {
        ((c as u8) - 32) as u8 as char
    } else {
        c
    }
}

/// What a character is compared as.
pub open spec fn folded(c: char) -> u32 {
    let n = c as u32;
    let u = uppered(c);
    if n >= 0x1_0000 || u.len() != 1 {
        n
    } else if n >= 128 && (u[0] as u32) < 128 {
        n
    } else if u[0] as u32 >= 0x1_0000 {
        n
    } else {
        u[0] as u32
    }
}

/// What a text is compared as.
pub open spec fn folded_text(text: Seq<char>) -> Seq<u32> {
    text.map_values(|c: char| folded(c))
}

/// [`folded`].
pub fn canonicalize(c: char) -> (r: u32)
    ensures
        r == folded(c),
        (c as u32) < 128 ==> r == ascii_upper(c) as u32,
{
    let n: u32 = c as u32;
    let u = to_upper(c);
    if n >= 0x1_0000 || u.len() != 1 {
        return n;
    }
    let first: u32 = u[0] as u32;
    if (n >= 128 && first < 128) || first >= 0x1_0000 {
        n
    } else {
        first
    }
}

/// [`folded_text`].
pub fn fold(chars: &Vec<char>) -> (out: Vec<u32>)
    ensures
        out@ == folded_text(chars@),
{
    let mut out: Vec<u32> = Vec::new();
    for i in 0..chars.len()
        invariant
            out@ =~= folded_text(chars@).take(i as int),
    {
        out.push(canonicalize(chars[i]));
    }
    out
}

/// A letter or a digit of ASCII.
pub open spec fn word_char(c: char) -> bool {
    '0' <= c <= '9' || 'A' <= c <= 'Z' || 'a' <= c <= 'z'
}

/// Decides [`word_char`].
pub fn is_ascii_alnum(c: char) -> (r: bool)
    ensures
        r == word_char(c),
{
    ('0' <= c && c <= '9') || ('A' <= c && c <= 'Z') || ('a' <= c && c <= 'z')
}

// ─── The list of terms ───────────────────────────────────────

/// Some term of the list is the same but for case.
pub open spec fn listed(terms: Seq<Seq<char>>, term: Seq<char>) -> bool {
    exists|i: int| 0 <= i < terms.len() && lowered(#[trigger] terms[i]) == lowered(term)
}

/// The list with one more candidate: trimmed, not empty, not too long, not listed yet, and only
/// while there is room.
pub open spec fn with_term(terms: Seq<Seq<char>>, candidate: Seq<char>) -> Seq<Seq<char>> {
    let term = js_trimmed(candidate);
    if terms.len() >= MAX_TERMS || term.len() == 0 || utf16(term) > MAX_TERM_LENGTH || listed(
        terms,
        term,
    ) {
        terms
    } else {
        terms.push(term)
    }
}

/// The terms of a list of candidates, in their order.
pub open spec fn clean(candidates: Seq<Seq<char>>) -> Seq<Seq<char>>
    decreases candidates.len(),
{
    if candidates.len() == 0 {
        Seq::empty()
    } else {
        with_term(clean(candidates.drop_last()), candidates.last())
    }
}

/// A list that cleaning leaves as it is.
pub open spec fn is_clean(terms: Seq<Seq<char>>) -> bool {
    &&& terms.len() <= MAX_TERMS
    &&& forall|i: int|
        0 <= i < terms.len() ==> (#[trigger] terms[i]).len() > 0 && utf16(terms[i])
            <= MAX_TERM_LENGTH && js_trimmed(terms[i]) == terms[i]
    &&& forall|i: int, j: int|
        0 <= i < j < terms.len() ==> lowered(#[trigger] terms[i]) != lowered(#[trigger] terms[j])
}

/// Cleaning gives a list without blanks around a term, without empty, long or repeated terms, and
/// of no more than the limit.
pub proof fn clean_is_clean(candidates: Seq<Seq<char>>)
    ensures
        is_clean(clean(candidates)),
    decreases candidates.len(),
{
    if candidates.len() > 0 {
        clean_is_clean(candidates.drop_last());
        let before = clean(candidates.drop_last());
        crate::text::trimming_twice(candidates.last());
    }
}

/// A clean list is left as it is: cleaning twice is cleaning once.
pub proof fn clean_keeps_clean(terms: Seq<Seq<char>>)
    requires
        is_clean(terms),
    ensures
        clean(terms) == terms,
    decreases terms.len(),
{
    if terms.len() > 0 {
        let short = terms.drop_last();
        assert(is_clean(short)) by {
            assert forall|i: int| 0 <= i < short.len() implies (#[trigger] short[i]).len() > 0
                && utf16(short[i]) <= MAX_TERM_LENGTH && js_trimmed(short[i]) == short[i] by {
                assert(short[i] == terms[i]);
            }
            assert forall|i: int, j: int| 0 <= i < j < short.len() implies lowered(
                #[trigger] short[i],
            ) != lowered(#[trigger] short[j]) by {
                assert(lowered(terms[i]) != lowered(terms[j]));
            }
        }
        clean_keeps_clean(short);
        let last = terms.last();
        assert(terms[terms.len() - 1] == last);
        assert(!listed(short, last)) by {
            if listed(short, last) {
                let i = choose|i: int|
                    0 <= i < short.len() && lowered(#[trigger] short[i]) == lowered(last);
                assert(lowered(terms[i]) != lowered(terms[terms.len() - 1]));
            }
        }
        assert(clean(terms) =~= terms);
    } else {
        assert(clean(terms) =~= terms);
    }
}

/// [`clean`].
pub fn normalize_terms(input: &Vec<String>) -> (out: Vec<String>)
    ensures
        words(out@) == clean(words(input@)),
{
    let ghost all = words(input@);
    let mut out: Vec<String> = Vec::new();
    let mut seen_keys: Vec<String> = Vec::new();
    assert(words(out@) =~= clean(all.take(0)));
    for n in 0..input.len()
        invariant
            all == words(input@),
            words(out@) == clean(all.take(n as int)),
            seen_keys@.len() == out@.len(),
            forall|i: int| 0 <= i < out@.len() ==> (#[trigger] seen_keys@[i])@ == lowered(out@[i]@),
    {
        assert(all.take(n + 1).drop_last() =~= all.take(n as int));
        assert(all.take(n + 1).last() == input@[n as int]@);
        let term = js_trim(input[n].as_str());
        assert(words(out@).len() == out@.len());
        if out.len() < MAX_TERMS && !term.as_str().is_empty() && utf16_len(term.as_str())
            <= MAX_TERM_LENGTH {
            let key = to_lower(term.as_str());
            let mut repeated = false;
            let mut i: usize = 0;
            while i < seen_keys.len() && !repeated
                invariant
                    i <= seen_keys@.len(),
                    seen_keys@.len() == out@.len(),
                    key@ == lowered(term@),
                    forall|k: int|
                        0 <= k < out@.len() ==> (#[trigger] seen_keys@[k])@ == lowered(out@[k]@),
                    repeated ==> listed(words(out@), term@),
                    !repeated ==> forall|k: int|
                        0 <= k < i ==> lowered(#[trigger] words(out@)[k]) != lowered(term@),
                decreases seen_keys@.len() - i + if repeated {
                    0int
                } else {
                    1
                },
            {
                assert(words(out@)[i as int] == out@[i as int]@);
                assert(seen_keys@[i as int]@ == lowered(out@[i as int]@));
                if same(seen_keys[i].as_str(), key.as_str()) {
                    repeated = true;
                } else {
                    i = i + 1;
                }
            }
            if !repeated {
                let ghost before = out@;
                seen_keys.push(key);
                out.push(term);
                assert(words(out@) =~= words(before).push(out@.last()@));
                assert forall|k: int| 0 <= k < out@.len() implies (#[trigger] seen_keys@[k])@
                    == lowered(out@[k]@) by {
                    if k < before.len() {
                        assert(out@[k] == before[k]);
                    }
                }
            }
        }
    }
    assert(all.take(all.len() as int) =~= all);
    out
}

// ─── Compiled terms ──────────────────────────────────────────

/// A term ready for comparison.
pub struct CompiledTerm {
    pub units: Vec<u32>,
    pub bounded: bool,
}

/// The plain value of a [`CompiledTerm`].
pub struct TermView {
    pub units: Seq<u32>,
    pub bounded: bool,
}

impl View for CompiledTerm {
    type V = TermView;

    open spec fn view(&self) -> TermView {
        TermView { units: self.units@, bounded: self.bounded }
    }
}

/// Printable ASCII and nothing else.
pub open spec fn printable(text: Seq<char>) -> bool {
    text.len() > 0 && forall|i: int| 0 <= i < text.len() ==> ' ' <= #[trigger] text[i] <= '~'
}

pub open spec fn compiled(term: Seq<char>) -> TermView {
    TermView { units: folded_text(term), bounded: printable(term) }
}

/// What the longest terms first are ordered by.
pub open spec fn length_keys(terms: Seq<Seq<char>>) -> Seq<SortKey> {
    terms.map_values(
        |t: Seq<char>| SortKey { rank: 0, major: (-(utf16(t) as int)) as i64, minor: 0 },
    )
}

/// The terms in the order in which they are tried: the longest first, equal lengths in the order
/// of the list.
pub open spec fn tried(terms: Seq<Seq<char>>) -> Seq<Seq<char>> {
    stable_order(length_keys(terms)).map_values(|i: int| terms[i])
}

/// What a list of candidates is compiled to.
pub open spec fn compiled_list(candidates: Seq<Seq<char>>) -> Seq<TermView> {
    tried(clean(candidates)).map_values(|t: Seq<char>| compiled(t))
}

/// The terms, and for each first character those that start with it.
pub struct TermMatcher {
    pub terms: Vec<CompiledTerm>,
    pub by_first_unit: HashMap<u32, Vec<usize>>,
}

pub open spec fn terms_view(terms: Seq<CompiledTerm>) -> Seq<TermView> {
    terms.map_values(|t: CompiledTerm| t@)
}

impl View for TermMatcher {
    type V = Seq<TermView>;

    open spec fn view(&self) -> Seq<TermView> {
        terms_view(self.terms@)
    }
}

/// A list of places holds, in order, just those of the first `n` terms that start with `unit`.
pub open spec fn lists_starting(
    places: Seq<usize>,
    terms: Seq<TermView>,
    n: int,
    unit: u32,
) -> bool {
    &&& forall|k: int|
        0 <= k < places.len() ==> (#[trigger] places[k]) < n && terms[places[k] as int].units[0]
            == unit
    &&& forall|a: int, b: int| 0 <= a < b < places.len() ==> (#[trigger] places[a]) < (#[trigger] places[b])
    &&& forall|i: int|
        0 <= i < n && (#[trigger] terms[i]).units[0] == unit ==> exists|k: int|
            0 <= k < places.len() && places[k] == i
}

pub open spec fn indexes(index: Map<u32, Vec<usize>>, terms: Seq<TermView>, n: int) -> bool {
    &&& forall|unit: u32| #[trigger]
        index.dom().contains(unit) ==> lists_starting(index[unit]@, terms, n, unit)
    &&& forall|i: int| 0 <= i < n ==> index.dom().contains((#[trigger] terms[i]).units[0])
}

impl TermMatcher {
    /// No term is empty, and the index is that of the terms.
    pub open spec fn wf(&self) -> bool {
        &&& forall|i: int| 0 <= i < self@.len() ==> (#[trigger] self@[i]).units.len() > 0
        &&& indexes(self.by_first_unit@, self@, self@.len() as int)
    }
}

/// The term stands in the text at a place, on its own where it has to.
pub open spec fn matches_at(t: TermView, text: Seq<char>, p: int) -> bool {
    let end = p + t.units.len();
    &&& end <= text.len()
    &&& folded_text(text).subrange(p, end) == t.units
    &&& t.bounded ==> !(p > 0 && word_char(text[p - 1])) && !(end < text.len() && word_char(
        text[end],
    ))
}

/// The first term from the `from`-th on that stands at a place.
pub open spec fn match_from(terms: Seq<TermView>, text: Seq<char>, p: int, from: int) -> Option<int>
    decreases terms.len() - from,
{
    if from >= terms.len() || from < 0 {
        None
    } else if matches_at(terms[from], text, p) {
        Some(from)
    } else {
        match_from(terms, text, p, from + 1)
    }
}

/// The first term that stands at a place.
pub open spec fn match_at(terms: Seq<TermView>, text: Seq<char>, p: int) -> Option<int> {
    match_from(terms, text, p, 0)
}

proof fn lemma_match_from(terms: Seq<TermView>, text: Seq<char>, p: int, from: int)
    requires
        0 <= from <= terms.len(),
    ensures
        match match_from(terms, text, p, from) {
            Some(i) => from <= i < terms.len() && matches_at(terms[i], text, p) && forall|k: int|
                from <= k < i ==> !matches_at(#[trigger] terms[k], text, p),
            None => forall|k: int|
                from <= k < terms.len() ==> !matches_at(#[trigger] terms[k], text, p),
        },
    decreases terms.len() - from,
{
    if from < terms.len() && !matches_at(terms[from], text, p) {
        lemma_match_from(terms, text, p, from + 1);
    }
}

/// Decides [`matches_at`] for a text and what it is compared as.
fn term_matches(t: &CompiledTerm, chars: &Vec<char>, units: &Vec<u32>, p: usize) -> (r: bool)
    requires
        units@ == folded_text(chars@),
        p <= chars@.len(),
    ensures
        r == matches_at(t@, chars@, p as int),
{
    assert(units@.len() == chars@.len());
    if t.units.len() > chars.len() - p {
        return false;
    }
    let end: usize = p + t.units.len();
    let mut i: usize = 0;
    while i < t.units.len()
        invariant
            i <= t.units@.len(),
            end == p + t.units@.len(),
            end <= units@.len(),
            units@ == folded_text(chars@),
            forall|k: int| 0 <= k < i ==> units@[p + k] == t.units@[k],
        decreases t.units@.len() - i,
    {
        if units[p + i] != t.units[i] {
            assert(folded_text(chars@).subrange(p as int, end as int)[i as int] != t.units@[i as int]);
            return false;
        }
        i = i + 1;
    }
    assert(folded_text(chars@).subrange(p as int, end as int) =~= t.units@);
    if t.bounded {
        if p > 0 && is_ascii_alnum(chars[p - 1]) {
            return false;
        }
        if end < chars.len() && is_ascii_alnum(chars[end]) {
            return false;
        }
    }
    true
}

impl TermMatcher {
    /// [`match_at`].
    pub fn find_at(&self, chars: &Vec<char>, units: &Vec<u32>, p: usize) -> (r: Option<usize>)
        requires
            self.wf(),
            units@ == folded_text(chars@),
            p < chars@.len(),
        ensures
            match r {
                Some(i) => match_at(self@, chars@, p as int) == Some(i as int) && i < self.terms@.len(),
                None => match_at(self@, chars@, p as int) is None,
            },
    {
        broadcast use vstd::std_specs::hash::group_hash_axioms;

        let ghost terms = self@;
        assert(units@.len() == chars@.len());
        proof {
            lemma_match_from(terms, chars@, p as int, 0);
        }
        let first: u32 = units[p];
        assert forall|i: int| 0 <= i < terms.len() && matches_at(
            #[trigger] terms[i],
            chars@,
            p as int,
        ) implies terms[i].units[0] == first by {
            let end = p + terms[i].units.len();
            assert(folded_text(chars@).subrange(p as int, end)[0] == terms[i].units[0]);
        }
        match self.by_first_unit.get(&first) {
            None => {
                proof {
                    if match_at(terms, chars@, p as int) is Some {
                        let i = match_at(terms, chars@, p as int)->0;
                        assert(terms[i].units[0] == first);
                        assert(self.by_first_unit@.dom().contains(terms[i].units[0]));
                    }
                }
                None
            },
            Some(places) => {
                let mut k: usize = 0;
                while k < places.len()
                    invariant
                        k <= places@.len(),
                        self.wf(),
                        terms == self@,
                        units@ == folded_text(chars@),
                        p < chars@.len(),
                        lists_starting(places@, terms, terms.len() as int, first),
                        forall|i: int|
                            0 <= i < terms.len() && matches_at(#[trigger] terms[i], chars@, p as int)
                                ==> terms[i].units[0] == first,
                        forall|a: int|
                            0 <= a < k ==> !matches_at(
                                terms[(#[trigger] places@[a]) as int],
                                chars@,
                                p as int,
                            ),
                    decreases places@.len() - k,
                {
                    let at: usize = places[k];
                    assert(places@[k as int] == at);
                    assert(terms[at as int] == self.terms@[at as int]@);
                    if term_matches(&self.terms[at], chars, units, p) {
                        proof {
                            lemma_match_from(terms, chars@, p as int, 0);
                            let i = match_at(terms, chars@, p as int)->0;
                            assert(matches_at(terms[at as int], chars@, p as int));
                            assert(match_at(terms, chars@, p as int) is Some);
                            assert(terms[i].units[0] == first);
                            let b = choose|b: int| 0 <= b < places@.len() && places@[b] == i;
                            if b < k {
                                assert(!matches_at(terms[places@[b] as int], chars@, p as int));
                            } else if b > k {
                                assert(places@[k as int] < places@[b]);
                            }
                        }
                        return Some(at);
                    }
                    k = k + 1;
                }
                proof {
                    lemma_match_from(terms, chars@, p as int, 0);
                    if match_at(terms, chars@, p as int) is Some {
                        let i = match_at(terms, chars@, p as int)->0;
                        assert(terms[i].units[0] == first);
                        let b = choose|b: int| 0 <= b < places@.len() && places@[b] == i;
                        assert(!matches_at(terms[places@[b] as int], chars@, p as int));
                    }
                }
                None
            },
        }
    }

    /// How many characters a term takes.
    pub fn length_of(&self, index: usize) -> (n: usize)
        ensures
            n == if index < self@.len() {
                self@[index as int].units.len()
            } else {
                0
            },
    {
        if index < self.terms.len() {
            self.terms[index].units.len()
        } else {
            0
        }
    }
}

fn is_printable(chars: &Vec<char>) -> (r: bool)
    ensures
        r == printable(chars@),
{
    for i in 0..chars.len()
        invariant
            forall|k: int| 0 <= k < i ==> ' ' <= #[trigger] chars@[k] <= '~',
    {
        let c = chars[i];
        if !(' ' <= c && c <= '~') {
            return false;
        }
    }
    chars.len() > 0
}

fn compile(term: &str) -> (out: CompiledTerm)
    ensures
        out@ == compiled(term@),
{
    let chars = chars_of(term);
    CompiledTerm { units: fold(&chars), bounded: is_printable(&chars) }
}

fn in_trial_order(list: &Vec<String>) -> (out: Vec<CompiledTerm>)
    requires
        is_clean(words(list@)),
    ensures
        terms_view(out@) == tried(words(list@)).map_values(|t: Seq<char>| compiled(t)),
        out@.len() == list@.len(),
{
    let ghost all = words(list@);
    let mut keys: Vec<SortKey> = Vec::new();
    for i in 0..list.len()
        invariant
            all == words(list@),
            is_clean(all),
            keys@ =~= length_keys(all).take(i as int),
    {
        assert(all[i as int] == list@[i as int]@);
        proof {
            lemma_utf16_bound(all[i as int]);
        }
        let len = utf16_len(list[i].as_str());
        assert(len <= MAX_TERM_LENGTH);
        keys.push(SortKey { rank: 0, major: -(len as i64), minor: 0 });
    }
    assert(keys@ =~= length_keys(all));
    let order = order_of(&keys);
    let ghost positions = stable_order(keys@);
    let ghost made = tried(all).map_values(|t: Seq<char>| compiled(t));
    let mut out: Vec<CompiledTerm> = Vec::new();
    assert(terms_view(out@) =~= made.take(0));
    for n in 0..order.len()
        invariant
            all == words(list@),
            order@.len() == list@.len(),
            keys@.len() == list@.len(),
            out@.len() == n,
            positions == order@.map_values(|i: usize| i as int),
            made == positions.map_values(|i: int| all[i]).map_values(|t: Seq<char>| compiled(t)),
            forall|i: int| 0 <= i < order@.len() ==> #[trigger] order@[i] < keys@.len(),
            terms_view(out@) == made.take(n as int),
    {
        assert(positions[n as int] == order@[n as int] as int);
        let ghost before = out@;
        out.push(compile(list[order[n]].as_str()));
        assert(terms_view(out@) =~= terms_view(before).push(out@.last()@));
        assert(made.take(n + 1) =~= made.take(n as int).push(made[n as int]));
    }
    assert(made.take(made.len() as int) =~= made);
    out
}

fn index_terms(terms: &Vec<CompiledTerm>) -> (index: HashMap<u32, Vec<usize>>)
    requires
        forall|i: int| 0 <= i < terms@.len() ==> (#[trigger] terms@[i]).units@.len() > 0,
    ensures
        indexes(index@, terms_view(terms@), terms@.len() as int),
{
    broadcast use vstd::std_specs::hash::group_hash_axioms;

    let ghost all = terms_view(terms@);
    let mut index: HashMap<u32, Vec<usize>> = HashMap::new();
    for n in 0..terms.len()
        invariant
            all == terms_view(terms@),
            forall|i: int| 0 <= i < terms@.len() ==> (#[trigger] terms@[i]).units@.len() > 0,
            indexes(index@, all, n as int),
    {
        broadcast use vstd::std_specs::hash::group_hash_axioms;

        let first: u32 = terms[n].units[0];
        assert(all[n as int].units[0] == first);
        let ghost before = index@;
        let mut places = match index.remove(&first) {
            Some(p) => p,
            None => Vec::new(),
        };
        let ghost old_places = places@;
        assert(lists_starting(old_places, all, n as int, first)) by {
            if before.dom().contains(first) {
                assert(old_places == before[first]@);
            } else {
                assert forall|i: int| 0 <= i < n && (#[trigger] all[i]).units[0] == first implies exists|
                    k: int,
                | 0 <= k < old_places.len() && old_places[k] == i by {
                    assert(before.dom().contains(all[i].units[0]));
                }
            }
        }
        places.push(n);
        assert(lists_starting(places@, all, n + 1, first)) by {
            assert forall|i: int| 0 <= i < n + 1 && (#[trigger] all[i]).units[0] == first implies exists|
                k: int,
            | 0 <= k < places@.len() && places@[k] == i by {
                if i < n {
                    let k = choose|k: int| 0 <= k < old_places.len() && old_places[k] == i;
                    assert(places@[k] == i);
                } else {
                    assert(places@[old_places.len() as int] == i);
                }
            }
        }
        let ghost new_places = places;
        index.insert(first, places);
        assert(indexes(index@, all, n + 1)) by {
            assert forall|unit: u32| #[trigger]
                index@.dom().contains(unit) implies lists_starting(index@[unit]@, all, n + 1, unit) by {
                if unit != first {
                    assert(before.dom().contains(unit));
                    assert(index@[unit] == before[unit]);
                    let ps = before[unit]@;
                    assert(lists_starting(ps, all, n as int, unit));
                    assert forall|i: int| 0 <= i < n + 1 && (#[trigger] all[i]).units[0] == unit implies exists|
                        k: int,
                    | 0 <= k < ps.len() && ps[k] == i by {
                        assert(i < n);
                    }
                } else {
                    assert(index@[unit] == new_places);
                }
            }
            assert forall|i: int| 0 <= i < n + 1 implies index@.dom().contains(
                (#[trigger] all[i]).units[0],
            ) by {
                if i < n {
                    assert(before.dom().contains(all[i].units[0]));
                }
            }
        }
    }
    index
}

/// The matcher of a list of candidates; none where no term is left.
pub fn compile_terms(terms: &Vec<String>) -> (r: Option<TermMatcher>)
    ensures
        match r {
            Some(m) => m.wf() && m@ == compiled_list(words(terms@)) && m@.len() > 0,
            None => clean(words(terms@)).len() == 0,
        },
{
    let list = normalize_terms(terms);
    proof {
        clean_is_clean(words(terms@));
        assert(words(list@).len() == list@.len());
    }
    if list.len() == 0 {
        return None;
    }
    let compiled_terms = in_trial_order(&list);
    let ghost all = words(list@);
    proof {
        crate::order::order_is_stable_sort(length_keys(all));
        assert forall|i: int| 0 <= i < compiled_terms@.len() implies (
        #[trigger] compiled_terms@[i]).units@.len() > 0 by {
            let k = stable_order(length_keys(all))[i];
            assert(0 <= k < all.len());
            assert(terms_view(compiled_terms@)[i] == compiled(all[k]));
            assert(all[k].len() > 0);
        }
    }
    let by_first_unit = index_terms(&compiled_terms);
    let m = TermMatcher { terms: compiled_terms, by_first_unit };
    assert forall|i: int| 0 <= i < m@.len() implies (#[trigger] m@[i]).units.len() > 0 by {
        assert(m@[i] == m.terms@[i]@);
    }
    Some(m)
}

// ─── Counting ────────────────────────────────────────────────

/// The next number, up to the largest that there is.
pub open spec fn next_count(n: usize) -> usize {
    if n == usize::MAX {
        n
    } else {
        (n + 1) as usize
    }
}

fn count_on(n: usize) -> (r: usize)
    ensures
        r == next_count(n),
{
    if n == usize::MAX {
        n
    } else {
        n + 1
    }
}

/// How often what was found, as it was written, in the order in which it was found first.
pub struct Counter {
    pub total: usize,
    pub entries: Vec<(String, usize)>,
}

/// The plain value of a [`Counter`].
pub struct CounterView {
    pub total: usize,
    pub entries: Seq<(Seq<char>, usize)>,
}

pub open spec fn counts_view(entries: Seq<(String, usize)>) -> Seq<(Seq<char>, usize)> {
    entries.map_values(|e: (String, usize)| (e.0@, e.1))
}

impl View for Counter {
    type V = CounterView;

    open spec fn view(&self) -> CounterView {
        CounterView { total: self.total, entries: counts_view(self.entries@) }
    }
}

/// The counts with one more of a word. A new word comes last.
pub open spec fn counted(entries: Seq<(Seq<char>, usize)>, word: Seq<char>) -> Seq<
    (Seq<char>, usize),
>
    decreases entries.len(),
{
    if entries.len() == 0 {
        seq![(word, 1usize)]
    } else if entries[0].0 == word {
        seq![(word, next_count(entries[0].1))] + entries.drop_first()
    } else {
        seq![entries[0]] + counted(entries.drop_first(), word)
    }
}

pub open spec fn bumped(c: CounterView, word: Seq<char>) -> CounterView {
    CounterView { total: next_count(c.total), entries: counted(c.entries, word) }
}

/// The counter after some words, one after the other.
pub open spec fn bumped_by(c: CounterView, hits: Seq<Seq<char>>) -> CounterView
    decreases hits.len(),
{
    if hits.len() == 0 {
        c
    } else {
        bumped(bumped_by(c, hits.drop_last()), hits.last())
    }
}

/// Words counted in two portions.
pub proof fn lemma_bumped_by_add(c: CounterView, a: Seq<Seq<char>>, b: Seq<Seq<char>>)
    ensures
        bumped_by(bumped_by(c, a), b) == bumped_by(c, a + b),
    decreases b.len(),
{
    if b.len() == 0 {
        assert(a + b =~= a);
    } else {
        lemma_bumped_by_add(c, a, b.drop_last());
        assert((a + b).drop_last() =~= a + b.drop_last());
    }
}

/// What the counts are ordered by: the most first.
pub open spec fn count_keys(entries: Seq<(Seq<char>, usize)>) -> Seq<SortKey> {
    entries.map_values(
        |e: (Seq<char>, usize)| SortKey { rank: (u64::MAX - e.1) as u64, major: 0, minor: 0 },
    )
}

/// The counts, the most first, equal ones in the order in which they were found first.
pub open spec fn by_count(entries: Seq<(Seq<char>, usize)>) -> Seq<(Seq<char>, usize)> {
    stable_order(count_keys(entries)).map_values(|i: int| entries[i])
}

/// [`by_count`].
pub fn sorted_counts(entries: &Vec<(String, usize)>) -> (out: Vec<(String, usize)>)
    ensures
        counts_view(out@) == by_count(counts_view(entries@)),
        out@.len() == entries@.len(),
{
    let ghost all = counts_view(entries@);
    let mut keys: Vec<SortKey> = Vec::new();
    for i in 0..entries.len()
        invariant
            all == counts_view(entries@),
            keys@ =~= count_keys(all).take(i as int),
    {
        keys.push(SortKey { rank: u64::MAX - entries[i].1 as u64, major: 0, minor: 0 });
    }
    assert(keys@ =~= count_keys(all));
    let order = order_of(&keys);
    let ghost positions = stable_order(keys@);
    let ghost made = by_count(all);
    let mut out: Vec<(String, usize)> = Vec::new();
    assert(counts_view(out@) =~= made.take(0));
    for n in 0..order.len()
        invariant
            all == counts_view(entries@),
            order@.len() == entries@.len(),
            keys@.len() == entries@.len(),
            out@.len() == n,
            positions == order@.map_values(|i: usize| i as int),
            made == positions.map_values(|i: int| all[i]),
            forall|i: int| 0 <= i < order@.len() ==> #[trigger] order@[i] < keys@.len(),
            counts_view(out@) == made.take(n as int),
    {
        assert(positions[n as int] == order@[n as int] as int);
        let ghost before = out@;
        let at: usize = order[n];
        out.push((entries[at].0.clone(), entries[at].1));
        assert(counts_view(out@) =~= counts_view(before).push((out@.last().0@, out@.last().1)));
        assert(made.take(n + 1) =~= made.take(n as int).push(made[n as int]));
    }
    assert(made.take(made.len() as int) =~= made);
    out
}

impl Counter {
    pub fn new() -> (out: Counter)
        ensures
            out@ == (CounterView { total: 0, entries: Seq::empty() }),
    {
        let entries: Vec<(String, usize)> = Vec::new();
        assert(counts_view(entries@) =~= Seq::empty());
        Counter { total: 0, entries }
    }

    /// [`bumped`].
    pub fn bump(&mut self, matched: &str)
        ensures
            final(self)@ == bumped(old(self)@, matched@),
    {
        let ghost all = counts_view(self.entries@);
        self.total = count_on(self.total);
        let mut i: usize = 0;
        assert(all.skip(0) =~= all);
        assert(counted(all, matched@) =~= all.take(0) + counted(all.skip(0), matched@));
        while i < self.entries.len()
            invariant
                i <= self.entries@.len(),
                all == counts_view(self.entries@),
                self.total == next_count(old(self).total),
                all == old(self)@.entries,
                counted(all, matched@) == all.take(i as int) + counted(all.skip(i as int), matched@),
            decreases self.entries@.len() - i,
        {
            assert(all.skip(i as int)[0] == (self.entries@[i as int].0@, self.entries@[i as int].1));
            assert(all.skip(i as int).drop_first() =~= all.skip(i + 1));
            if same(self.entries[i].0.as_str(), matched) {
                let next: usize = count_on(self.entries[i].1);
                let ghost before = self.entries@;
                self.entries.set(i, (matched.to_owned(), next));
                assert(counts_view(self.entries@) =~= all.take(i as int) + (seq![(matched@, next)]
                    + all.skip(i + 1)));
                return ;
            }
            assert(all.take(i as int) + (seq![all[i as int]] + counted(all.skip(i + 1), matched@))
                =~= all.take(i + 1) + counted(all.skip(i + 1), matched@));
            i = i + 1;
        }
        assert(all.skip(i as int) =~= Seq::empty());
        let ghost before = self.entries@;
        self.entries.push((matched.to_owned(), 1));
        assert(counts_view(self.entries@) =~= all.take(i as int) + seq![(matched@, 1usize)]);
    }

    /// The counts, the most first.
    pub fn term_counts(&self) -> (out: Vec<(String, usize)>)
        ensures
            counts_view(out@) == by_count(self@.entries),
    {
        sorted_counts(&self.entries)
    }

    /// What was found, in the order in which it was found first.
    pub fn matched_terms(&self) -> (out: Vec<String>)
        ensures
            words(out@) == self@.entries.map_values(|e: (Seq<char>, usize)| e.0),
    {
        let ghost all = self@.entries.map_values(|e: (Seq<char>, usize)| e.0);
        let mut out: Vec<String> = Vec::new();
        assert(words(out@) =~= all.take(0));
        for i in 0..self.entries.len()
            invariant
                all == self@.entries.map_values(|e: (Seq<char>, usize)| e.0),
                words(out@) == all.take(i as int),
        {
            let ghost before = out@;
            out.push(self.entries[i].0.clone());
            assert(words(out@) =~= words(before).push(out@.last()@));
            assert(all.take(i + 1) =~= all.take(i as int).push(all[i as int]));
        }
        assert(all.take(all.len() as int) =~= all);
        out
    }
}

// ─── Splitting ───────────────────────────────────────────────

/// The text from a place on, with every term that is found split after its first character.
pub open spec fn scrubbed_from(terms: Seq<TermView>, text: Seq<char>, p: int) -> Seq<char>
    decreases text.len() - p,
{
    if p >= text.len() || p < 0 {
        Seq::empty()
    } else {
        match match_at(terms, text, p) {
            Some(i) => {
                let n = terms[i].units.len() as int;
                if n <= 0 || p + n > text.len() {
                    Seq::empty()
                } else {
                    seq![text[p], zwsp()] + text.subrange(p + 1, p + n) + scrubbed_from(
                        terms,
                        text,
                        p + n,
                    )
                }
            },
            None => seq![text[p]] + scrubbed_from(terms, text, p + 1),
        }
    }
}

/// What is found in the text from a place on, as it is written there.
pub open spec fn hits_from(terms: Seq<TermView>, text: Seq<char>, p: int) -> Seq<Seq<char>>
    decreases text.len() - p,
{
    if p >= text.len() || p < 0 {
        Seq::empty()
    } else {
        match match_at(terms, text, p) {
            Some(i) => {
                let n = terms[i].units.len() as int;
                if n <= 0 || p + n > text.len() {
                    Seq::empty()
                } else {
                    seq![text.subrange(p, p + n)] + hits_from(terms, text, p + n)
                }
            },
            None => hits_from(terms, text, p + 1),
        }
    }
}

/// The terms of a matcher; none where there is no matcher.
pub open spec fn terms_of(matcher: Option<&TermMatcher>) -> Seq<TermView> {
    match matcher {
        Some(m) => m@,
        None => Seq::empty(),
    }
}

/// The whole text with every term that is found split.
pub open spec fn scrubbed(terms: Seq<TermView>, text: Seq<char>) -> Seq<char> {
    scrubbed_from(terms, text, 0)
}

/// All that is found in a text.
pub open spec fn hits(terms: Seq<TermView>, text: Seq<char>) -> Seq<Seq<char>> {
    hits_from(terms, text, 0)
}

/// No term is empty.
pub open spec fn filled_terms(terms: Seq<TermView>) -> bool {
    forall|i: int| 0 <= i < terms.len() ==> (#[trigger] terms[i]).units.len() > 0
}

/// The text without the spaces of no width.
pub open spec fn joined(text: Seq<char>) -> Seq<char>
    decreases text.len(),
{
    if text.len() == 0 {
        Seq::empty()
    } else if text[0] == zwsp() {
        joined(text.drop_first())
    } else {
        seq![text[0]] + joined(text.drop_first())
    }
}

proof fn lemma_joined_add(a: Seq<char>, b: Seq<char>)
    ensures
        joined(a + b) == joined(a) + joined(b),
    decreases a.len(),
{
    if a.len() == 0 {
        assert(a + b =~= b);
        assert(joined(a) + joined(b) =~= joined(b));
    } else {
        lemma_joined_add(a.drop_first(), b);
        assert((a + b).drop_first() =~= a.drop_first() + b);
        if a[0] != zwsp() {
            assert(joined(a + b) =~= joined(a) + joined(b));
        }
    }
}

proof fn lemma_joined_plain(a: Seq<char>)
    requires
        !a.contains(zwsp()),
    ensures
        joined(a) == a,
    decreases a.len(),
{
    if a.len() > 0 {
        assert(a.contains(a[0]));
        assert(!a.drop_first().contains(zwsp())) by {
            if a.drop_first().contains(zwsp()) {
                let k = choose|k: int| 0 <= k < a.drop_first().len() && a.drop_first()[k] == zwsp();
                assert(a[k + 1] == zwsp());
            }
        }
        lemma_joined_plain(a.drop_first());
        assert(joined(a) =~= a);
    } else {
        assert(joined(a) =~= a);
    }
}

proof fn lemma_scrubbed_joins(terms: Seq<TermView>, text: Seq<char>, p: int)
    requires
        filled_terms(terms),
        !text.contains(zwsp()),
        0 <= p <= text.len(),
    ensures
        joined(scrubbed_from(terms, text, p)) == text.skip(p),
    decreases text.len() - p,
{
    if p == text.len() {
        assert(text.skip(p) =~= Seq::empty());
    } else {
        lemma_match_from(terms, text, p, 0);
        let first = seq![text[p]];
        assert(text.contains(text[p]));
        lemma_joined_plain_one(text[p]);
        match match_at(terms, text, p) {
            Some(i) => {
                let n = terms[i].units.len() as int;
                let rest = scrubbed_from(terms, text, p + n);
                let middle = text.subrange(p + 1, p + n);
                lemma_scrubbed_joins(terms, text, p + n);
                assert(!middle.contains(zwsp())) by {
                    if middle.contains(zwsp()) {
                        let k = choose|k: int| 0 <= k < middle.len() && middle[k] == zwsp();
                        assert(text[p + 1 + k] == zwsp());
                    }
                }
                lemma_joined_plain(middle);
                let head = seq![text[p], zwsp()];
                assert(joined(head) == first) by {
                    assert(head.drop_first() =~= seq![zwsp()]);
                    assert(seq![zwsp()].drop_first() =~= Seq::<char>::empty());
                    assert(joined(seq![zwsp()]) == joined(Seq::<char>::empty()));
                    assert(joined(head) =~= first);
                }
                lemma_joined_add(head + middle, rest);
                lemma_joined_add(head, middle);
                assert(first + middle + text.skip(p + n) =~= text.skip(p));
            },
            None => {
                let rest = scrubbed_from(terms, text, p + 1);
                lemma_scrubbed_joins(terms, text, p + 1);
                lemma_joined_add(first, rest);
                assert(first + text.skip(p + 1) =~= text.skip(p));
            },
        }
    }
}

proof fn lemma_joined_plain_one(c: char)
    requires
        c != zwsp(),
    ensures
        joined(seq![c]) == seq![c],
{
    assert(seq![c].drop_first() =~= Seq::<char>::empty());
    assert(seq![c][0] == c);
    assert(joined(Seq::<char>::empty()) =~= Seq::<char>::empty());
    assert(joined(seq![c]) =~= seq![c]);
}

/// Nothing is lost: without the spaces of no width, the text is what it was.
pub proof fn splitting_loses_nothing(terms: Seq<TermView>, text: Seq<char>)
    requires
        filled_terms(terms),
        !text.contains(zwsp()),
    ensures
        joined(scrubbed(terms, text)) == text,
{
    lemma_scrubbed_joins(terms, text, 0);
    assert(text.skip(0) =~= text);
}

proof fn lemma_unchanged_from(terms: Seq<TermView>, text: Seq<char>, p: int)
    requires
        filled_terms(terms),
        0 <= p <= text.len(),
    ensures
        scrubbed_from(terms, text, p).len() == text.len() - p + hits_from(terms, text, p).len(),
        hits_from(terms, text, p).len() == 0 ==> scrubbed_from(terms, text, p) == text.skip(p),
    decreases text.len() - p,
{
    if p == text.len() {
        assert(text.skip(p) =~= Seq::empty());
    } else {
        lemma_match_from(terms, text, p, 0);
        match match_at(terms, text, p) {
            Some(i) => {
                let n = terms[i].units.len() as int;
                lemma_unchanged_from(terms, text, p + n);
            },
            None => {
                lemma_unchanged_from(terms, text, p + 1);
                assert(seq![text[p]] + text.skip(p + 1) =~= text.skip(p));
            },
        }
    }
}

/// One space is added for each term that is found; where none is, the text stays as it is.
pub proof fn splitting_adds_one_per_hit(terms: Seq<TermView>, text: Seq<char>)
    requires
        filled_terms(terms),
    ensures
        scrubbed(terms, text).len() == text.len() + hits(terms, text).len(),
        scrubbed(terms, text) == text <==> hits(terms, text).len() == 0,
{
    lemma_unchanged_from(terms, text, 0);
    assert(text.skip(0) =~= text);
}

/// The text with every term that is found split, and the count of what was found.
pub fn desensitize_text(text: &str, matcher: Option<&TermMatcher>, counter: &mut Counter) -> (out:
    String)
    requires
        matcher is Some ==> matcher->0.wf(),
    ensures
        out@ == scrubbed(terms_of(matcher), text@),
        final(counter)@ == bumped_by(old(counter)@, hits(terms_of(matcher), text@)),
{
    let m = match matcher {
        Some(m) => m,
        None => {
            proof {
                splitting_adds_one_per_hit(Seq::empty(), text@);
                lemma_no_terms(text@, 0);
            }
            return text.to_owned();
        },
    };
    let chars = chars_of(text);
    let units = fold(&chars);
    let ghost terms = m@;
    let ghost start = counter@;
    let mut out = String::new();
    let mut p: usize = 0;
    let ghost mut found: Seq<Seq<char>> = Seq::empty();
    assert(out@ + scrubbed_from(terms, text@, 0) =~= scrubbed(terms, text@));
    assert(found + hits_from(terms, text@, 0) =~= hits(terms, text@));
    while p < chars.len()
        invariant
            p <= chars@.len(),
            chars@ == text@,
            units@ == folded_text(chars@),
            m.wf(),
            terms == m@,
            terms == terms_of(matcher),
            scrubbed(terms, text@) == out@ + scrubbed_from(terms, text@, p as int),
            hits(terms, text@) == found + hits_from(terms, text@, p as int),
            counter@ == bumped_by(start, found),
        decreases chars@.len() - p,
    {
        let ghost before = out@;
        let ghost found_before = found;
        proof {
            lemma_match_from(terms, text@, p as int, 0);
        }
        match m.find_at(&chars, &units, p) {
            None => {
                out.push(chars[p]);
                proof {
                    assert(before + (seq![text@[p as int]] + scrubbed_from(terms, text@, p + 1))
                        =~= out@ + scrubbed_from(terms, text@, p + 1));
                }
                p = p + 1;
            },
            Some(index) => {
                let n = m.length_of(index);
                assert(terms[index as int].units.len() > 0);
                let matched = text_between(&chars, p, p + n);
                counter.bump(matched.as_str());
                out.push(chars[p]);
                out.push('\u{200b}');
                let tail = text_between(&chars, p + 1, p + n);
                out.append(tail.as_str());
                proof {
                    let i = match_at(terms, text@, p as int)->0;
                    assert(i == index);
                    let piece = seq![text@[p as int], zwsp()] + text@.subrange(p + 1, p + n);
                    assert(out@ =~= before + piece);
                    assert(before + (piece + scrubbed_from(terms, text@, p + n)) =~= out@
                        + scrubbed_from(terms, text@, p + n));
                    found = found_before.push(matched@);
                    assert(found.drop_last() =~= found_before);
                    assert(found_before + (seq![matched@] + hits_from(terms, text@, p + n)) =~= found
                        + hits_from(terms, text@, p + n));
                }
                p = p + n;
            },
        }
    }
    assert(out@ + Seq::<char>::empty() =~= out@);
    assert(found + Seq::<Seq<char>>::empty() =~= found);
    out
}

proof fn lemma_no_terms(text: Seq<char>, p: int)
    requires
        0 <= p <= text.len(),
    ensures
        hits_from(Seq::empty(), text, p).len() == 0,
        hits_from(Seq::empty(), text, p) == Seq::<Seq<char>>::empty(),
    decreases text.len() - p,
{
    if p < text.len() {
        lemma_no_terms(text, p + 1);
    }
}

// ─── Messages ────────────────────────────────────────────────

/// The object holds a text that may be split: it is a text part.
pub open spec fn part_text(block: Json) -> Option<Seq<char>> {
    if str_of(field(block, "type"@)) == Some("text"@) {
        str_of(field(block, "text"@))
    } else {
        None
    }
}

/// A part of a content, split where it is text.
pub open spec fn block_scrubbed(terms: Seq<TermView>, block: Json) -> Json {
    match part_text(block) {
        Some(text) => if scrubbed(terms, text) == text {
            block
        } else {
            Json::Obj(put(block->Obj_0, "text"@, Json::Str(scrubbed(terms, text))))
        },
        None => block,
    }
}

pub open spec fn block_hits(terms: Seq<TermView>, block: Json) -> Seq<Seq<char>> {
    match part_text(block) {
        Some(text) => hits(terms, text),
        None => Seq::empty(),
    }
}

/// What is found in the first `n` parts.
pub open spec fn blocks_hits(terms: Seq<TermView>, blocks: Seq<Json>, n: nat) -> Seq<Seq<char>>
    decreases n,
{
    if n == 0 {
        Seq::empty()
    } else {
        blocks_hits(terms, blocks, (n - 1) as nat) + block_hits(terms, blocks[n - 1])
    }
}

/// A content: a text, or a list of parts. Anything else stays as it is.
pub open spec fn content_scrubbed(terms: Seq<TermView>, content: Json) -> Json {
    match content {
        Json::Str(s) => Json::Str(scrubbed(terms, s)),
        Json::Arr(blocks) => Json::Arr(blocks.map_values(|b: Json| block_scrubbed(terms, b))),
        _ => content,
    }
}

pub open spec fn content_hits(terms: Seq<TermView>, content: Json) -> Seq<Seq<char>> {
    match content {
        Json::Str(s) => hits(terms, s),
        Json::Arr(blocks) => blocks_hits(terms, blocks, blocks.len()),
        _ => Seq::empty(),
    }
}

/// The message is one of those that are looked at, by its role.
pub open spec fn looked_at(message: Json, roles: Seq<Seq<char>>) -> bool {
    match str_of(field(message, "role"@)) {
        Some(role) => roles.contains(role),
        None => false,
    }
}

/// The content of a message, null where it has none.
pub open spec fn content_of(message: Json) -> Json {
    crate::json::or_null(field(message, "content"@))
}

/// A message, with its content split where it is looked at.
pub open spec fn message_scrubbed(terms: Seq<TermView>, roles: Seq<Seq<char>>, message: Json) -> Json {
    if looked_at(message, roles) && content_scrubbed(terms, content_of(message)) != content_of(
        message,
    ) {
        Json::Obj(
            put(message->Obj_0, "content"@, content_scrubbed(terms, content_of(message))),
        )
    } else {
        message
    }
}

pub open spec fn message_hits(terms: Seq<TermView>, roles: Seq<Seq<char>>, message: Json) -> Seq<
    Seq<char>,
> {
    if looked_at(message, roles) {
        content_hits(terms, content_of(message))
    } else {
        Seq::empty()
    }
}

/// What is found in the first `n` messages.
pub open spec fn messages_hits(
    terms: Seq<TermView>,
    roles: Seq<Seq<char>>,
    messages: Seq<Json>,
    n: nat,
) -> Seq<Seq<char>>
    decreases n,
{
    if n == 0 {
        Seq::empty()
    } else {
        messages_hits(terms, roles, messages, (n - 1) as nat) + message_hits(
            terms,
            roles,
            messages[n - 1],
        )
    }
}

pub open spec fn messages_scrubbed(
    terms: Seq<TermView>,
    roles: Seq<Seq<char>>,
    messages: Seq<Json>,
) -> Seq<Json> {
    messages.map_values(|m: Json| message_scrubbed(terms, roles, m))
}

/// The list of messages after splitting, where anything changed.
pub open spec fn list_scrubbed(
    terms: Seq<TermView>,
    roles: Seq<Seq<char>>,
    messages: Json,
) -> Option<Json> {
    match messages {
        Json::Arr(list) => if messages_scrubbed(terms, roles, list) == list {
            None
        } else {
            Some(Json::Arr(messages_scrubbed(terms, roles, list)))
        },
        _ => None,
    }
}

pub open spec fn list_hits(terms: Seq<TermView>, roles: Seq<Seq<char>>, messages: Json) -> Seq<
    Seq<char>,
> {
    match messages {
        Json::Arr(list) => messages_hits(terms, roles, list, list.len()),
        _ => Seq::empty(),
    }
}

/// A message of a role that is not looked at is never changed.
pub proof fn other_roles_are_untouched(terms: Seq<TermView>, roles: Seq<Seq<char>>, message: Json)
    requires
        !looked_at(message, roles),
    ensures
        message_scrubbed(terms, roles, message) == message,
        message_hits(terms, roles, message).len() == 0,
{
}

/// Splitting a message changes nothing but its content.
pub proof fn only_content_changes(
    terms: Seq<TermView>,
    roles: Seq<Seq<char>>,
    message: Json,
    key: Seq<char>,
)
    requires
        key != "content"@,
    ensures
        field(message_scrubbed(terms, roles, message), key) == field(message, key),
{
    broadcast use find_of_put;

}

fn scrub_block(block: &JsonValue, matcher: &TermMatcher, counter: &mut Counter) -> (r: (
    JsonValue,
    bool,
))
    requires
        matcher.wf(),
    ensures
        r.0@ == block_scrubbed(matcher@, block@),
        r.1 == (r.0@ != block@),
        final(counter)@ == bumped_by(old(counter)@, block_hits(matcher@, block@)),
{
    broadcast use find_of_put;

    if let JsonValue::Obj(o) = block {
        let is_text = match o.get("type") {
            Some(JsonValue::Str(s)) => same(s.as_str(), "text"),
            _ => false,
        };
        if is_text {
            if let Some(JsonValue::Str(text)) = o.get("text") {
                let next = desensitize_text(text.as_str(), Some(matcher), counter);
                if same(next.as_str(), text.as_str()) {
                    return (block.dup(), false);
                }
                let mut copy = o.dup();
                copy.insert("text", JsonValue::Str(next));
                proof {
                    assert(find(copy@, "text"@) != find(o@, "text"@));
                }
                return (JsonValue::Obj(copy), true);
            }
        }
    }
    (block.dup(), false)
}

fn scrub_content(content: &JsonValue, matcher: &TermMatcher, counter: &mut Counter) -> (r: (
    JsonValue,
    bool,
))
    requires
        matcher.wf(),
    ensures
        r.0@ == content_scrubbed(matcher@, content@),
        r.1 == (r.0@ != content@),
        final(counter)@ == bumped_by(old(counter)@, content_hits(matcher@, content@)),
{
    match content {
        JsonValue::Str(s) => {
            let next = desensitize_text(s.as_str(), Some(matcher), counter);
            let changed = !same(next.as_str(), s.as_str());
            (JsonValue::Str(next), changed)
        },
        JsonValue::Arr(blocks) => {
            let ghost terms = matcher@;
            let ghost all = list_view(*blocks);
            let ghost made = all.map_values(|b: Json| block_scrubbed(terms, b));
            let ghost start = counter@;
            let mut touched = false;
            let mut next: Vec<JsonValue> = Vec::new();
            assert(list_view(next) =~= made.take(0));
            assert(made.take(0) =~= all.take(0));
            for n in 0..blocks.len()
                invariant
                    matcher.wf(),
                    terms == matcher@,
                    all == list_view(*blocks),
                    made == all.map_values(|b: Json| block_scrubbed(terms, b)),
                    list_view(next) == made.take(n as int),
                    touched == (made.take(n as int) != all.take(n as int)),
                    counter@ == bumped_by(start, blocks_hits(terms, all, n as nat)),
            {
                assert(all[n as int] == blocks@[n as int]@);
                let (block, changed) = scrub_block(&blocks[n], matcher, counter);
                proof {
                    lemma_bumped_by_add(
                        start,
                        blocks_hits(terms, all, n as nat),
                        block_hits(terms, all[n as int]),
                    );
                    assert(made.take(n + 1) =~= made.take(n as int).push(made[n as int]));
                    assert(all.take(n + 1) =~= all.take(n as int).push(all[n as int]));
                    assert(made.take(n + 1).drop_last() =~= made.take(n as int));
                    assert(all.take(n + 1).drop_last() =~= all.take(n as int));
                    assert(made.take(n + 1).last() == made[n as int]);
                    assert(all.take(n + 1).last() == all[n as int]);
                }
                crate::json::push_value(&mut next, block);
                touched = touched || changed;
            }
            assert(made.take(made.len() as int) =~= made);
            assert(all.take(all.len() as int) =~= all);
            (JsonValue::Arr(next), touched)
        },
        _ => (content.dup(), false),
    }
}

fn role_listed(roles: &Vec<String>, role: &str) -> (r: bool)
    ensures
        r == words(roles@).contains(role@),
{
    for i in 0..roles.len()
        invariant
            forall|k: int| 0 <= k < i ==> #[trigger] words(roles@)[k] != role@,
    {
        assert(words(roles@)[i as int] == roles@[i as int]@);
        if same(roles[i].as_str(), role) {
            return true;
        }
    }
    false
}

fn scrub_message(
    message: &JsonValue,
    matcher: &TermMatcher,
    roles: &Vec<String>,
    counter: &mut Counter,
) -> (r: (JsonValue, bool))
    requires
        matcher.wf(),
    ensures
        r.0@ == message_scrubbed(matcher@, words(roles@), message@),
        r.1 == (r.0@ != message@),
        final(counter)@ == bumped_by(
            old(counter)@,
            message_hits(matcher@, words(roles@), message@),
        ),
{
    broadcast use find_of_put;

    if let JsonValue::Obj(o) = message {
        let allowed = match o.get("role") {
            Some(JsonValue::Str(role)) => role_listed(roles, role.as_str()),
            _ => false,
        };
        if allowed {
            let content = crate::json::dup_or_null(o.get("content"));
            let (next, changed) = scrub_content(&content, matcher, counter);
            if changed {
                let mut copy = o.dup();
                let ghost next_view = next@;
                copy.insert("content", next);
                proof {
                    assert(find(copy@, "content"@) == Some(next_view));
                    if find(o@, "content"@) is None {
                        assert(content@ == Json::Null);
                        assert(content_scrubbed(matcher@, Json::Null) == Json::Null);
                    }
                    assert(find(copy@, "content"@) != find(o@, "content"@));
                }
                return (JsonValue::Obj(copy), true);
            }
        }
    }
    (message.dup(), false)
}

/// The messages after splitting, where anything changed.
pub fn desensitize_messages(
    messages: &JsonValue,
    matcher: Option<&TermMatcher>,
    roles: &Vec<String>,
    counter: &mut Counter,
) -> (r: Option<JsonValue>)
    requires
        matcher is Some ==> matcher->0.wf(),
    ensures
        match matcher {
            Some(m) => crate::protocol::responses::owned(r) == list_scrubbed(
                m@,
                words(roles@),
                messages@,
            ) && final(counter)@ == bumped_by(
                old(counter)@,
                list_hits(m@, words(roles@), messages@),
            ),
            None => r is None && final(counter)@ == old(counter)@,
        },
{
    let m = match matcher {
        Some(m) => m,
        None => {
            return None;
        },
    };
    let list = match messages {
        JsonValue::Arr(list) => list,
        _ => {
            return None;
        },
    };
    let ghost terms = m@;
    let ghost allowed = words(roles@);
    let ghost all = list_view(*list);
    let ghost made = messages_scrubbed(terms, allowed, all);
    let ghost start = counter@;
    let mut touched = false;
    let mut next: Vec<JsonValue> = Vec::new();
    assert(list_view(next) =~= made.take(0));
    assert(made.take(0) =~= all.take(0));
    for n in 0..list.len()
        invariant
            m.wf(),
            terms == m@,
            allowed == words(roles@),
            all == list_view(*list),
            made == messages_scrubbed(terms, allowed, all),
            list_view(next) == made.take(n as int),
            touched == (made.take(n as int) != all.take(n as int)),
            counter@ == bumped_by(start, messages_hits(terms, allowed, all, n as nat)),
    {
        assert(all[n as int] == list@[n as int]@);
        let (message, changed) = scrub_message(&list[n], m, roles, counter);
        proof {
            lemma_bumped_by_add(
                start,
                messages_hits(terms, allowed, all, n as nat),
                message_hits(terms, allowed, all[n as int]),
            );
            assert(made.take(n + 1) =~= made.take(n as int).push(made[n as int]));
            assert(all.take(n + 1) =~= all.take(n as int).push(all[n as int]));
            assert(made.take(n + 1).drop_last() =~= made.take(n as int));
            assert(all.take(n + 1).drop_last() =~= all.take(n as int));
            assert(made.take(n + 1).last() == made[n as int]);
            assert(all.take(n + 1).last() == all[n as int]);
        }
        crate::json::push_value(&mut next, message);
        touched = touched || changed;
    }
    assert(made.take(made.len() as int) =~= made);
    assert(all.take(all.len() as int) =~= all);
    if touched {
        Some(JsonValue::Arr(next))
    } else {
        None
    }
}

/// The body with its messages split, where anything changed.
pub open spec fn body_scrubbed(terms: Seq<TermView>, roles: Seq<Seq<char>>, body: Json) -> Option<
    Json,
> {
    match field(body, "messages"@) {
        Some(messages) => match list_scrubbed(terms, roles, messages) {
            Some(next) => Some(Json::Obj(put(body->Obj_0, "messages"@, next))),
            None => None,
        },
        None => None,
    }
}

pub open spec fn body_hits(terms: Seq<TermView>, roles: Seq<Seq<char>>, body: Json) -> Seq<
    Seq<char>,
> {
    match field(body, "messages"@) {
        Some(messages) => list_hits(terms, roles, messages),
        None => Seq::empty(),
    }
}

/// [`body_scrubbed`].
pub fn desensitize_body(
    body: &JsonValue,
    matcher: Option<&TermMatcher>,
    roles: &Vec<String>,
    counter: &mut Counter,
) -> (r: Option<JsonValue>)
    requires
        matcher is Some ==> matcher->0.wf(),
    ensures
        match matcher {
            Some(m) => crate::protocol::responses::owned(r) == body_scrubbed(
                m@,
                words(roles@),
                body@,
            ) && final(counter)@ == bumped_by(
                old(counter)@,
                body_hits(m@, words(roles@), body@),
            ),
            None => r is None && final(counter)@ == old(counter)@,
        },
{
    if let JsonValue::Obj(o) = body {
        if let Some(messages) = o.get("messages") {
            if let Some(next) = desensitize_messages(messages, matcher, roles, counter) {
                let mut copy = o.dup();
                copy.insert("messages", next);
                return Some(JsonValue::Obj(copy));
            }
        }
    }
    None
}

// ─── Roles ───────────────────────────────────────────────────

/// The roles that messages may have.
pub open spec fn valid_roles() -> Seq<Seq<char>> {
    seq!["system"@, "user"@, "assistant"@, "tool"@, "developer"@]
}

/// The roles that are looked at where nothing is said.
pub open spec fn default_roles() -> Seq<Seq<char>> {
    seq!["system"@, "user"@]
}

/// The roles among some JSON values, in the order of the valid ones.
pub open spec fn roles_among(items: Seq<Json>, candidates: Seq<Seq<char>>) -> Seq<Seq<char>>
    decreases candidates.len(),
{
    if candidates.len() == 0 {
        Seq::empty()
    } else {
        let before = roles_among(items, candidates.drop_last());
        if items.contains(Json::Str(candidates.last())) {
            before.push(candidates.last())
        } else {
            before
        }
    }
}

/// The roles to look at: those of a list that are valid, the default ones where none is.
pub open spec fn chosen_roles(input: Option<Json>) -> Seq<Seq<char>> {
    match input {
        Some(Json::Arr(items)) => if roles_among(items, valid_roles()).len() > 0 {
            roles_among(items, valid_roles())
        } else {
            default_roles()
        },
        _ => default_roles(),
    }
}

fn default_role_list() -> (out: Vec<String>)
    ensures
        words(out@) == default_roles(),
{
    let mut out: Vec<String> = Vec::new();
    out.push("system".to_owned());
    out.push("user".to_owned());
    assert(words(out@) =~= default_roles());
    out
}

fn names_role(items: &Vec<JsonValue>, role: &str) -> (r: bool)
    ensures
        r == list_view(*items).contains(Json::Str(role@)),
{
    for i in 0..items.len()
        invariant
            forall|k: int| 0 <= k < i ==> #[trigger] list_view(*items)[k] != Json::Str(role@),
    {
        assert(list_view(*items)[i as int] == items@[i as int]@);
        if let JsonValue::Str(s) = &items[i] {
            if same(s.as_str(), role) {
                return true;
            }
        }
    }
    false
}

/// [`chosen_roles`].
pub fn normalize_roles(input: Option<&JsonValue>) -> (out: Vec<String>)
    ensures
        words(out@) == chosen_roles(seen(input)),
{
    let items = match input {
        Some(JsonValue::Arr(items)) => items,
        _ => {
            return default_role_list();
        },
    };
    let candidates = vec!["system", "user", "assistant", "tool", "developer"];
    let ghost all = valid_roles();
    let mut out: Vec<String> = Vec::new();
    assert(words(out@) =~= roles_among(list_view(*items), all.take(0)));
    for i in 0..candidates.len()
        invariant
            candidates@.len() == 5,
            all == valid_roles(),
            forall|k: int| 0 <= k < 5 ==> (#[trigger] candidates@[k])@ == all[k],
            words(out@) == roles_among(list_view(*items), all.take(i as int)),
    {
        assert(all.take(i + 1).drop_last() =~= all.take(i as int));
        assert(all.take(i + 1).last() == candidates@[i as int]@);
        if names_role(items, candidates[i]) {
            let ghost before = out@;
            out.push(candidates[i].to_owned());
            assert(words(out@) =~= words(before).push(out@.last()@));
        }
    }
    assert(all.take(all.len() as int) =~= all);
    assert(words(out@).len() == out@.len());
    if out.len() == 0 {
        return default_role_list();
    }
    out
}

} // verus!
