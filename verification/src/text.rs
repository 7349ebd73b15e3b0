//! Texts as sequences of characters: trimming, slicing, ASCII case and decimal numerals.
use vstd::prelude::*;

verus! {

/// `String::push` appends one character to the text.
pub assume_specification[ std::string::String::push ](text: &mut std::string::String, c: char)
    ensures
        final(text)@ == old(text)@.push(c),
;

/// `==` of `str`: whether two texts hold the same characters.
#[verifier::external_body]
pub(crate) fn same(a: &str, b: &str) -> (r: bool)
    ensures
        r == (a@ == b@),
{
    a == b
}

/// The lower-case form of a text by the Unicode tables of the standard library.
pub uninterp spec fn lowered(text: Seq<char>) -> Seq<char>;

/// `str::to_lowercase`: the result is a function of the characters alone.
#[verifier::external_body]
pub(crate) fn to_lower(text: &str) -> (out: String)
    ensures
        out@ == lowered(text@),
{
    text.to_lowercase()
}

/// The characters of `text`, in order.
pub fn chars_of(text: &str) -> (out: Vec<char>)
    ensures
        out@ == text@,
{
    let mut out: Vec<char> = Vec::new();
    for c in it: text.chars()
        invariant
            out@ == it.seq().take(it.index()),
            it.seq() == text@,
    {
        out.push(c);
    }
    out
}

/// The text that `chars[from..to]` spells.
pub fn text_between(chars: &Vec<char>, from: usize, to: usize) -> (out: String)
    requires
        from <= to <= chars@.len(),
    ensures
        out@ == chars@.subrange(from as int, to as int),
{
    let mut out = String::new();
    for i in from..to
        invariant
            from <= i <= to <= chars@.len(),
            out@ == chars@.subrange(from as int, i as int),
    {
        out.push(chars[i]);
        assert(chars@.subrange(from as int, i as int).push(chars@[i as int])
            =~= chars@.subrange(from as int, i + 1));
    }
    out
}

/// The text that `chars` spell.
pub fn text_of(chars: &Vec<char>) -> (out: String)
    ensures
        out@ == chars@,
{
    let out = text_between(chars, 0, chars.len());
    assert(out@ =~= chars@);
    out
}

/// The first `limit` characters of `text`, or all of them.
pub open spec fn head(text: Seq<char>, limit: nat) -> Seq<char> {
    if text.len() <= limit {
        text
    } else {
        text.take(limit as int)
    }
}

/// The last `limit` characters of `text`, or all of them.
pub open spec fn tail(text: Seq<char>, limit: nat) -> Seq<char> {
    if text.len() <= limit {
        text
    } else {
        text.skip(text.len() - limit)
    }
}

/// The first `limit` characters of `text`.
pub fn truncate_chars(text: &str, limit: usize) -> (out: String)
    ensures
        out@ == head(text@, limit as nat),
{
    let chars = chars_of(text);
    let end: usize = if chars.len() <= limit { chars.len() } else { limit };
    let out = text_between(&chars, 0, end);
    assert(out@ =~= head(text@, limit as nat));
    out
}

/// The last `limit` characters of `text`.
pub fn last_chars(text: &str, limit: usize) -> (out: String)
    ensures
        out@ == tail(text@, limit as nat),
{
    let chars = chars_of(text);
    let start: usize = if chars.len() <= limit { 0 } else { chars.len() - limit };
    let out = text_between(&chars, start, chars.len());
    assert(out@ =~= tail(text@, limit as nat));
    out
}

/// The number of characters in `text`.
pub fn char_count(text: &str) -> (n: usize)
    ensures
        n == text@.len(),
{
    chars_of(text).len()
}

// ─── Blank space ─────────────────────────────────────────────

/// The characters with the Unicode property White_Space.
pub open spec fn white(c: char) -> bool {
    let n = c as u32;
    9 <= n <= 13 || n == 0x20 || n == 0x85 || n == 0xa0 || n == 0x1680 || 0x2000 <= n <= 0x200a
        || n == 0x2028 || n == 0x2029 || n == 0x202f || n == 0x205f || n == 0x3000
}

/// What trimming takes away: white space and, where `bom` holds, the byte order mark.
pub open spec fn blank(c: char, bom: bool) -> bool {
    white(c) || (bom && c as u32 == 0xfeff)
}

/// Decides [`blank`].
pub fn is_blank(c: char, bom: bool) -> (r: bool)
    ensures
        r == blank(c, bom),
{
    let n: u32 = c as u32;
    (9 <= n && n <= 13) || n == 0x20 || n == 0x85 || n == 0xa0 || n == 0x1680
        || (0x2000 <= n && n <= 0x200a) || n == 0x2028 || n == 0x2029 || n == 0x202f || n == 0x205f
        || n == 0x3000 || (bom && n == 0xfeff)
}

/// `text` without the blanks it starts with.
pub open spec fn trim_front(text: Seq<char>, bom: bool) -> Seq<char>
    decreases text.len(),
{
    if text.len() > 0 && blank(text[0], bom) {
        trim_front(text.drop_first(), bom)
    } else {
        text
    }
}

/// `text` without the blanks it ends with.
pub open spec fn trim_back(text: Seq<char>, bom: bool) -> Seq<char>
    decreases text.len(),
{
    if text.len() > 0 && blank(text.last(), bom) {
        trim_back(text.drop_last(), bom)
    } else {
        text
    }
}

/// `text` without white space at either end.
pub open spec fn trimmed(text: Seq<char>) -> Seq<char> {
    trim_back(trim_front(text, false), false)
}

/// `text` without white space or byte order marks at either end.
pub open spec fn js_trimmed(text: Seq<char>) -> Seq<char> {
    trim_back(trim_front(text, true), true)
}

proof fn lemma_trim_back_subset(text: Seq<char>, bom: bool)
    ensures
        trim_back(text, bom).len() <= text.len(),
        text.take(trim_back(text, bom).len() as int) == trim_back(text, bom),
        trim_back(text, bom).len() > 0 ==> !blank(trim_back(text, bom).last(), bom),
    decreases text.len(),
{
    if text.len() > 0 && blank(text.last(), bom) {
        lemma_trim_back_subset(text.drop_last(), bom);
        let n = trim_back(text, bom).len() as int;
        assert(text.take(n) =~= text.drop_last().take(n));
    } else {
        assert(text.take(text.len() as int) =~= text);
    }
}

proof fn lemma_trim_front_first(text: Seq<char>, bom: bool)
    ensures
        trim_front(text, bom).len() > 0 ==> !blank(trim_front(text, bom)[0], bom),
    decreases text.len(),
{
    if text.len() > 0 && blank(text[0], bom) {
        lemma_trim_front_first(text.drop_first(), bom);
    }
}

/// What is trimmed has no blank left at either end: trimming twice is trimming once.
pub proof fn trimming_twice(text: Seq<char>)
    ensures
        js_trimmed(js_trimmed(text)) == js_trimmed(text),
        trimmed(trimmed(text)) == trimmed(text),
{
    lemma_trim_as_twice(text, true);
    lemma_trim_as_twice(text, false);
}

proof fn lemma_trim_as_twice(text: Seq<char>, bom: bool)
    ensures
        ({
            let t = trim_back(trim_front(text, bom), bom);
            trim_back(trim_front(t, bom), bom) == t
        }),
{
    let f = trim_front(text, bom);
    let t = trim_back(f, bom);
    lemma_trim_front_first(text, bom);
    lemma_trim_back_subset(f, bom);
    if t.len() > 0 {
        assert(t[0] == f.take(t.len() as int)[0]);
        assert(trim_front(t, bom) == t);
    }
}

fn trim_as(text: &str, bom: bool) -> (out: String)
    ensures
        out@ == trim_back(trim_front(text@, bom), bom),
{
    let chars = chars_of(text);
    let mut from: usize = 0;
    assert(chars@.skip(0) =~= chars@);
    while from < chars.len() && is_blank(chars[from], bom)
        invariant
            from <= chars@.len(),
            trim_front(text@, bom) == trim_front(chars@.skip(from as int), bom),
        decreases chars@.len() - from,
    {
        assert(chars@.skip(from as int).drop_first() =~= chars@.skip(from + 1));
        from = from + 1;
    }
    assert(trim_front(text@, bom) == chars@.skip(from as int));
    let mut to: usize = chars.len();
    assert(chars@.subrange(from as int, to as int) =~= chars@.skip(from as int));
    while to > from && is_blank(chars[to - 1], bom)
        invariant
            from <= to <= chars@.len(),
            trim_back(trim_front(text@, bom), bom) == trim_back(
                chars@.subrange(from as int, to as int),
                bom,
            ),
        decreases to,
    {
        assert(chars@.subrange(from as int, to as int).drop_last() =~= chars@.subrange(
            from as int,
            to - 1,
        ));
        to = to - 1;
    }
    text_between(&chars, from, to)
}

/// [`trimmed`].
pub fn trim(text: &str) -> (out: String)
    ensures
        out@ == trimmed(text@),
{
    trim_as(text, false)
}

/// [`js_trimmed`].
pub fn js_trim(text: &str) -> (out: String)
    ensures
        out@ == js_trimmed(text@),
{
    trim_as(text, true)
}

// ─── Parts of a text ─────────────────────────────────────────

/// `text` starts with `prefix`.
pub open spec fn begins(text: Seq<char>, prefix: Seq<char>) -> bool {
    prefix.len() <= text.len() && text.take(prefix.len() as int) == prefix
}

/// `text` ends with `suffix`.
pub open spec fn ends(text: Seq<char>, suffix: Seq<char>) -> bool {
    suffix.len() <= text.len() && text.skip(text.len() - suffix.len()) == suffix
}

/// `part` stands in `text` from position `at` on.
pub open spec fn stands_at(text: Seq<char>, part: Seq<char>, at: int) -> bool {
    0 <= at && at + part.len() <= text.len() && text.subrange(at, at + part.len()) == part
}

/// `part` stands somewhere in `text`.
pub open spec fn holds_part(text: Seq<char>, part: Seq<char>) -> bool {
    exists|at: int| #[trigger] stands_at(text, part, at)
}

/// Decides [`stands_at`].
pub fn part_at(text: &Vec<char>, part: &Vec<char>, at: usize) -> (r: bool)
    ensures
        r == stands_at(text@, part@, at as int),
{
    if part.len() > text.len() || at > text.len() - part.len() {
        return false;
    }
    let mut i: usize = 0;
    while i < part.len()
        invariant
            i <= part@.len(),
            at + part@.len() <= text.len(),
            forall|k: int| 0 <= k < i ==> text@[at + k] == part@[k],
        decreases part@.len() - i,
    {
        if text[at + i] != part[i] {
            assert(text@.subrange(at as int, at + part@.len())[i as int] != part@[i as int]);
            return false;
        }
        i = i + 1;
    }
    assert(text@.subrange(at as int, at + part@.len()) =~= part@);
    true
}

/// Decides [`begins`].
pub fn starts_with(text: &str, prefix: &str) -> (r: bool)
    ensures
        r == begins(text@, prefix@),
{
    let all = chars_of(text);
    let part = chars_of(prefix);
    let r = part_at(&all, &part, 0);
    assert(part@.len() <= all@.len() ==> all@.subrange(0, part@.len() as int) =~= all@.take(
        part@.len() as int,
    ));
    r
}

/// Decides [`ends`].
pub fn ends_with(text: &str, suffix: &str) -> (r: bool)
    ensures
        r == ends(text@, suffix@),
{
    let all = chars_of(text);
    let part = chars_of(suffix);
    if part.len() > all.len() {
        return false;
    }
    let at: usize = all.len() - part.len();
    assert(all@.subrange(at as int, at + part@.len()) =~= all@.skip(at as int));
    part_at(&all, &part, at)
}

/// Decides [`holds_part`].
pub fn contains(text: &str, part: &str) -> (r: bool)
    ensures
        r == holds_part(text@, part@),
{
    let all = chars_of(text);
    let wanted = chars_of(part);
    let mut at: usize = 0;
    while at < all.len()
        invariant
            all@ == text@,
            wanted@ == part@,
            at <= all@.len(),
            forall|k: int| 0 <= k < at ==> !#[trigger] stands_at(all@, wanted@, k),
        decreases all@.len() - at,
    {
        if part_at(&all, &wanted, at) {
            return true;
        }
        at = at + 1;
    }
    part_at(&all, &wanted, at)
}

// ─── ASCII case ──────────────────────────────────────────────

/// An ASCII upper-case letter becomes its lower-case letter; nothing else changes.
pub open spec fn ascii_lower(c: char) -> char {
    if 'A' <= c <= 'Z' {
        ((c as u8) + 32) as u8 as char
    } else {
        c
    }
}

/// [`ascii_lower`].
pub fn to_ascii_lower(c: char) -> (r: char)
    ensures
        r == ascii_lower(c),
{
    if 'A' <= c && c <= 'Z' {
        ((c as u8) + 32) as char
    } else {
        c
    }
}

/// Two texts that differ at most in the case of ASCII letters.
pub open spec fn same_ignoring_case(a: Seq<char>, b: Seq<char>) -> bool {
    a.len() == b.len() && forall|i: int|
        0 <= i < a.len() ==> ascii_lower(#[trigger] a[i]) == ascii_lower(b[i])
}

/// Decides [`same_ignoring_case`].
pub fn eq_ignore_case(a: &str, b: &str) -> (r: bool)
    ensures
        r == same_ignoring_case(a@, b@),
{
    let x = chars_of(a);
    let y = chars_of(b);
    if x.len() != y.len() {
        return false;
    }
    for i in 0..x.len()
        invariant
            x@ == a@,
            y@ == b@,
            x@.len() == y@.len(),
            forall|k: int| 0 <= k < i ==> ascii_lower(#[trigger] x@[k]) == ascii_lower(y@[k]),
    {
        if to_ascii_lower(x[i]) != to_ascii_lower(y[i]) {
            return false;
        }
    }
    true
}

/// Ignoring ASCII case is an equivalence.
pub proof fn ignoring_case_is_equivalence(a: Seq<char>, b: Seq<char>, c: Seq<char>)
    ensures
        same_ignoring_case(a, a),
        same_ignoring_case(a, b) ==> same_ignoring_case(b, a),
        same_ignoring_case(a, b) && same_ignoring_case(b, c) ==> same_ignoring_case(a, c),
{
}

// ─── Numerals ────────────────────────────────────────────────

/// The character of a digit below sixteen.
pub open spec fn digit(d: nat) -> char {
    if d < 10 {
        (48 + d) as u8 as char
    } else {
        (87 + d) as u8 as char
    }
}

/// The numeral of `n` in base ten or sixteen, without leading zeros.
pub open spec fn numeral_in(n: nat, base: nat) -> Seq<char>
    decreases n,
{
    if n < base || (base != 10 && base != 16) {
        seq![digit(n)]
    } else if base == 10 {
        numeral_in(n / 10, 10).push(digit(n % 10))
    } else {
        numeral_in(n / 16, 16).push(digit(n % 16))
    }
}

/// The decimal numeral of an integer.
pub open spec fn decimal(n: int) -> Seq<char> {
    if n < 0 {
        seq!['-'] + numeral_in((-n) as nat, 10)
    } else {
        numeral_in(n as nat, 10)
    }
}

/// The lower-case hexadecimal numeral of a natural number.
pub open spec fn hexadecimal(n: nat) -> Seq<char> {
    numeral_in(n, 16)
}

/// [`digit`].
pub fn digit_char(d: u8) -> (c: char)
    requires
        d < 16,
    ensures
        c == digit(d as nat),
{
    if d < 10 {
        (48 + d) as char
    } else {
        (87 + d) as char
    }
}

/// [`numeral_in`] for the two bases in use.
pub fn write_numeral(n: u64, base: u64) -> (out: String)
    requires
        base == 10 || base == 16,
    ensures
        out@ == numeral_in(n as nat, base as nat),
    decreases n,
{
    if n < base {
        let mut out = String::new();
        out.push(digit_char(n as u8));
        assert(out@ =~= seq![digit(n as nat)]);
        out
    } else {
        let mut out = write_numeral(n / base, base);
        out.push(digit_char((n % base) as u8));
        out
    }
}

/// [`decimal`] of a natural number.
pub fn decimal_u64(n: u64) -> (out: String)
    ensures
        out@ == decimal(n as int),
{
    write_numeral(n, 10)
}

/// [`decimal`] of a signed integer.
pub fn decimal_i64(n: i64) -> (out: String)
    ensures
        out@ == decimal(n as int),
{
    if n < 0 {
        let magnitude: u64 = if n == i64::MIN { 9223372036854775808u64 } else { (-n) as u64 };
        let mut out = String::new();
        out.push('-');
        out.append(write_numeral(magnitude, 10).as_str());
        assert(out@ =~= decimal(n as int));
        out
    } else {
        write_numeral(n as u64, 10)
    }
}

/// A decimal digit.
pub open spec fn is_digit(c: char) -> bool {
    '0' <= c <= '9'
}

/// Some digits and nothing else.
pub open spec fn all_digits(text: Seq<char>) -> bool {
    text.len() > 0 && forall|i: int| 0 <= i < text.len() ==> is_digit(#[trigger] text[i])
}

/// The number that some digits denote.
pub open spec fn digits_value(text: Seq<char>) -> nat
    decreases text.len(),
{
    if text.len() == 0 {
        0
    } else {
        digits_value(text.drop_last()) * 10 + (text.last() as u32 - 48) as nat
    }
}

/// The integer that a numeral denotes: digits, with a sign in front or without.
pub open spec fn integer_in_text(text: Seq<char>) -> Option<int> {
    if text.len() > 0 && text[0] == '-' {
        if all_digits(text.skip(1)) {
            Some(-(digits_value(text.skip(1)) as int))
        } else {
            None
        }
    } else if text.len() > 0 && text[0] == '+' {
        if all_digits(text.skip(1)) {
            Some(digits_value(text.skip(1)) as int)
        } else {
            None
        }
    } else if all_digits(text) {
        Some(digits_value(text) as int)
    } else {
        None
    }
}

/// The `i64` that a numeral denotes, where it fits.
pub open spec fn i64_of_text(text: Seq<char>) -> Option<i64> {
    match integer_in_text(text) {
        Some(n) => if i64::MIN <= n <= i64::MAX {
            Some(n as i64)
        } else {
            None
        },
        None => None,
    }
}

pub proof fn lemma_digits_grow(text: Seq<char>, n: int)
    requires
        0 <= n <= text.len(),
        forall|i: int| 0 <= i < text.len() ==> is_digit(#[trigger] text[i]),
    ensures
        digits_value(text.take(n)) <= digits_value(text),
    decreases text.len() - n,
{
    if n < text.len() {
        lemma_digits_grow(text, n + 1);
        assert(text.take(n + 1).drop_last() =~= text.take(n));
    } else {
        assert(text.take(n) =~= text);
    }
}

/// The value of digits from `from` on, or nothing where it is `2^64` or more or something is no
/// digit.
pub fn digits_from(chars: &Vec<char>, from: usize) -> (r: Option<u64>)
    requires
        from <= chars@.len(),
    ensures
        r == if all_digits(chars@.skip(from as int)) && digits_value(chars@.skip(from as int))
            <= u64::MAX {
            Some(digits_value(chars@.skip(from as int)) as u64)
        } else {
            None
        },
{
    let ghost text = chars@.skip(from as int);
    if from == chars.len() {
        return None;
    }
    let mut value: u64 = 0;
    let mut i: usize = from;
    while i < chars.len()
        invariant
            from <= i <= chars@.len(),
            text == chars@.skip(from as int),
            forall|k: int| 0 <= k < i - from ==> is_digit(#[trigger] text[k]),
            value == digits_value(text.take(i - from)),
        decreases chars@.len() - i,
    {
        let c = chars[i];
        assert(text[i - from] == c);
        if !('0' <= c && c <= '9') {
            return None;
        }
        let d: u64 = (c as u32 - 48) as u64;
        assert(text.take(i - from + 1).drop_last() =~= text.take(i - from));
        assert(text.take(i - from + 1).last() == c);
        if value > (u64::MAX - d) / 10 {
            assert(digits_value(text.take(i - from + 1)) > u64::MAX);
            proof {
                if all_digits(text) {
                    lemma_digits_grow(text, i - from + 1);
                }
            }
            return None;
        }
        value = value * 10 + d;
        i = i + 1;
    }
    assert(text.take(text.len() as int) =~= text);
    Some(value)
}

/// [`i64_of_text`].
pub fn parse_i64(text: &str) -> (r: Option<i64>)
    ensures
        r == i64_of_text(text@),
{
    let chars = chars_of(text);
    assert(chars@.skip(0) =~= chars@);
    if chars.len() > 0 && chars[0] == '-' {
        match digits_from(&chars, 1) {
            Some(n) => if n <= 0x7fff_ffff_ffff_ffffu64 {
                Some(-(n as i64))
            } else if n == 0x8000_0000_0000_0000u64 {
                Some(i64::MIN)
            } else {
                None
            },
            None => None,
        }
    } else {
        let from: usize = if chars.len() > 0 && chars[0] == '+' { 1 } else { 0 };
        match digits_from(&chars, from) {
            Some(n) => if n <= 0x7fff_ffff_ffff_ffffu64 {
                Some(n as i64)
            } else {
                None
            },
            None => None,
        }
    }
}

pub proof fn lemma_numeral_digits(n: nat)
    ensures
        all_digits(numeral_in(n, 10)),
        digits_value(numeral_in(n, 10)) == n,
    decreases n,
{
    let text = numeral_in(n, 10);
    if n < 10 {
        assert(text.drop_last() =~= Seq::empty());
        assert(digits_value(text.drop_last()) == 0);
        assert(digit(n) as u32 == 48 + n);
    } else {
        lemma_numeral_digits(n / 10);
        assert(text.drop_last() =~= numeral_in(n / 10, 10));
        assert(digit(n % 10) as u32 == 48 + n % 10);
    }
}

/// An integer is read back from its numeral.
pub proof fn numeral_reads_back(n: int)
    ensures
        integer_in_text(decimal(n)) == Some(n),
{
    if n < 0 {
        lemma_numeral_digits((-n) as nat);
        assert(decimal(n).skip(1) =~= numeral_in((-n) as nat, 10));
    } else {
        lemma_numeral_digits(n as nat);
        let text = numeral_in(n as nat, 10);
        assert(is_digit(text[0]));
    }
}

/// `a` followed by `b`.
pub fn concat(a: &str, b: &str) -> (out: String)
    ensures
        out@ == a@ + b@,
{
    let mut out = a.to_owned();
    out.append(b);
    out
}

/// `a`, `b` and `c` in a row.
pub fn concat3(a: &str, b: &str, c: &str) -> (out: String)
    ensures
        out@ == a@ + b@ + c@,
{
    let mut out = a.to_owned();
    out.append(b);
    out.append(c);
    out
}

} // verus!
