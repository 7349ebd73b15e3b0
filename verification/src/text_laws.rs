//! What trimming and cutting leave of a text.
use vstd::prelude::*;
use crate::text::{
    ascii_lower, blank, head, js_trimmed, same_ignoring_case, tail, trim_back, trim_front, trimmed,
};

verus! {

/// The text is a stretch of another, with nothing but blanks before and behind it and none at its
/// own ends.
pub open spec fn stripped(text: Seq<char>, whole: Seq<char>, bom: bool) -> bool {
    &&& exists|a: int, b: int|
        #![trigger whole.subrange(a, b)]
        0 <= a <= b <= whole.len() && text == whole.subrange(a, b) && (forall|i: int|
            0 <= i < a || b <= i < whole.len() ==> blank(#[trigger] whole[i], bom))
    &&& text.len() > 0 ==> !blank(text[0], bom) && !blank(text.last(), bom)
}

proof fn lemma_trim_front(text: Seq<char>, bom: bool)
    ensures
        ({
            let n = text.len() - trim_front(text, bom).len();
            &&& 0 <= n
            &&& trim_front(text, bom) == text.subrange(n, text.len() as int)
            &&& forall|i: int| 0 <= i < n ==> blank(#[trigger] text[i], bom)
            &&& trim_front(text, bom).len() > 0 ==> !blank(trim_front(text, bom)[0], bom)
        }),
    decreases text.len(),
{
    if text.len() > 0 && blank(text[0], bom) {
        let rest = text.drop_first();
        lemma_trim_front(rest, bom);
        let n = text.len() - trim_front(text, bom).len();
        assert(rest.subrange(n - 1, rest.len() as int) =~= text.subrange(n, text.len() as int));
        assert forall|i: int| 0 <= i < n implies blank(#[trigger] text[i], bom) by {
            if i > 0 {
                assert(rest[i - 1] == text[i]);
            }
        }
    } else {
        assert(text.subrange(0, text.len() as int) =~= text);
    }
}

proof fn lemma_trim_back(text: Seq<char>, bom: bool)
    ensures
        ({
            let n = trim_back(text, bom).len() as int;
            &&& n <= text.len()
            &&& trim_back(text, bom) == text.subrange(0, n)
            &&& forall|i: int| n <= i < text.len() ==> blank(#[trigger] text[i], bom)
            &&& n > 0 ==> !blank(text[n - 1], bom)
        }),
    decreases text.len(),
{
    if text.len() > 0 && blank(text.last(), bom) {
        let short = text.drop_last();
        lemma_trim_back(short, bom);
        let n = trim_back(text, bom).len() as int;
        assert(short.subrange(0, n) =~= text.subrange(0, n));
        assert forall|i: int| n <= i < text.len() implies blank(#[trigger] text[i], bom) by {
            if i < short.len() {
                assert(short[i] == text[i]);
            }
        }
    } else {
        assert(text.subrange(0, text.len() as int) =~= text);
    }
}

proof fn lemma_stripped(text: Seq<char>, bom: bool)
    ensures
        stripped(trim_back(trim_front(text, bom), bom), text, bom),
{
    lemma_trim_front(text, bom);
    let f = trim_front(text, bom);
    lemma_trim_back(f, bom);
    let r = trim_back(f, bom);
    let a = text.len() - f.len();
    let b = a + r.len();
    assert(r =~= text.subrange(a, b));
    assert forall|i: int| 0 <= i < a || b <= i < text.len() implies blank(#[trigger] text[i], bom) by {
        if b <= i {
            assert(f[i - a] == text[i]);
        }
    }
}

/// Trimming takes the blanks off both ends, all of them and nothing else.
pub proof fn trimming_takes_the_blanks(text: Seq<char>)
    ensures
        stripped(trimmed(text), text, false),
        stripped(js_trimmed(text), text, true),
{
    lemma_stripped(text, false);
    lemma_stripped(text, true);
}

/// The first and the last characters of a text, or all of it where it is shorter.
pub proof fn ends_of_a_text(text: Seq<char>, limit: nat)
    ensures
        text.len() <= limit ==> head(text, limit) == text && tail(text, limit) == text,
        text.len() > limit ==> head(text, limit).len() == limit && tail(text, limit).len() == limit
            && text == head(text, limit) + text.skip(limit as int) && text == text.take(
            text.len() - limit,
        ) + tail(text, limit),
{
    if text.len() > limit {
        assert(text =~= head(text, limit) + text.skip(limit as int));
        assert(text =~= text.take(text.len() - limit) + tail(text, limit));
    }
}

/// Two texts are the same but for case exactly where they are as long as each other and differ
/// only in whether ASCII letters are capitals.
pub proof fn case_is_all_that_differs(a: Seq<char>, b: Seq<char>)
    ensures
        same_ignoring_case(a, b) <==> a.len() == b.len() && forall|i: int|
            0 <= i < a.len() ==> {
                let c = #[trigger] a[i];
                let d = b[i];
                ||| c == d
                ||| 'A' <= c <= 'Z' && d as int == c as int + 32
                ||| 'A' <= d <= 'Z' && c as int == d as int + 32
            },
{
    assert forall|c: char, d: char|
        #![trigger ascii_lower(c), ascii_lower(d)]
        ascii_lower(c) == ascii_lower(d) <==> (c == d || ('A' <= c <= 'Z' && d as int == c as int
            + 32) || ('A' <= d <= 'Z' && c as int == d as int + 32)) by {
        lemma_same_letter(c, d);
    }
    if same_ignoring_case(a, b) {
        assert forall|i: int| 0 <= i < a.len() implies {
            let c = #[trigger] a[i];
            let d = b[i];
            ||| c == d
            ||| 'A' <= c <= 'Z' && d as int == c as int + 32
            ||| 'A' <= d <= 'Z' && c as int == d as int + 32
        } by {
            assert(ascii_lower(a[i]) == ascii_lower(b[i]));
        }
    }
}

proof fn lemma_same_letter(c: char, d: char)
    ensures
        ascii_lower(c) == ascii_lower(d) <==> (c == d || ('A' <= c <= 'Z' && d as int == c as int
            + 32) || ('A' <= d <= 'Z' && c as int == d as int + 32)),
{
}

} // verus!
