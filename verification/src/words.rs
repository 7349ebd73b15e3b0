//! Lists of owned texts.
use vstd::prelude::*;
use crate::text::same;

verus! {

/// The plain values of some owned texts.
pub open spec fn words(v: Seq<String>) -> Seq<Seq<char>> {
    v.map_values(|s: String| s@)
}

/// Puts a text at the end of a list.
pub fn push_word(list: &mut Vec<String>, s: String)
    ensures
        words(final(list)@) == words(old(list)@).push(s@),
{
    let ghost before = list@;
    list.push(s);
    assert(words(list@) =~= words(before).push(s@));
}

/// Whether a list holds a text.
pub fn holds_word(list: &Vec<String>, s: &str) -> (r: bool)
    ensures
        r == words(list@).contains(s@),
{
    for i in 0..list.len()
        invariant
            forall|k: int| 0 <= k < i ==> words(list@)[k] != s@,
    {
        assert(words(list@)[i as int] == list@[i as int]@);
        if same(list[i].as_str(), s) {
            return true;
        }
    }
    false
}

/// Texts with a separator between them.
pub open spec fn joined(items: Seq<Seq<char>>, separator: Seq<char>) -> Seq<char>
    decreases items.len(),
{
    if items.len() == 0 {
        Seq::empty()
    } else if items.len() == 1 {
        items[0]
    } else {
        joined(items.drop_last(), separator) + separator + items.last()
    }
}

/// [`joined`].
pub fn join(items: &Vec<String>, separator: &str) -> (out: String)
    ensures
        out@ == joined(words(items@), separator@),
{
    let ghost all = words(items@);
    let mut out = String::new();
    assert(out@ =~= joined(all.take(0), separator@));
    for i in 0..items.len()
        invariant
            all == words(items@),
            out@ == joined(all.take(i as int), separator@),
    {
        assert(all.take(i + 1).drop_last() =~= all.take(i as int));
        assert(all.take(i + 1).last() == items@[i as int]@);
        if i == 0 {
            out = items[i].clone();
        } else {
            out.append(separator);
            out.append(items[i].as_str());
        }
    }
    assert(all.take(all.len() as int) =~= all);
    out
}

} // verus!
