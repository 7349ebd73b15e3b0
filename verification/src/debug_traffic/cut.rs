//! Cutting what is too large: a text at a character, a JSON value inside its structure.
use vstd::prelude::*;
use crate::json::{
    find, find_of_put, list_view, push_value, put, render_json, text_of_json, Fields, Json,
    JsonValue, Object,
};
use crate::text::{chars_of, text_between};

verus! {

// ─── Sizes ───────────────────────────────────────────────────

/// How many bytes a character takes in UTF-8.
pub open spec fn char_bytes(c: char) -> nat {
    let n = c as u32;
    if n < 0x80 {
        1
    } else if n < 0x800 {
        2
    } else if n < 0x1_0000 {
        3
    } else {
        4
    }
}

/// How many bytes a text takes in UTF-8.
pub open spec fn byte_len(text: Seq<char>) -> nat
    decreases text.len(),
{
    if text.len() == 0 {
        0
    } else {
        byte_len(text.drop_last()) + char_bytes(text.last())
    }
}

/// How many bytes the text of a value takes.
pub open spec fn json_len(v: Json) -> nat {
    byte_len(text_of_json(v))
}

proof fn lemma_byte_len(text: Seq<char>)
    ensures
        text.len() <= byte_len(text) <= 4 * text.len(),
    decreases text.len(),
{
    if text.len() > 0 {
        lemma_byte_len(text.drop_last());
    }
}

proof fn lemma_byte_len_grows(text: Seq<char>, n: int)
    requires
        0 <= n <= text.len(),
    ensures
        byte_len(text.take(n)) <= byte_len(text),
    decreases text.len() - n,
{
    if n < text.len() {
        assert(text.take(n + 1).drop_last() =~= text.take(n));
        lemma_byte_len_grows(text, n + 1);
    } else {
        assert(text.take(n) =~= text);
    }
}

pub proof fn lemma_byte_len_joined(a: Seq<char>, b: Seq<char>)
    ensures
        byte_len(a + b) == byte_len(a) + byte_len(b),
    decreases b.len(),
{
    if b.len() == 0 {
        assert(a + b =~= a);
    } else {
        assert((a + b).drop_last() =~= a + b.drop_last());
        lemma_byte_len_joined(a, b.drop_last());
    }
}

fn bytes_of_char(c: char) -> (n: u128)
    ensures
        n == char_bytes(c),
{
    let k: u32 = c as u32;
    if k < 0x80 {
        1
    } else if k < 0x800 {
        2
    } else if k < 0x1_0000 {
        3
    } else {
        4
    }
}

/// [`byte_len`].
pub fn bytes_of(text: &str) -> (n: u128)
    ensures
        n == byte_len(text@),
        n <= 4 * usize::MAX,
{
    let chars = chars_of(text);
    let mut n: u128 = 0;
    for i in 0..chars.len()
        invariant
            n == byte_len(chars@.take(i as int)),
            n <= 4 * i,
    {
        assert(chars@.take(i + 1).drop_last() =~= chars@.take(i as int));
        n = n + bytes_of_char(chars[i]);
    }
    assert(chars@.take(chars@.len() as int) =~= chars@);
    n
}

fn bytes_of_json(v: &JsonValue) -> (n: u128)
    ensures
        n == json_len(v@),
        n <= 4 * usize::MAX,
{
    bytes_of(render_json(v).as_str())
}

// ─── Cutting texts ───────────────────────────────────────────

/// As much of a text from its start as fits a number of bytes.
pub open spec fn fitting(text: Seq<char>, most: nat) -> Seq<char>
    decreases text.len(),
{
    if byte_len(text) <= most || text.len() == 0 {
        text
    } else {
        fitting(text.drop_last(), most)
    }
}

/// A text that fits, or as much of it as fits with a mark behind it.
pub open spec fn cut_text(text: Seq<char>, most: nat) -> Seq<char> {
    if byte_len(text) <= most {
        text
    } else {
        fitting(text, most).push('…')
    }
}

proof fn lemma_fitting(text: Seq<char>, most: nat, n: int)
    requires
        0 <= n < text.len(),
        byte_len(text.take(n)) <= most,
        byte_len(text.take(n + 1)) > most,
    ensures
        fitting(text, most) == text.take(n),
    decreases text.len(),
{
    lemma_byte_len_grows(text, n + 1);
    let rest = text.drop_last();
    if n + 1 < text.len() {
        assert(rest.take(n) =~= text.take(n));
        assert(rest.take(n + 1) =~= text.take(n + 1));
        lemma_fitting(rest, most, n);
    } else {
        assert(rest =~= text.take(n));
        assert(text.take(n + 1) =~= text);
        assert(fitting(rest, most) == rest);
    }
}

/// What is cut starts as it did, and takes at most the mark more than it may.
pub proof fn cut_texts_fit(text: Seq<char>, most: nat)
    ensures
        byte_len(cut_text(text, most)) <= most + 3,
        fitting(text, most).is_prefix_of(text),
        byte_len(fitting(text, most)) <= most,
    decreases text.len(),
{
    if byte_len(text) > most {
        cut_texts_fit(text.drop_last(), most);
        let kept = fitting(text, most);
        assert(kept.push('…').drop_last() =~= kept);
        let rest = text.drop_last();
        assert(fitting(rest, most).is_prefix_of(text)) by {
            let f = fitting(rest, most);
            assert forall|i: int| 0 <= i < f.len() implies f[i] == text[i] by {
                assert(f[i] == rest[i]);
            }
            assert(text.subrange(0, f.len() as int) =~= f);
        }
    }
}

/// [`cut_text`].
pub fn truncate_chars(text: &str, max_bytes: usize) -> (out: String)
    ensures
        out@ == cut_text(text@, max_bytes as nat),
{
    if bytes_of(text) <= max_bytes as u128 {
        return text.to_owned();
    }
    let chars = chars_of(text);
    let mut used: u128 = 0;
    let mut n: usize = 0;
    assert(byte_len(text@) > max_bytes);
    while n < chars.len() && used + bytes_of_char(chars[n]) <= max_bytes as u128
        invariant
            chars@ == text@,
            n <= chars@.len(),
            used == byte_len(chars@.take(n as int)),
            used <= max_bytes,
            byte_len(text@) > max_bytes,
        decreases chars@.len() - n,
    {
        assert(chars@.take(n + 1).drop_last() =~= chars@.take(n as int));
        used = used + bytes_of_char(chars[n]);
        n = n + 1;
    }
    proof {
        if n == chars@.len() {
            assert(chars@.take(n as int) =~= chars@);
        } else {
            assert(chars@.take(n + 1).drop_last() =~= chars@.take(n as int));
            lemma_fitting(text@, max_bytes as nat, n as int);
        }
    }
    let mut out = text_between(&chars, 0, n);
    assert(out@ =~= text@.take(n as int));
    out.push('…');
    out
}

// ─── Cutting values ──────────────────────────────────────────

pub open spec fn note() -> Json {
    Json::Str("…（内容过大，调试模式已截断）"@)
}

/// How many bytes the values of the first `n` entries take.
pub open spec fn values_len(o: Fields, n: nat) -> nat
    decreases n,
{
    if n == 0 {
        0
    } else {
        values_len(o, (n - 1) as nat) + json_len(o[n - 1].1)
    }
}

/// The even share of an object's values.
pub open spec fn even_share(o: Fields, most: nat) -> nat {
    most / (if o.len() == 0 {
        1
    } else {
        o.len()
    })
}

/// How many bytes those of the first `n` values take that stay within a share.
pub open spec fn small_len(o: Fields, share: nat, n: nat) -> nat
    decreases n,
{
    if n == 0 {
        0
    } else {
        small_len(o, share, (n - 1) as nat) + if json_len(o[n - 1].1) <= share {
            json_len(o[n - 1].1)
        } else {
            0
        }
    }
}

/// How many of the first `n` values go beyond a share.
pub open spec fn big_count(o: Fields, share: nat, n: nat) -> nat
    decreases n,
{
    if n == 0 {
        0
    } else {
        big_count(o, share, (n - 1) as nat) + if json_len(o[n - 1].1) <= share {
            0nat
        } else {
            1nat
        }
    }
}

/// What each value that is too large may take: an even part of what the others leave.
pub open spec fn large_share(o: Fields, most: nat) -> nat {
    let share = even_share(o, most);
    let small = small_len(o, share, o.len());
    let big = big_count(o, share, o.len());
    let left = if small <= most {
        (most - small) as nat
    } else {
        0
    };
    let each = left / (if big == 0 {
        1
    } else {
        big
    });
    if each < 1024 {
        1024
    } else {
        each
    }
}

/// How many bytes the first `n` items of a list take in its text, with the opening.
pub open spec fn head_len(items: Seq<Json>, n: nat) -> nat
    decreases n,
{
    if n == 0 {
        2
    } else {
        head_len(items, (n - 1) as nat) + json_len(items[n - 1]) + 1
    }
}

/// How many bytes the last `n` items of a list take in its text.
pub open spec fn tail_len(items: Seq<Json>, n: nat) -> nat
    decreases n,
{
    if n == 0 {
        0
    } else {
        tail_len(items, (n - 1) as nat) + json_len(items[items.len() - n]) + 1
    }
}

/// The most items from the start, up to `n`, that fit.
pub open spec fn head_count(items: Seq<Json>, most: nat, n: nat) -> nat
    decreases n,
{
    if n == 0 || head_len(items, n) <= most {
        n
    } else {
        head_count(items, most, (n - 1) as nat)
    }
}

/// The most items from the end, up to `n`, that fit beside `used` bytes.
pub open spec fn tail_count(items: Seq<Json>, used: nat, most: nat, n: nat) -> nat
    decreases n,
{
    if n == 0 || used + tail_len(items, n) <= most {
        n
    } else {
        tail_count(items, used, most, (n - 1) as nat)
    }
}

/// How many items of a list stay at its start: three quarters are theirs.
pub open spec fn kept_head(items: Seq<Json>, most: nat) -> nat {
    head_count(items, most * 3 / 4, items.len())
}

/// How many items of a list stay at its end.
pub open spec fn kept_tail(items: Seq<Json>, most: nat) -> nat {
    let h = kept_head(items, most);
    tail_count(items, head_len(items, h), most, (items.len() - h) as nat)
}

/// A value that is too large, cut inside its structure. Of an object every key stays, and the
/// values that are too large are cut; of a list the start and the end stay, with a note between
/// them; of a list whose first item is too large, that item is cut.
pub open spec fn cut_value(v: Json, most: nat) -> Json
    decreases v,
{
    match v {
        Json::Str(s) => Json::Str(cut_text(s, most)),
        Json::Obj(o) => if values_len(o, o.len()) <= most {
            v
        } else {
            Json::Obj(put(cut_fields(o, most), "_truncated"@, note()))
        },
        Json::Arr(items) => {
            let h = kept_head(items, most);
            let t = kept_tail(items, most);
            if items.len() == 0 {
                v
            } else if h == 0 {
                Json::Arr(
                    seq![
                        cut_value(
                            items[0],
                            if most >= 2 {
                                (most - 2) as nat
                            } else {
                                0
                            },
                        ),
                        note(),
                    ],
                )
            } else if h + t < items.len() {
                Json::Arr(items.take(h as int).push(note()) + items.skip(items.len() - t))
            } else {
                v
            }
        },
        _ => v,
    }
}

/// The entries of an object with the values that are too large cut.
pub open spec fn cut_fields(o: Fields, most: nat) -> Fields
    decreases o,
{
    Seq::new(
        o.len(),
        |i: int|
            if 0 <= i < o.len() {
                (
                    o[i].0,
                    if json_len(o[i].1) <= even_share(o, most) {
                        o[i].1
                    } else {
                        cut_value(o[i].1, large_share(o, most))
                    },
                )
            } else {
                (Seq::empty(), Json::Null)
            },
    )
}

proof fn lemma_head_grows(items: Seq<Json>, a: nat, b: nat)
    requires
        a <= b <= items.len(),
    ensures
        head_len(items, a) <= head_len(items, b),
    decreases b,
{
    if a < b {
        lemma_head_grows(items, a, (b - 1) as nat);
    }
}

proof fn lemma_tail_grows(items: Seq<Json>, a: nat, b: nat)
    requires
        a <= b <= items.len(),
    ensures
        tail_len(items, a) <= tail_len(items, b),
    decreases b,
{
    if a < b {
        lemma_tail_grows(items, a, (b - 1) as nat);
    }
}

proof fn lemma_head_count(items: Seq<Json>, most: nat, k: nat, n: nat)
    requires
        k <= n <= items.len(),
        k == 0 || head_len(items, k) <= most,
        k == items.len() || head_len(items, k + 1) > most,
    ensures
        head_count(items, most, n) == k,
    decreases n,
{
    if k < n {
        lemma_head_grows(items, k + 1, n);
        lemma_head_count(items, most, k, (n - 1) as nat);
    }
}

proof fn lemma_tail_count(items: Seq<Json>, used: nat, most: nat, k: nat, n: nat)
    requires
        k <= n <= items.len(),
        k == 0 || used + tail_len(items, k) <= most,
        k == n || used + tail_len(items, k + 1) > most,
    ensures
        tail_count(items, used, most, n) == k,
    decreases n,
{
    if k < n {
        lemma_tail_grows(items, k + 1, n);
        if k < n - 1 {
            lemma_tail_count(items, used, most, k, (n - 1) as nat);
        } else {
            assert(tail_count(items, used, most, k) == k);
        }
    }
}

proof fn lemma_counts(items: Seq<Json>, most: nat, n: nat)
    ensures
        head_count(items, most, n) <= n,
    decreases n,
{
    if n > 0 {
        lemma_counts(items, most, (n - 1) as nat);
    }
}

proof fn lemma_tail_counts(items: Seq<Json>, used: nat, most: nat, n: nat)
    ensures
        tail_count(items, used, most, n) <= n,
    decreases n,
{
    if n > 0 {
        lemma_tail_counts(items, used, most, (n - 1) as nat);
    }
}

/// Of an object that is cut every key stays, in its place, and so does every value within the even
/// share.
pub proof fn cutting_keeps_every_key(o: Fields, most: nat, i: int)
    requires
        0 <= i < o.len(),
        values_len(o, o.len()) > most,
        find(o, "_truncated"@) is None,
    ensures
        ({
            let after = cut_value(Json::Obj(o), most)->Obj_0;
            &&& after.len() == o.len() + 1
            &&& after[i].0 == o[i].0
            &&& json_len(o[i].1) <= even_share(o, most) ==> after[i].1 == o[i].1
            &&& find(after, "_truncated"@) == Some(note())
        }),
{
    let cut = cut_fields(o, most);
    find_of_put(cut, "_truncated"@, note(), "_truncated"@);
    assert(find(cut, "_truncated"@) is None) by {
        lemma_same_keys(o, cut, "_truncated"@);
    }
}

proof fn lemma_same_keys(a: Fields, b: Fields, key: Seq<char>)
    requires
        a.len() == b.len(),
        forall|i: int| 0 <= i < a.len() ==> (#[trigger] a[i]).0 == b[i].0,
    ensures
        find(a, key) is None <==> find(b, key) is None,
    decreases a.len(),
{
    if a.len() > 0 {
        assert(a.last().0 == b.last().0) by {
            assert(a[a.len() - 1].0 == b[a.len() - 1].0);
        }
        assert forall|i: int| 0 <= i < a.drop_last().len() implies (#[trigger] a.drop_last()[i]).0
            == b.drop_last()[i].0 by {
            assert(a[i].0 == b[i].0);
        }
        lemma_same_keys(a.drop_last(), b.drop_last(), key);
    }
}

/// Of a list that is cut the first items stay first and the last items stay last.
pub proof fn cutting_keeps_both_ends(items: Seq<Json>, most: nat, i: int)
    requires
        kept_head(items, most) > 0,
        0 <= i,
    ensures
        ({
            let after = cut_value(Json::Arr(items), most)->Arr_0;
            let h = kept_head(items, most);
            let t = kept_tail(items, most);
            &&& h + t <= items.len()
            &&& after.len() <= items.len()
            &&& i < h ==> after[i] == items[i]
            &&& i < t ==> after[after.len() - 1 - i] == items[items.len() - 1 - i]
        }),
{
    lemma_counts(items, most * 3 / 4, items.len());
    let h = kept_head(items, most);
    lemma_tail_counts(items, head_len(items, h), most, (items.len() - h) as nat);
}

proof fn lemma_values_grow(o: Fields, a: nat, b: nat)
    requires
        a <= b <= o.len(),
    ensures
        values_len(o, a) <= values_len(o, b),
    decreases b,
{
    if a < b {
        lemma_values_grow(o, a, (b - 1) as nat);
    }
}

proof fn lemma_small_len(o: Fields, share: nat, n: nat)
    requires
        n <= o.len(),
    ensures
        small_len(o, share, n) <= n * share,
        big_count(o, share, n) <= n,
    decreases n,
{
    if n > 0 {
        lemma_small_len(o, share, (n - 1) as nat);
        assert(n * share == (n - 1) * share + share) by (nonlinear_arith);
    }
}

/// What the values within the even share take is within the bound.
proof fn lemma_small_fits(o: Fields, most: nat, n: nat)
    requires
        n <= o.len(),
        o.len() > 0,
    ensures
        small_len(o, even_share(o, most), n) <= most,
{
    let share = even_share(o, most);
    lemma_small_len(o, share, n);
    let len = o.len();
    assert(n * share <= len * share) by (nonlinear_arith)
        requires
            n <= len,
    ;
    assert(len * (most / len) <= most) by (nonlinear_arith)
        requires
            len > 0,
    ;
}

fn sizes_of(o: &Object) -> (out: Vec<u128>)
    ensures
        out@.len() == o@.len(),
        forall|i: int|
            0 <= i < o@.len() ==> #[trigger] out@[i] == json_len(o@[i].1) && out@[i] <= 4
                * usize::MAX,
{
    let mut out: Vec<u128> = Vec::new();
    for i in 0..o.entries.len()
        invariant
            out@.len() == i,
            forall|k: int|
                0 <= k < i ==> #[trigger] out@[k] == json_len(o@[k].1) && out@[k] <= 4 * usize::MAX,
    {
        out.push(bytes_of_json(&o.entries[i].1));
    }
    out
}

fn fits_within(o: &Object, sizes: &Vec<u128>, most: usize) -> (r: bool)
    requires
        sizes@.len() == o@.len(),
        forall|i: int|
            0 <= i < o@.len() ==> #[trigger] sizes@[i] == json_len(o@[i].1) && sizes@[i] <= 4
                * usize::MAX,
    ensures
        r == (values_len(o@, o@.len()) <= most),
{
    let mut used: u128 = 0;
    for i in 0..sizes.len()
        invariant
            sizes@.len() == o@.len(),
            forall|k: int|
                0 <= k < o@.len() ==> #[trigger] sizes@[k] == json_len(o@[k].1) && sizes@[k] <= 4
                    * usize::MAX,
            used == values_len(o@, i as nat),
            used <= most,
    {
        used = used + sizes[i];
        if used > most as u128 {
            proof {
                lemma_values_grow(o@, (i + 1) as nat, o@.len());
            }
            return false;
        }
    }
    true
}

fn share_of_large(o: &Object, sizes: &Vec<u128>, share: usize, most: usize) -> (r: usize)
    requires
        o@.len() > 0,
        share == even_share(o@, most as nat),
        sizes@.len() == o@.len(),
        forall|i: int|
            0 <= i < o@.len() ==> #[trigger] sizes@[i] == json_len(o@[i].1) && sizes@[i] <= 4
                * usize::MAX,
    ensures
        r == large_share(o@, most as nat),
{
    let mut small: usize = 0;
    let mut big: usize = 0;
    for i in 0..sizes.len()
        invariant
            o@.len() > 0,
            share == even_share(o@, most as nat),
            sizes@.len() == o@.len(),
            forall|k: int|
                0 <= k < o@.len() ==> #[trigger] sizes@[k] == json_len(o@[k].1) && sizes@[k] <= 4
                    * usize::MAX,
            small == small_len(o@, share as nat, i as nat),
            big == big_count(o@, share as nat, i as nat),
            big <= i,
    {
        proof {
            lemma_small_fits(o@, most as nat, (i + 1) as nat);
        }
        if sizes[i] <= share as u128 {
            small = small + sizes[i] as usize;
        } else {
            big = big + 1;
        }
    }
    proof {
        lemma_small_fits(o@, most as nat, o@.len());
    }
    let each: usize = (most - small) / (if big == 0 { 1 } else { big });
    if each < 1024 {
        1024
    } else {
        each
    }
}

fn count_head(items: &Vec<JsonValue>, most: usize) -> (r: (usize, u128))
    ensures
        r.0 == kept_head(list_view(*items), most as nat),
        r.0 <= items@.len(),
        r.1 == head_len(list_view(*items), r.0 as nat),
        r.0 > 0 ==> r.1 <= most,
{
    let ghost all = list_view(*items);
    let budget: u128 = most as u128 * 3 / 4;
    let mut used: u128 = 2;
    let mut n: usize = 0;
    while n < items.len()
        invariant
            all == list_view(*items),
            n <= items@.len(),
            used == head_len(all, n as nat),
            budget == most as nat * 3 / 4,
            budget <= most,
            n == 0 || used <= budget,
            n == 0 ==> used == 2,
        decreases items@.len() - n,
    {
        let size: u128 = bytes_of_json(&items[n]) + 1;
        assert(all[n as int] == items@[n as int]@);
        assert(head_len(all, (n + 1) as nat) == used + size);
        if used + size > budget {
            proof {
                lemma_head_count(all, most as nat * 3 / 4, n as nat, all.len());
            }
            return (n, used);
        }
        used = used + size;
        n = n + 1;
    }
    proof {
        lemma_head_count(all, most as nat * 3 / 4, n as nat, all.len());
    }
    (n, used)
}

fn count_tail(items: &Vec<JsonValue>, head: usize, used: u128, most: usize) -> (r: usize)
    requires
        head == kept_head(list_view(*items), most as nat),
        0 < head <= items@.len(),
        used == head_len(list_view(*items), head as nat),
        used <= most,
    ensures
        r == kept_tail(list_view(*items), most as nat),
        r <= items@.len() - head,
{
    let ghost all = list_view(*items);
    let room: usize = items.len() - head;
    let mut taken: u128 = 0;
    let mut n: usize = 0;
    while n < room
        invariant
            all == list_view(*items),
            head <= items@.len(),
            room == items@.len() - head,
            n <= room,
            taken == tail_len(all, n as nat),
            used + taken <= most,
            used == head_len(all, head as nat),
            head == kept_head(all, most as nat),
        decreases room - n,
    {
        let at: usize = items.len() - 1 - n;
        let size: u128 = bytes_of_json(&items[at]) + 1;
        assert(all[at as int] == items@[at as int]@);
        assert(tail_len(all, (n + 1) as nat) == taken + size);
        if used + taken + size > most as u128 {
            proof {
                lemma_tail_count(all, used as nat, most as nat, n as nat, room as nat);
            }
            return n;
        }
        taken = taken + size;
        n = n + 1;
    }
    proof {
        lemma_tail_count(all, used as nat, most as nat, n as nat, room as nat);
    }
    n
}

fn note_value() -> (out: JsonValue)
    ensures
        out@ == note(),
{
    JsonValue::text("…（内容过大，调试模式已截断）")
}

fn push_some(out: &mut Vec<JsonValue>, items: &Vec<JsonValue>, from: usize, to: usize)
    requires
        from <= to <= items@.len(),
    ensures
        list_view(*final(out)) == list_view(*old(out)) + list_view(*items).subrange(
            from as int,
            to as int,
        ),
{
    let ghost start = list_view(*out);
    let ghost all = list_view(*items);
    assert(start + all.subrange(from as int, from as int) =~= start);
    for i in from..to
        invariant
            from <= i <= to <= items@.len(),
            all == list_view(*items),
            list_view(*out) == start + all.subrange(from as int, i as int),
    {
        assert(all[i as int] == items@[i as int]@);
        push_value(out, items[i].dup());
        assert(list_view(*out) =~= start + all.subrange(from as int, i + 1));
    }
}

fn truncate_object(o: &Object, most: usize) -> (out: Object)
    requires
        values_len(o@, o@.len()) > most,
    ensures
        out@ == put(cut_fields(o@, most as nat), "_truncated"@, note()),
    decreases o,
{
    let sizes = sizes_of(o);
    assert(o@.len() > 0);
    let share: usize = most / o.entries.len();
    let each: usize = share_of_large(o, &sizes, share, most);
    let mut out = Object::new();
    let ghost all = cut_fields(o@, most as nat);
    assert(out@ =~= all.take(0));
    for i in 0..o.entries.len()
        invariant
            o@.len() > 0,
            share == even_share(o@, most as nat),
            each == large_share(o@, most as nat),
            sizes@.len() == o@.len(),
            forall|k: int| 0 <= k < o@.len() ==> #[trigger] sizes@[k] == json_len(o@[k].1),
            all == cut_fields(o@, most as nat),
            out@ == all.take(i as int),
    {
        assert(o@[i as int] == (o.entries@[i as int].0@, o.entries@[i as int].1@));
        let value = if sizes[i] <= share as u128 {
            o.entries[i].1.dup()
        } else {
            truncate_json_value(&o.entries[i].1, each)
        };
        out.push(o.entries[i].0.as_str(), value);
        assert(out@ =~= all.take(i + 1));
    }
    assert(all.take(all.len() as int) =~= all);
    out.insert("_truncated", note_value());
    out
}

fn truncate_list(items: &Vec<JsonValue>, most: usize) -> (out: JsonValue)
    ensures
        out@ == cut_value(Json::Arr(list_view(*items)), most as nat),
    decreases items,
{
    let ghost all = list_view(*items);
    if items.len() == 0 {
        return JsonValue::Arr(crate::json::dup_list(items));
    }
    let (head, used) = count_head(items, most);
    let mut kept: Vec<JsonValue> = Vec::new();
    assert(list_view(kept) =~= Seq::empty());
    if head == 0 {
        assert(all[0] == items@[0]@);
        let rest: usize = if most >= 2 {
            most - 2
        } else {
            0
        };
        push_value(&mut kept, truncate_json_value(&items[0], rest));
        push_value(&mut kept, note_value());
        assert(list_view(kept) =~= seq![cut_value(all[0], rest as nat), note()]);
        return JsonValue::Arr(kept);
    }
    let tail: usize = count_tail(items, head, used, most);
    if head + tail < items.len() {
        push_some(&mut kept, items, 0, head);
        push_value(&mut kept, note_value());
        push_some(&mut kept, items, items.len() - tail, items.len());
        assert(list_view(kept) =~= all.take(head as int).push(note()) + all.skip(all.len() - tail));
        return JsonValue::Arr(kept);
    }
    JsonValue::Arr(crate::json::dup_list(items))
}

/// [`cut_value`].
pub fn truncate_json_value(value: &JsonValue, max_bytes: usize) -> (out: JsonValue)
    ensures
        out@ == cut_value(value@, max_bytes as nat),
    decreases value,
{
    match value {
        JsonValue::Str(s) => JsonValue::Str(truncate_chars(s.as_str(), max_bytes)),
        JsonValue::Obj(o) => {
            let sizes = sizes_of(o);
            if fits_within(o, &sizes, max_bytes) {
                value.dup()
            } else {
                JsonValue::Obj(truncate_object(o, max_bytes))
            }
        },
        JsonValue::Arr(items) => truncate_list(items, max_bytes),
        _ => value.dup(),
    }
}

} // verus!
