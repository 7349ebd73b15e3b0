//! Stable ordering by a key of three integers.
use vstd::prelude::*;

verus! {

/// What records are put in order by: `rank` first, then `major`, then `minor`.
#[derive(Clone, Copy, PartialEq, Eq, Structural)]
pub struct SortKey {
    pub rank: u64,
    pub major: i64,
    pub minor: i64,
}

/// `a` comes no later than `b`.
pub open spec fn key_le(a: SortKey, b: SortKey) -> bool {
    a.rank < b.rank || (a.rank == b.rank && (a.major < b.major || (a.major == b.major && a.minor
        <= b.minor)))
}

/// Decides [`key_le`].
pub fn not_after(a: SortKey, b: SortKey) -> (r: bool)
    ensures
        r == key_le(a, b),
{
    a.rank < b.rank || (a.rank == b.rank && (a.major < b.major || (a.major == b.major && a.minor
        <= b.minor)))
}

/// `x` put into an ordered list of positions, behind all that come no later.
pub open spec fn insert_position(o: Seq<int>, x: int, keys: Seq<SortKey>) -> Seq<int>
    decreases o.len(),
{
    if o.len() == 0 || key_le(keys[o.last()], keys[x]) {
        o.push(x)
    } else {
        insert_position(o.drop_last(), x, keys).push(o.last())
    }
}

/// The first `n` positions in the order of their keys, equal keys in the order of position.
pub open spec fn order_prefix(keys: Seq<SortKey>, n: nat) -> Seq<int>
    decreases n,
{
    if n == 0 {
        Seq::empty()
    } else {
        insert_position(order_prefix(keys, (n - 1) as nat), n - 1, keys)
    }
}

/// All positions in the order of their keys, equal keys in the order of position.
pub open spec fn stable_order(keys: Seq<SortKey>) -> Seq<int> {
    order_prefix(keys, keys.len())
}

/// What it is for a list of positions to be a stable sort of the first `n` keys.
pub open spec fn sorts(o: Seq<int>, keys: Seq<SortKey>, n: nat) -> bool {
    &&& o.len() == n
    &&& forall|i: int| 0 <= i < n ==> 0 <= #[trigger] o[i] < n
    &&& forall|i: int, j: int|
        0 <= i < j < n ==> key_le(keys[#[trigger] o[i]], keys[#[trigger] o[j]]) && o[i] != o[j] && (
        keys[o[i]] == keys[o[j]] ==> o[i] < o[j])
}

proof fn lemma_insert_sorts(o: Seq<int>, x: int, keys: Seq<SortKey>)
    requires
        forall|i: int| 0 <= i < o.len() ==> 0 <= #[trigger] o[i] < x,
        forall|i: int, j: int|
            0 <= i < j < o.len() ==> key_le(keys[#[trigger] o[i]], keys[#[trigger] o[j]]) && o[i]
                != o[j] && (keys[o[i]] == keys[o[j]] ==> o[i] < o[j]),
        0 <= x,
    ensures
        ({
            let r = insert_position(o, x, keys);
            &&& r.len() == o.len() + 1
            &&& forall|i: int| 0 <= i < r.len() ==> 0 <= #[trigger] r[i] <= x
            &&& forall|i: int| 0 <= i < r.len() ==> #[trigger] r[i] == x || o.contains(r[i])
            &&& forall|i: int, j: int|
                0 <= i < j < r.len() ==> key_le(keys[#[trigger] r[i]], keys[#[trigger] r[j]])
                    && r[i] != r[j] && (keys[r[i]] == keys[r[j]] ==> r[i] < r[j])
        }),
    decreases o.len(),
{
    let r = insert_position(o, x, keys);
    if o.len() == 0 || key_le(keys[o.last()], keys[x]) {
        assert forall|i: int| 0 <= i < r.len() implies #[trigger] r[i] == x || o.contains(r[i]) by {
            if i < o.len() {
                assert(o[i] == r[i]);
            }
        }
    } else {
        let short = o.drop_last();
        lemma_insert_sorts(short, x, keys);
        let inner = insert_position(short, x, keys);
        assert forall|i: int| 0 <= i < r.len() implies #[trigger] r[i] == x || o.contains(r[i]) by {
            if i < inner.len() {
                assert(inner[i] == r[i]);
                if r[i] != x {
                    let k = choose|k: int| 0 <= k < short.len() && short[k] == r[i];
                    assert(o[k] == r[i]);
                }
            } else {
                assert(o[o.len() - 1] == r[i]);
            }
        }
        assert forall|i: int, j: int| 0 <= i < j < r.len() implies key_le(
            keys[#[trigger] r[i]],
            keys[#[trigger] r[j]],
        ) && r[i] != r[j] && (keys[r[i]] == keys[r[j]] ==> r[i] < r[j]) by {
            assert(inner[i] == r[i]);
            if j < inner.len() {
                assert(inner[j] == r[j]);
            } else if r[i] != x {
                let k = choose|k: int| 0 <= k < short.len() && short[k] == r[i];
                assert(o[k] == r[i]);
                assert(r[j] == o[o.len() - 1]);
            }
        }
    }
}

proof fn lemma_prefix_sorts(keys: Seq<SortKey>, n: nat)
    requires
        n <= keys.len(),
    ensures
        sorts(order_prefix(keys, n), keys, n),
    decreases n,
{
    if n > 0 {
        lemma_prefix_sorts(keys, (n - 1) as nat);
        lemma_insert_sorts(order_prefix(keys, (n - 1) as nat), n - 1, keys);
    }
}

/// The order lists every position once, by key, and keeps equal keys in their order.
pub proof fn order_is_stable_sort(keys: Seq<SortKey>)
    ensures
        sorts(stable_order(keys), keys, keys.len()),
{
    lemma_prefix_sorts(keys, keys.len());
}

/// A list of `n` different positions below `n` holds each of them.
pub proof fn lemma_all_positions(o: Seq<int>, n: nat, x: int)
    requires
        o.len() == n,
        0 <= x < n,
        forall|i: int| 0 <= i < n ==> 0 <= #[trigger] o[i] < n,
        forall|i: int, j: int| 0 <= i < j < n ==> #[trigger] o[i] != #[trigger] o[j],
    ensures
        o.contains(x),
{
    assert(o.no_duplicates());
    o.unique_seq_to_set();
    let all = vstd::set_lib::set_int_range(0, n as int);
    vstd::set_lib::lemma_int_range(0, n as int);
    assert(o.to_set().subset_of(all));
    vstd::set_lib::lemma_set_subset_finite(all, o.to_set());
    if !o.to_set().contains(x) {
        assert(o.to_set().subset_of(all.remove(x)));
        vstd::set_lib::lemma_len_subset(o.to_set(), all.remove(x));
    }
}

/// Every position stands somewhere in the order.
pub proof fn order_holds_every_position(keys: Seq<SortKey>, x: int)
    requires
        0 <= x < keys.len(),
    ensures
        stable_order(keys).contains(x),
{
    order_is_stable_sort(keys);
    let o = stable_order(keys);
    assert forall|i: int, j: int| 0 <= i < j < keys.len() implies #[trigger] o[i] != #[trigger] o[j]
        by {
        assert(key_le(keys[o[i]], keys[o[j]]));
    }
    lemma_all_positions(o, keys.len(), x);
}

/// [`stable_order`].
pub fn order_of(keys: &Vec<SortKey>) -> (out: Vec<usize>)
    ensures
        out@.len() == keys@.len(),
        out@.map_values(|i: usize| i as int) == stable_order(keys@),
        forall|i: int| 0 <= i < out@.len() ==> #[trigger] out@[i] < keys@.len(),
{
    let mut out: Vec<usize> = Vec::new();
    assert(out@.map_values(|i: usize| i as int) =~= order_prefix(keys@, 0));
    for x in 0..keys.len()
        invariant
            out@.len() == x,
            out@.map_values(|i: usize| i as int) == order_prefix(keys@, x as nat),
            forall|i: int| 0 <= i < x ==> #[trigger] out@[i] < x,
    {
        let ghost before = out@;
        let ghost positions = before.map_values(|i: usize| i as int);
        let mut at: usize = out.len();
        assert(positions.take(at as int) =~= positions);
        assert(positions.skip(at as int) =~= Seq::empty());
        assert(insert_position(positions, x as int, keys@) =~= insert_position(
            positions.take(at as int),
            x as int,
            keys@,
        ) + positions.skip(at as int));
        while at > 0 && !not_after(keys[out[at - 1]], keys[x])
            invariant
                at <= out@.len(),
                out@ == before,
                out@.len() == x,
                x < keys@.len(),
                forall|i: int| 0 <= i < x ==> #[trigger] out@[i] < x,
                positions == before.map_values(|i: usize| i as int),
                insert_position(positions, x as int, keys@) == insert_position(
                    positions.take(at as int),
                    x as int,
                    keys@,
                ) + positions.skip(at as int),
            decreases at,
        {
            proof {
                let head = positions.take(at as int);
                assert(head.last() == out@[at - 1] as int);
                assert(head.drop_last() =~= positions.take(at - 1));
                assert(positions.skip(at - 1) =~= seq![head.last()] + positions.skip(at as int));
                assert(insert_position(positions.take(at - 1), x as int, keys@).push(head.last())
                    + positions.skip(at as int) =~= insert_position(
                    positions.take(at - 1),
                    x as int,
                    keys@,
                ) + positions.skip(at - 1));
            }
            at = at - 1;
        }
        proof {
            let head = positions.take(at as int);
            if at > 0 {
                assert(head.last() == out@[at - 1] as int);
            }
            assert(insert_position(head, x as int, keys@) == head.push(x as int));
        }
        out.insert(at, x);
        assert(out@.map_values(|i: usize| i as int) =~= insert_position(
            positions,
            x as int,
            keys@,
        ));
    }
    out
}

// ─── The first of the marked ─────────────────────────────────

/// Of the first `n` positions that are marked, the one that comes first in order.
pub open spec fn best_prefix(marked: Seq<bool>, keys: Seq<SortKey>, n: nat) -> Option<int>
    decreases n,
{
    if n == 0 {
        None
    } else {
        let before = best_prefix(marked, keys, (n - 1) as nat);
        if marked[n - 1] && (before is None || !key_le(keys[before->0], keys[n - 1])) {
            Some(n - 1)
        } else {
            before
        }
    }
}

/// Of the positions that are marked, the one that comes first in order.
pub open spec fn best(marked: Seq<bool>, keys: Seq<SortKey>) -> Option<int> {
    best_prefix(marked, keys, marked.len())
}

/// The best position is marked, none that is marked comes before it, and of those with its key
/// it is the first. There is none exactly where nothing is marked.
pub proof fn best_is_first_marked(marked: Seq<bool>, keys: Seq<SortKey>)
    ensures
        is_best(best(marked, keys), marked, keys, marked.len()),
{
    lemma_best_prefix(marked, keys, marked.len());
}

/// What it is to be the best of the first `n` positions.
pub open spec fn is_best(at: Option<int>, marked: Seq<bool>, keys: Seq<SortKey>, n: nat) -> bool {
    match at {
        Some(i) => {
            &&& 0 <= i < n
            &&& marked[i]
            &&& forall|j: int|
                0 <= j < n && #[trigger] marked[j] ==> key_le(keys[i], keys[j]) && (keys[i]
                    == keys[j] ==> i <= j)
        },
        None => forall|j: int| 0 <= j < n ==> !#[trigger] marked[j],
    }
}

proof fn lemma_best_prefix(marked: Seq<bool>, keys: Seq<SortKey>, n: nat)
    requires
        n <= marked.len(),
    ensures
        is_best(best_prefix(marked, keys, n), marked, keys, n),
    decreases n,
{
    if n > 0 {
        lemma_best_prefix(marked, keys, (n - 1) as nat);
    }
}

/// [`best`].
pub fn best_of(marked: &Vec<bool>, keys: &Vec<SortKey>) -> (r: Option<usize>)
    requires
        marked@.len() == keys@.len(),
    ensures
        match r {
            Some(i) => best(marked@, keys@) == Some(i as int) && i < keys@.len() && marked@[i as int],
            None => best(marked@, keys@) is None,
        },
{
    let mut found: Option<usize> = None;
    for n in 0..marked.len()
        invariant
            marked@.len() == keys@.len(),
            match found {
                Some(i) => best_prefix(marked@, keys@, n as nat) == Some(i as int) && i < n
                    && marked@[i as int],
                None => best_prefix(marked@, keys@, n as nat) is None,
            },
    {
        if marked[n] {
            let better = match found {
                Some(i) => !not_after(keys[i], keys[n]),
                None => true,
            };
            if better {
                found = Some(n);
            }
        }
    }
    found
}

} // verus!
