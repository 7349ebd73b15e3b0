//! The numbers that order the queue: which are allowed, which is free, and renumbering.
use vstd::prelude::*;
use crate::json::{number_of, read_number, seen, Json, JsonValue};
use crate::number::number_rounded;
use crate::text::same;

verus! {

/// The priority of a record that has none of its own.
pub const DEFAULT_PRIORITY: i64 = 100;

/// The numbers that a priority may take. Smaller numbers are used first.
#[derive(Clone, Copy, PartialEq, Eq, Structural)]
pub struct PriorityBand {
    pub lowest: i64,
    pub highest: i64,
}

impl PriorityBand {
    /// The default lies in the band, and there is a number behind its end.
    pub open spec fn wf(self) -> bool {
        self.lowest <= DEFAULT_PRIORITY <= self.highest < i64::MAX
    }

    /// The number of the band that is nearest to `n`.
    pub open spec fn nearest(self, n: int) -> int {
        if n < self.lowest {
            self.lowest as int
        } else if n > self.highest {
            self.highest as int
        } else {
            n
        }
    }
}

/// [`PriorityBand::nearest`].
pub fn normalize_priority_value(n: i64, band: PriorityBand) -> (r: i64)
    ensures
        r == band.nearest(n as int),
{
    if n < band.lowest {
        band.lowest
    } else if n > band.highest {
        band.highest
    } else {
        n
    }
}

/// The priority that a JSON value stands for: a number, or a text that denotes one, rounded and
/// brought into the band; `fallback` for anything else.
pub open spec fn priority_from(v: Option<Json>, fallback: int, band: PriorityBand) -> int {
    match number_of(v) {
        Some(n) => band.nearest(number_rounded(n)),
        None => fallback,
    }
}

/// [`priority_from`].
pub fn normalize_priority(v: Option<&JsonValue>, fallback: i64, band: PriorityBand) -> (r: i64)
    ensures
        r == priority_from(seen(v), fallback as int, band),
{
    match read_number(v) {
        Some(n) => normalize_priority_value(n.rounded(), band),
        None => fallback,
    }
}

/// The largest of some numbers that are not none.
pub open spec fn largest(ns: Seq<i64>) -> int
    decreases ns.len(),
{
    if ns.len() <= 1 {
        ns[0] as int
    } else if ns.last() as int > largest(ns.drop_last()) {
        ns.last() as int
    } else {
        largest(ns.drop_last())
    }
}

/// The priority of a newcomer: one behind the last of the queue.
pub open spec fn free_behind(taken: Seq<i64>, band: PriorityBand) -> int {
    if taken.len() == 0 {
        band.lowest as int
    } else {
        largest(taken) + 1
    }
}

/// The number behind the last is larger than every number taken.
pub proof fn free_behind_is_last(taken: Seq<i64>, band: PriorityBand, i: int)
    requires
        0 <= i < taken.len(),
    ensures
        taken[i] < free_behind(taken, band),
{
    lemma_largest(taken, i);
}

proof fn lemma_largest(ns: Seq<i64>, i: int)
    requires
        0 <= i < ns.len(),
    ensures
        ns[i] <= largest(ns),
        exists|k: int| 0 <= k < ns.len() && largest(ns) == #[trigger] ns[k],
    decreases ns.len(),
{
    if ns.len() > 1 {
        let short = ns.drop_last();
        if i < ns.len() - 1 {
            lemma_largest(short, i);
            assert(short[i] == ns[i]);
        } else {
            lemma_largest(short, 0);
        }
        let k = choose|k: int| 0 <= k < short.len() && largest(short) == #[trigger] short[k];
        assert(ns[k] == short[k]);
    } else {
        assert(largest(ns) == ns[0]);
    }
}

/// [`free_behind`].
pub fn next_free_priority(taken: &Vec<i64>, band: PriorityBand) -> (r: i64)
    requires
        forall|i: int| 0 <= i < taken@.len() ==> #[trigger] taken@[i] < i64::MAX,
    ensures
        r == free_behind(taken@, band),
{
    if taken.len() == 0 {
        return band.lowest;
    }
    let mut top: i64 = taken[0];
    for i in 1..taken.len()
        invariant
            top == largest(taken@.take(i as int)),
            top < i64::MAX,
            forall|i: int| 0 <= i < taken@.len() ==> #[trigger] taken@[i] < i64::MAX,
    {
        assert(taken@.take(i + 1).drop_last() =~= taken@.take(i as int));
        if taken[i] > top {
            top = taken[i];
        }
    }
    assert(taken@.take(taken@.len() as int) =~= taken@);
    top + 1
}

/// One place in the queue.
pub struct QueueEntry {
    pub id: String,
    pub name: String,
    pub priority: i64,
}

/// The plain value of a [`QueueEntry`].
pub struct QueueEntryView {
    pub id: Seq<char>,
    pub name: Seq<char>,
    pub priority: i64,
}

impl View for QueueEntry {
    type V = QueueEntryView;

    open spec fn view(&self) -> QueueEntryView {
        QueueEntryView { id: self.id@, name: self.name@, priority: self.priority }
    }
}

pub open spec fn entries_view(entries: Seq<QueueEntry>) -> Seq<QueueEntryView> {
    entries.map_values(|e: QueueEntry| e@)
}

/// The entry holds the number and is not that of `except`.
pub open spec fn holds_priority(
    e: QueueEntryView,
    priority: i64,
    except: Option<Seq<char>>,
) -> bool {
    e.priority == priority && except != Some(e.id)
}

/// The first entry that holds a number, `except` aside.
pub open spec fn holder(
    entries: Seq<QueueEntryView>,
    priority: i64,
    except: Option<Seq<char>>,
) -> Option<QueueEntryView>
    decreases entries.len(),
{
    if entries.len() == 0 {
        None
    } else if holds_priority(entries[0], priority, except) {
        Some(entries[0])
    } else {
        holder(entries.drop_first(), priority, except)
    }
}

/// There is no holder exactly where no entry holds the number.
pub proof fn holder_is_none(
    entries: Seq<QueueEntryView>,
    priority: i64,
    except: Option<Seq<char>>,
)
    ensures
        holder(entries, priority, except) is None <==> forall|i: int|
            0 <= i < entries.len() ==> !holds_priority(#[trigger] entries[i], priority, except),
    decreases entries.len(),
{
    if entries.len() > 0 {
        holder_is_none(entries.drop_first(), priority, except);
        if !holds_priority(entries[0], priority, except) {
            let rest = entries.drop_first();
            assert forall|i: int| 0 <= i < rest.len() implies #[trigger] rest[i] == entries[i
                + 1] by {}
            assert forall|i: int| 0 < i < entries.len() implies #[trigger] entries[i] == rest[i
                - 1] by {}
        }
    }
}

/// The name of the [`holder`].
pub fn find_priority_holder(
    entries: &Vec<QueueEntry>,
    priority: i64,
    except: Option<&str>,
) -> (r: Option<String>)
    ensures
        match r {
            Some(name) => holder(
                entries_view(entries@),
                priority,
                crate::json::text_seen(except),
            ) is Some && holder(
                entries_view(entries@),
                priority,
                crate::json::text_seen(except),
            )->0.name == name@,
            None => holder(entries_view(entries@), priority, crate::json::text_seen(except)) is None,
        },
{
    let ghost all = entries_view(entries@);
    let ghost but = crate::json::text_seen(except);
    assert(all.skip(0) =~= all);
    for i in 0..entries.len()
        invariant
            all == entries_view(entries@),
            but == crate::json::text_seen(except),
            holder(all, priority, but) == holder(all.skip(i as int), priority, but),
    {
        assert(all.skip(i as int)[0] == entries@[i as int]@);
        assert(all.skip(i as int).drop_first() =~= all.skip(i + 1));
        let excepted = match except {
            Some(id) => same(id, entries[i].id.as_str()),
            None => false,
        };
        if entries[i].priority == priority && !excepted {
            return Some(entries[i].name.clone());
        }
    }
    None
}

/// A changed number.
pub struct PriorityAssignment {
    pub id: String,
    pub name: String,
    pub from: i64,
    pub to: i64,
}

/// The plain value of a [`PriorityAssignment`].
pub struct AssignmentView {
    pub id: Seq<char>,
    pub name: Seq<char>,
    pub from: i64,
    pub to: int,
}

impl View for PriorityAssignment {
    type V = AssignmentView;

    open spec fn view(&self) -> AssignmentView {
        AssignmentView { id: self.id@, name: self.name@, from: self.from, to: self.to as int }
    }
}

pub open spec fn assignments_view(a: Seq<PriorityAssignment>) -> Seq<AssignmentView> {
    a.map_values(|x: PriorityAssignment| x@)
}

/// The changes that number a queue from `first` on without gaps.
pub open spec fn consecutive(entries: Seq<QueueEntryView>, first: int) -> Seq<AssignmentView>
    decreases entries.len(),
{
    if entries.len() == 0 {
        Seq::empty()
    } else {
        let before = consecutive(entries.drop_last(), first);
        let e = entries.last();
        let to = first + entries.len() - 1;
        if e.priority == to {
            before
        } else {
            before.push(AssignmentView { id: e.id, name: e.name, from: e.priority, to })
        }
    }
}

/// [`consecutive`], from the start of the band.
pub fn renumber_consecutively(entries: &Vec<QueueEntry>, band: PriorityBand) -> (out: Vec<
    PriorityAssignment,
>)
    requires
        band.lowest + entries@.len() <= i64::MAX,
    ensures
        assignments_view(out@) == consecutive(entries_view(entries@), band.lowest as int),
{
    let mut out: Vec<PriorityAssignment> = Vec::new();
    let ghost all = entries_view(entries@);
    let mut to: i64 = band.lowest;
    assert(assignments_view(out@) =~= consecutive(all.take(0), band.lowest as int));
    for i in 0..entries.len()
        invariant
            all == entries_view(entries@),
            to == band.lowest + i,
            band.lowest + entries@.len() <= i64::MAX,
            assignments_view(out@) == consecutive(all.take(i as int), band.lowest as int),
    {
        assert(all.take(i + 1).drop_last() =~= all.take(i as int));
        if entries[i].priority != to {
            let ghost before = out@;
            out.push(
                PriorityAssignment {
                    id: entries[i].id.clone(),
                    name: entries[i].name.clone(),
                    from: entries[i].priority,
                    to,
                },
            );
            assert(assignments_view(out@) =~= assignments_view(before).push(out@.last()@));
        }
        to = to + 1;
    }
    assert(all.take(all.len() as int) =~= all);
    out
}

} // verus!
