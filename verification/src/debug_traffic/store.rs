//! The entries that are kept, the oldest first.
use vstd::prelude::*;
use crate::debug_traffic::cut::{
    byte_len, bytes_of, cut_text, cut_value, json_len, truncate_chars, truncate_json_value,
};
use crate::debug_traffic::entry::{
    entries_view, entry_fields, entry_in, kept_entries_read_back, TrafficEntry, TrafficView,
};
use crate::debug_traffic::{MAX_ENTRIES, MAX_ENTRY_BYTES, MAX_TOTAL_BYTES};
use crate::json::{
    gives, in_braces, json_of_text, one_line, parse_json, readable, render_json, text_of_json,
    Json, DEEPEST,
};
use crate::text::{chars_of, same, trim, trimmed};
use crate::words::{push_word, words};

verus! {

// ─── Sizes ───────────────────────────────────────────────────

/// The line that an entry is kept as.
pub open spec fn line_of(e: TrafficView) -> Seq<char> {
    text_of_json(Json::Obj(entry_fields(e)))
}

/// How many bytes an entry takes, with the end of its line.
pub open spec fn entry_size(e: TrafficView) -> nat {
    byte_len(line_of(e)) + 1
}

/// How many bytes some entries take.
pub open spec fn total_size(s: Seq<TrafficView>) -> nat
    decreases s.len(),
{
    if s.len() == 0 {
        0
    } else {
        total_size(s.drop_last()) + entry_size(s.last())
    }
}

/// The text of a file with some entries.
pub open spec fn file_text(s: Seq<TrafficView>) -> Seq<char>
    decreases s.len(),
{
    if s.len() == 0 {
        Seq::empty()
    } else {
        file_text(s.drop_last()) + line_of(s.last()) + "\n"@
    }
}

/// More than any entry can take.
pub const LARGEST: u128 = 0x10_0000_0000_0000_0000;

fn size_of(e: &TrafficEntry) -> (n: u128)
    ensures
        n == entry_size(e@),
        n < LARGEST,
{
    bytes_of(render_json(&e.to_value()).as_str()) + 1
}

// ─── Recording ───────────────────────────────────────────────

/// An entry with the bodies cut that are too large, each for itself.
pub open spec fn cut_entry(e: TrafficView) -> TrafficView {
    let request = json_len(e.request_body) > MAX_ENTRY_BYTES;
    let response = e.response_body is Some && byte_len(e.response_body->0) > MAX_ENTRY_BYTES;
    TrafficView {
        request_body: if request {
            cut_value(e.request_body, MAX_ENTRY_BYTES as nat)
        } else {
            e.request_body
        },
        response_body: if response {
            Some(cut_text(e.response_body->0, MAX_ENTRY_BYTES as nat))
        } else {
            e.response_body
        },
        truncated: e.truncated || request || response,
        ..e
    }
}

/// There is no room for an entry beside the others.
pub open spec fn crowded(s: Seq<TrafficView>, e: TrafficView) -> bool {
    s.len() >= MAX_ENTRIES || total_size(s) + entry_size(e) > MAX_TOTAL_BYTES
}

/// The newer half of some entries.
pub open spec fn newer_half(s: Seq<TrafficView>) -> Seq<TrafficView> {
    s.skip(s.len() - s.len() as int / 2)
}

/// The entries with one more, for which the older half makes room where there is none.
pub open spec fn recorded(s: Seq<TrafficView>, e: TrafficView) -> Seq<TrafficView> {
    let c = cut_entry(e);
    if crowded(s, c) {
        newer_half(s).push(c)
    } else {
        s.push(c)
    }
}

/// The last entry with an id.
pub open spec fn last_with(s: Seq<TrafficView>, id: Seq<char>) -> Option<TrafficView>
    decreases s.len(),
{
    if s.len() == 0 {
        None
    } else if s.last().id == id {
        Some(s.last())
    } else {
        last_with(s.drop_last(), id)
    }
}

/// There are never too many entries, and what is recorded last is found under its id.
pub proof fn recording_keeps_the_bound(s: Seq<TrafficView>, e: TrafficView)
    requires
        s.len() <= MAX_ENTRIES,
    ensures
        recorded(s, e).len() <= MAX_ENTRIES,
        last_with(recorded(s, e), e.id) == Some(cut_entry(e)),
{
}

/// Only the oldest entries make room: what is kept of the others is what came last.
pub proof fn recording_keeps_the_newest(s: Seq<TrafficView>, e: TrafficView)
    ensures
        ({
            let kept = recorded(s, e).drop_last();
            &&& kept.len() >= s.len() as int / 2
            &&& kept.len() <= s.len()
            &&& kept == s.skip(s.len() - kept.len())
        }),
{
    let kept = recorded(s, e).drop_last();
    assert(kept =~= s.skip(s.len() - kept.len()));
}

/// What a request takes leaves no less for the answer: an answer within the bound is kept whole.
pub proof fn bodies_are_cut_apart(e: TrafficView)
    ensures
        e.response_body is Some && byte_len(e.response_body->0) <= MAX_ENTRY_BYTES ==> cut_entry(
            e,
        ).response_body == e.response_body,
        json_len(e.request_body) <= MAX_ENTRY_BYTES ==> cut_entry(e).request_body == e.request_body,
        (cut_entry(e).request_body != e.request_body || cut_entry(e).response_body
            != e.response_body) ==> cut_entry(e).truncated,
{
}

// ─── Reading ─────────────────────────────────────────────────

/// The lines of a text.
pub open spec fn lines_of(text: Seq<char>) -> Seq<Seq<char>>
    decreases text.len(),
{
    if text.len() == 0 {
        seq![Seq::empty()]
    } else {
        let before = lines_of(text.drop_last());
        if text.last() == '\n' {
            before.push(Seq::empty())
        } else {
            before.drop_last().push(before.last().push(text.last()))
        }
    }
}

/// The entry in a line; none where it is broken.
pub open spec fn entry_in_line(line: Seq<char>) -> Option<TrafficView> {
    if trimmed(line).len() == 0 {
        None
    } else {
        match json_of_text(trimmed(line)) {
            Ok(v) => entry_in(v),
            Err(_) => None,
        }
    }
}

pub open spec fn entries_in_lines(lines: Seq<Seq<char>>) -> Seq<TrafficView>
    decreases lines.len(),
{
    if lines.len() == 0 {
        Seq::empty()
    } else {
        let before = entries_in_lines(lines.drop_last());
        match entry_in_line(lines.last()) {
            Some(e) => before.push(e),
            None => before,
        }
    }
}

/// The last entries, as many as may be kept.
pub open spec fn last_entries(s: Seq<TrafficView>) -> Seq<TrafficView> {
    if s.len() > MAX_ENTRIES {
        s.skip(s.len() - MAX_ENTRIES)
    } else {
        s
    }
}

/// The entries without the oldest ones, as far as they take too much.
pub open spec fn within_size(s: Seq<TrafficView>) -> Seq<TrafficView>
    decreases s.len(),
{
    if s.len() > 0 && total_size(s) > MAX_TOTAL_BYTES {
        within_size(s.drop_first())
    } else {
        s
    }
}

/// The entries that the text of a file gives.
pub open spec fn loaded(text: Seq<char>) -> Seq<TrafficView> {
    within_size(last_entries(entries_in_lines(lines_of(text))))
}

/// The entries of a file keep both bounds.
pub proof fn loading_keeps_both_bounds(s: Seq<TrafficView>)
    ensures
        within_size(last_entries(s)).len() <= MAX_ENTRIES,
        total_size(within_size(last_entries(s))) <= MAX_TOTAL_BYTES,
{
    lemma_within_size(last_entries(s));
}

proof fn lemma_within_size(s: Seq<TrafficView>)
    ensures
        within_size(s).len() <= s.len(),
        total_size(within_size(s)) <= MAX_TOTAL_BYTES,
    decreases s.len(),
{
    if s.len() > 0 && total_size(s) > MAX_TOTAL_BYTES {
        lemma_within_size(s.drop_first());
    }
}

proof fn lemma_total_split(s: Seq<TrafficView>)
    requires
        s.len() > 0,
    ensures
        total_size(s) == entry_size(s[0]) + total_size(s.drop_first()),
    decreases s.len(),
{
    if s.len() > 1 {
        lemma_total_split(s.drop_last());
        assert(s.drop_first().drop_last() =~= s.drop_last().drop_first());
    } else {
        assert(s.drop_first() =~= Seq::empty());
        assert(s.drop_last() =~= Seq::empty());
    }
}

/// An entry that can be read from its line.
pub open spec fn legible(e: TrafficView) -> bool {
    readable(Json::Obj(entry_fields(e)), DEEPEST as nat) && e.response_headers != Some(Json::Null)
}

/// A text that ends with its last line, or is empty.
pub open spec fn complete(text: Seq<char>) -> bool {
    text.len() == 0 || text.last() == '\n'
}

proof fn lemma_lines_not_empty(text: Seq<char>)
    ensures
        lines_of(text).len() > 0,
        complete(text) ==> lines_of(text).last() == Seq::<char>::empty(),
    decreases text.len(),
{
    if text.len() > 0 {
        lemma_lines_not_empty(text.drop_last());
    }
}

proof fn lemma_lines_extended(text: Seq<char>, line: Seq<char>)
    requires
        one_line(line),
    ensures
        lines_of(text + line) == lines_of(text).drop_last().push(lines_of(text).last() + line),
    decreases line.len(),
{
    lemma_lines_not_empty(text);
    let lines = lines_of(text);
    if line.len() == 0 {
        assert(text + line =~= text);
        assert(lines.last() + line =~= lines.last());
        assert(lines.drop_last().push(lines.last()) =~= lines);
    } else {
        let rest = line.drop_last();
        assert((text + line).drop_last() =~= text + rest);
        assert(line[line.len() - 1] != '\n');
        lemma_lines_extended(text, rest);
        let before = lines.drop_last().push(lines.last() + rest);
        assert(before.drop_last() =~= lines.drop_last());
        assert((lines.last() + rest).push(line.last()) =~= lines.last() + line);
    }
}

/// A line that is added to a file adds its entry, where it holds one, and changes no other.
pub proof fn added_line_adds_its_entry(text: Seq<char>, line: Seq<char>)
    requires
        complete(text),
        one_line(line),
    ensures
        complete(text + line + "\n"@),
        entries_in_lines(lines_of(text + line + "\n"@)) == match entry_in_line(line) {
            Some(e) => entries_in_lines(lines_of(text)).push(e),
            None => entries_in_lines(lines_of(text)),
        },
{
    reveal_strlit("\n");
    let whole = text + line + "\n"@;
    let lines = lines_of(text);
    lemma_lines_not_empty(text);
    lemma_lines_extended(text, line);
    assert(whole.drop_last() =~= text + line);
    assert(whole.last() == '\n');
    assert(lines.last() + line =~= line);
    let longer = lines.drop_last().push(line);
    assert(lines_of(whole) == longer.push(Seq::empty()));
    assert(longer.push(Seq::empty()).drop_last() =~= longer);
    assert(longer.drop_last() =~= lines.drop_last());
    assert(trimmed(Seq::<char>::empty()).len() == 0);
    assert(entry_in_line(Seq::<char>::empty()) is None);
    assert(entries_in_lines(longer.push(Seq::empty())) == entries_in_lines(longer));
    assert(entries_in_lines(lines) == entries_in_lines(lines.drop_last()));
}

/// The line of an entry gives the entry back.
proof fn lemma_line_read_back(e: TrafficView, line: Seq<char>)
    requires
        e.response_headers != Some(Json::Null),
        in_braces(line),
        gives(line, Json::Obj(entry_fields(e))),
    ensures
        entry_in_line(line) == Some(e),
{
    kept_entries_read_back(e);
    assert(trimmed(line) == line);
}

fn split_lines(text: &str) -> (out: Vec<String>)
    ensures
        words(out@) == lines_of(text@),
{
    let chars = chars_of(text);
    let mut done: Vec<String> = Vec::new();
    let mut current = String::new();
    assert(words(done@).push(current@) =~= seq![Seq::empty()]);
    assert(chars@.take(0) =~= Seq::empty());
    for i in 0..chars.len()
        invariant
            words(done@).push(current@) == lines_of(chars@.take(i as int)),
    {
        let ghost before = words(done@).push(current@);
        assert(chars@.take(i + 1).drop_last() =~= chars@.take(i as int));
        assert(before.drop_last() =~= words(done@));
        if chars[i] == '\n' {
            push_word(&mut done, current);
            current = String::new();
            assert(current@ =~= Seq::empty());
        } else {
            current.push(chars[i]);
        }
    }
    assert(chars@.take(chars@.len() as int) =~= chars@);
    push_word(&mut done, current);
    done
}

fn read_line(line: &str) -> (r: Option<TrafficEntry>)
    ensures
        match entry_in_line(line@) {
            Some(e) => r is Some && r->0@ == e,
            None => r is None,
        },
{
    let line = trim(line);
    if line.as_str().is_empty() {
        return None;
    }
    match parse_json(line.as_str()) {
        Ok(v) => TrafficEntry::from_value(&v),
        Err(_) => None,
    }
}

fn push_entry(list: &mut Vec<TrafficEntry>, e: TrafficEntry)
    ensures
        entries_view(final(list)@) == entries_view(old(list)@).push(e@),
{
    let ghost before = list@;
    list.push(e);
    assert(entries_view(list@) =~= entries_view(before).push(e@));
}

fn read_lines(text: &str) -> (out: Vec<TrafficEntry>)
    ensures
        entries_view(out@) == entries_in_lines(lines_of(text@)),
{
    let lines = split_lines(text);
    let ghost all = words(lines@);
    let mut out: Vec<TrafficEntry> = Vec::new();
    assert(entries_view(out@) =~= Seq::empty());
    assert(all.take(0) =~= Seq::empty());
    for i in 0..lines.len()
        invariant
            all == words(lines@),
            entries_view(out@) == entries_in_lines(all.take(i as int)),
    {
        assert(all.take(i + 1).drop_last() =~= all.take(i as int));
        assert(all.take(i + 1).last() == lines@[i as int]@);
        if let Some(e) = read_line(lines[i].as_str()) {
            push_entry(&mut out, e);
        }
    }
    assert(all.take(all.len() as int) =~= all);
    out
}

// ─── The store ───────────────────────────────────────────────

/// What has to be written to the file after an entry was recorded: one more line, or the whole
/// file anew.
pub enum Written {
    Append(String),
    Rewrite(String),
}

/// The entries that are kept, with their sizes.
pub struct TrafficStore {
    pub entries: Vec<TrafficEntry>,
    pub sizes: Vec<u128>,
    pub bytes: u128,
}

impl View for TrafficStore {
    type V = Seq<TrafficView>;

    open spec fn view(&self) -> Seq<TrafficView> {
        entries_view(self.entries@)
    }
}

fn drop_oldest(entries: &mut Vec<TrafficEntry>, n: usize)
    requires
        n <= old(entries)@.len(),
    ensures
        entries_view(final(entries)@) == entries_view(old(entries)@).skip(n as int),
{
    let ghost before = entries@;
    let mut kept: Vec<TrafficEntry> = Vec::new();
    let ghost all = entries_view(entries@).skip(n as int);
    assert(entries_view(kept@) =~= all.take(0));
    for i in n..entries.len()
        invariant
            n <= i,
            n <= entries@.len(),
            entries@ == before,
            all == entries_view(entries@).skip(n as int),
            entries_view(kept@) == all.take(i - n),
    {
        push_entry(&mut kept, entries[i].dup());
        assert(entries_view(kept@) =~= all.take(i - n + 1));
    }
    assert(all.take(all.len() as int) =~= all);
    *entries = kept;
}

impl TrafficStore {
    /// The sizes are those of the entries, of which there are not too many.
    pub open spec fn wf(&self) -> bool {
        &&& self.entries@.len() <= MAX_ENTRIES
        &&& self.sizes@.len() == self.entries@.len()
        &&& forall|i: int|
            0 <= i < self.sizes@.len() ==> #[trigger] self.sizes@[i] == entry_size(self@[i])
                && self.sizes@[i] < LARGEST
        &&& self.bytes == total_size(self@)
    }

    pub fn new() -> (out: TrafficStore)
        ensures
            out.wf(),
            out@ == Seq::<TrafficView>::empty(),
    {
        let out = TrafficStore { entries: Vec::new(), sizes: Vec::new(), bytes: 0 };
        assert(out@ =~= Seq::empty());
        out
    }

    fn from_entries(entries: Vec<TrafficEntry>) -> (out: TrafficStore)
        requires
            entries@.len() <= MAX_ENTRIES,
        ensures
            out.wf(),
            out@ == entries_view(entries@),
    {
        let ghost all = entries_view(entries@);
        let mut sizes: Vec<u128> = Vec::new();
        let mut bytes: u128 = 0;
        assert(all.take(0) =~= Seq::empty());
        for i in 0..entries.len()
            invariant
                entries@.len() <= MAX_ENTRIES,
                all == entries_view(entries@),
                sizes@.len() == i,
                forall|k: int|
                    0 <= k < i ==> #[trigger] sizes@[k] == entry_size(all[k]) && sizes@[k] < LARGEST,
                bytes == total_size(all.take(i as int)),
                bytes <= i * LARGEST,
        {
            assert(all.take(i + 1).drop_last() =~= all.take(i as int));
            assert(all.take(i + 1).last() == entries@[i as int]@);
            assert(i * LARGEST + LARGEST == (i + 1) * LARGEST) by (nonlinear_arith);
            assert((i + 1) * LARGEST <= 500 * LARGEST) by (nonlinear_arith)
                requires
                    i + 1 <= 500,
            ;
            let size: u128 = size_of(&entries[i]);
            sizes.push(size);
            bytes = bytes + size;
        }
        assert(all.take(all.len() as int) =~= all);
        TrafficStore { entries, sizes, bytes }
    }

    /// The store that the text of a file gives, and whether the file holds more than that.
    pub fn load(text: &str) -> (r: (TrafficStore, bool))
        ensures
            r.0.wf(),
            r.0@ == loaded(text@),
            r.1 == (loaded(text@).len() != entries_in_lines(lines_of(text@)).len()),
    {
        let mut entries = read_lines(text);
        let ghost all = entries_view(entries@);
        let count: usize = entries.len();
        assert(all.len() == count);
        if count > MAX_ENTRIES {
            drop_oldest(&mut entries, count - MAX_ENTRIES);
        }
        let ghost last = last_entries(all);
        assert(entries_view(entries@) == last);
        let mut store = TrafficStore::from_entries(entries);
        let mut gone: usize = 0;
        assert(last.skip(0) =~= last);
        while gone < store.entries.len() && store.bytes > MAX_TOTAL_BYTES as u128
            invariant
                gone <= store.entries@.len(),
                store.entries@.len() <= MAX_ENTRIES,
                store.sizes@.len() == store.entries@.len(),
                store@ == last,
                forall|i: int|
                    0 <= i < store.sizes@.len() ==> #[trigger] store.sizes@[i] == entry_size(
                        last[i],
                    ) && store.sizes@[i] < LARGEST,
                store.bytes == total_size(last.skip(gone as int)),
                within_size(last) == within_size(last.skip(gone as int)),
            decreases store.entries@.len() - gone,
        {
            proof {
                lemma_total_split(last.skip(gone as int));
                assert(last.skip(gone as int).drop_first() =~= last.skip(gone + 1));
            }
            store.bytes = store.bytes - store.sizes[gone];
            gone = gone + 1;
        }
        assert(within_size(last) == last.skip(gone as int));
        drop_oldest(&mut store.entries, gone);
        let fewer = store.entries.len() != count;
        (TrafficStore::from_entries(store.entries), fewer)
    }

    /// How many entries there are.
    pub fn count(&self) -> (n: usize)
        ensures
            n == self@.len(),
    {
        self.entries.len()
    }

    /// The last entry with an id: [`last_with`].
    pub fn get(&self, id: &str) -> (r: Option<TrafficEntry>)
        ensures
            match last_with(self@, id@) {
                Some(e) => r is Some && r->0@ == e,
                None => r is None,
            },
    {
        let ghost all = self@;
        let mut n: usize = self.entries.len();
        assert(all.take(n as int) =~= all);
        while n > 0
            invariant
                n <= self.entries@.len(),
                all == entries_view(self.entries@),
                last_with(all, id@) == last_with(all.take(n as int), id@),
            decreases n,
        {
            assert(all.take(n as int).drop_last() =~= all.take(n - 1));
            assert(all.take(n as int).last() == self.entries@[n - 1]@);
            if same(self.entries[n - 1].id.as_str(), id) {
                return Some(self.entries[n - 1].dup());
            }
            n = n - 1;
        }
        None
    }

    /// Takes all entries out.
    pub fn clear(&mut self)
        ensures
            final(self).wf(),
            final(self)@ == Seq::<TrafficView>::empty(),
    {
        *self = TrafficStore::new();
    }

    /// The text of the whole file: [`file_text`]. The entries are read back from it, where each can
    /// be read at all.
    pub fn text(&self) -> (out: String)
        ensures
            out@ == file_text(self@),
            complete(out@),
            (forall|i: int| 0 <= i < self@.len() ==> legible(#[trigger] self@[i]))
                ==> entries_in_lines(lines_of(out@)) == self@,
    {
        let ghost all = self@;
        let mut out = String::new();
        assert(out@ =~= Seq::empty());
        assert(all.take(0) =~= Seq::empty());
        proof {
            let first = lines_of(out@);
            assert(first.drop_last() =~= Seq::empty());
            assert(first.last() == Seq::<char>::empty());
            assert(entry_in_line(Seq::<char>::empty()) is None);
            assert(entries_in_lines(first.drop_last()) == Seq::<TrafficView>::empty());
            assert(entries_in_lines(first) == Seq::<TrafficView>::empty());
        }
        for i in 0..self.entries.len()
            invariant
                all == entries_view(self.entries@),
                out@ == file_text(all.take(i as int)),
                complete(out@),
                (forall|k: int| 0 <= k < all.len() ==> legible(#[trigger] all[k]))
                    ==> entries_in_lines(lines_of(out@)) == all.take(i as int),
        {
            assert(all.take(i + 1).drop_last() =~= all.take(i as int));
            assert(all.take(i + 1).last() == self.entries@[i as int]@);
            let line = render_json(&self.entries[i].to_value());
            proof {
                added_line_adds_its_entry(out@, line@);
                if legible(all[i as int]) {
                    lemma_line_read_back(all[i as int], line@);
                    assert(all.take(i + 1) =~= all.take(i as int).push(all[i as int]));
                }
            }
            out.append(line.as_str());
            out.append("\n");
        }
        assert(all.take(all.len() as int) =~= all);
        out
    }

    fn cut(entry: TrafficEntry) -> (out: TrafficEntry)
        ensures
            out@ == cut_entry(entry@),
    {
        let mut entry = entry;
        if bytes_of(render_json(&entry.request_body).as_str()) > MAX_ENTRY_BYTES as u128 {
            entry.request_body = truncate_json_value(&entry.request_body, MAX_ENTRY_BYTES);
            entry.truncated = true;
        }
        let cut = match &entry.response_body {
            Some(body) => if bytes_of(body.as_str()) > MAX_ENTRY_BYTES as u128 {
                Some(truncate_chars(body.as_str(), MAX_ENTRY_BYTES))
            } else {
                None
            },
            None => None,
        };
        if let Some(body) = cut {
            entry.response_body = Some(body);
            entry.truncated = true;
        }
        entry
    }

    /// Keeps one more entry: [`recorded`]. Of the line that is written the entry is read back, where
    /// it can be read at all.
    pub fn record(&mut self, entry: TrafficEntry) -> (out: Written)
        requires
            old(self).wf(),
        ensures
            final(self).wf(),
            final(self)@ == recorded(old(self)@, entry@),
            match out {
                Written::Rewrite(text) => crowded(old(self)@, cut_entry(entry@)) && text@
                    == file_text(final(self)@),
                Written::Append(line) => {
                    &&& !crowded(old(self)@, cut_entry(entry@))
                    &&& line@ == line_of(cut_entry(entry@))
                    &&& one_line(line@)
                    &&& legible(cut_entry(entry@)) ==> entry_in_line(line@) == Some(
                        cut_entry(entry@),
                    )
                },
            },
    {
        let ghost s = self@;
        let entry = TrafficStore::cut(entry);
        let size: u128 = size_of(&entry);
        proof {
            self.lemma_bytes();
        }
        let full = self.entries.len() >= MAX_ENTRIES || self.bytes + size > MAX_TOTAL_BYTES as u128;
        assert(full == crowded(s, entry@));
        if full {
            let half: usize = self.entries.len() - self.entries.len() / 2;
            drop_oldest(&mut self.entries, half);
            push_entry(&mut self.entries, entry);
            let mut all: Vec<TrafficEntry> = Vec::new();
            all.append(&mut self.entries);
            assert(entries_view(all@) =~= newer_half(s).push(entry@));
            *self = TrafficStore::from_entries(all);
            return Written::Rewrite(self.text());
        }
        let line = render_json(&entry.to_value());
        proof {
            if legible(entry@) {
                lemma_line_read_back(entry@, line@);
            }
        }
        push_entry(&mut self.entries, entry);
        let ghost sizes = self.sizes@;
        self.sizes.push(size);
        self.bytes = self.bytes + size;
        proof {
            assert(self@.drop_last() =~= s);
            assert forall|i: int| 0 <= i < self.sizes@.len() implies #[trigger] self.sizes@[i]
                == entry_size(self@[i]) && self.sizes@[i] < LARGEST by {
                if i < sizes.len() {
                    assert(self.sizes@[i] == sizes[i]);
                }
            }
        }
        Written::Append(line)
    }

    proof fn lemma_bytes(&self)
        requires
            self.wf(),
        ensures
            self.bytes <= MAX_ENTRIES * LARGEST,
    {
        assert(self@.len() * LARGEST <= MAX_ENTRIES * LARGEST) by (nonlinear_arith)
            requires
                self@.len() <= MAX_ENTRIES,
        ;
        assert forall|i: int| 0 <= i < self@.len() implies entry_size(#[trigger] self@[i])
            < LARGEST by {
            assert(self.sizes@[i] == entry_size(self@[i]));
        }
        lemma_total_bound(self@);
    }
}

proof fn lemma_total_bound(s: Seq<TrafficView>)
    ensures
        (forall|i: int| 0 <= i < s.len() ==> entry_size(#[trigger] s[i]) < LARGEST) ==> total_size(s)
            <= s.len() * LARGEST,
    decreases s.len(),
{
    if s.len() > 0 && forall|i: int| 0 <= i < s.len() ==> entry_size(#[trigger] s[i]) < LARGEST {
        assert forall|i: int| 0 <= i < s.drop_last().len() implies entry_size(
            #[trigger] s.drop_last()[i],
        ) < LARGEST by {
            assert(s[i] == s.drop_last()[i]);
        }
        lemma_total_bound(s.drop_last());
        assert(s.len() * LARGEST == (s.len() - 1) * LARGEST + LARGEST) by (nonlinear_arith);
        assert(s[s.len() - 1] == s.last());
    }
}

} // verus!
