//! Taking down one exchange while it goes on.
//!
//! What counts is the last attempt: a further one starts from nothing. An exchange is handed out
//! once, and only if a request was sent.
use vstd::prelude::*;
use vstd::utf8::{decode_utf8, valid_utf8};
use crate::debug_traffic::cut::{byte_len, bytes_of};
use crate::debug_traffic::entry::{
    blank, blank_entry, kept_headers, pairs, redact_headers, TrafficEntry, TrafficView,
};
use crate::debug_traffic::MAX_ENTRY_BYTES;
use crate::json::{Json, JsonValue};

verus! {

/// The text that some bytes stand for, with a replacement for what is no UTF-8.
pub uninterp spec fn text_of_bytes(bytes: Seq<u8>) -> Seq<char>;

/// `String::from_utf8_lossy`: the result is a function of the bytes alone, and the text itself where
/// they are valid.
#[verifier::external_body]
fn read_bytes(bytes: &Vec<u8>) -> (out: String)
    ensures
        out@ == text_of_bytes(bytes@),
        valid_utf8(bytes@) ==> out@ == decode_utf8(bytes@),
{
    String::from_utf8_lossy(bytes).into_owned()
}

/// The plain value of a [`TrafficCapture`].
pub struct CaptureView {
    pub entry: TrafficView,
    pub body: Seq<char>,
    /// Something came after the body was full.
    pub overrun: bool,
    pub sent: bool,
    pub done: bool,
}

/// An exchange that goes on.
pub struct TrafficCapture {
    pub entry: TrafficEntry,
    pub body: String,
    pub size: u128,
    pub overrun: bool,
    pub sent: bool,
    pub done: bool,
}

impl View for TrafficCapture {
    type V = CaptureView;

    open spec fn view(&self) -> CaptureView {
        CaptureView {
            entry: self.entry@,
            body: self.body@,
            overrun: self.overrun,
            sent: self.sent,
            done: self.done,
        }
    }
}

/// Before anything was sent.
pub open spec fn begun(id: Seq<char>, now: i64) -> CaptureView {
    CaptureView {
        entry: blank(id, Seq::empty(), Seq::empty(), Seq::empty(), Json::Null, now),
        body: Seq::empty(),
        overrun: false,
        sent: false,
        done: false,
    }
}

/// A new attempt.
pub open spec fn attempted(
    c: CaptureView,
    url: Seq<char>,
    provider: Seq<char>,
    headers: Seq<(Seq<char>, Seq<char>)>,
    body: Json,
    now: i64,
) -> CaptureView {
    CaptureView {
        entry: blank(c.entry.id, url, provider, headers, body, now),
        body: Seq::empty(),
        overrun: false,
        sent: true,
        ..c
    }
}

/// The header values of an answer; one that is no text is told as such.
pub open spec fn header_pairs(headers: Seq<(String, Option<String>)>) -> Seq<(Seq<char>, Seq<char>)> {
    headers.map_values(
        |h: (String, Option<String>)|
            (
                h.0@,
                match h.1 {
                    Some(v) => v@,
                    None => "[binary]"@,
                },
            ),
    )
}

/// An answer has begun.
pub open spec fn answered(
    c: CaptureView,
    status: u16,
    headers: Seq<(Seq<char>, Seq<char>)>,
) -> CaptureView {
    CaptureView {
        entry: TrafficView {
            status: Some(status),
            response_headers: Some(Json::Obj(kept_headers(headers))),
            ..c.entry
        },
        body: Seq::empty(),
        overrun: false,
        ..c
    }
}

/// More of the answer came. Once the body is full it grows no more.
pub open spec fn grown(c: CaptureView, text: Seq<char>) -> CaptureView {
    if byte_len(c.body) >= MAX_ENTRY_BYTES {
        CaptureView { overrun: c.overrun || text.len() > 0, ..c }
    } else {
        CaptureView { body: c.body + text, ..c }
    }
}

/// What is handed out at the end.
pub open spec fn handed_out(c: CaptureView) -> Option<TrafficView> {
    if c.done || !c.sent {
        None
    } else {
        Some(
            TrafficView {
                response_body: if c.body.len() > 0 {
                    Some(c.body)
                } else {
                    c.entry.response_body
                },
                truncated: c.entry.truncated || c.overrun,
                ..c.entry
            },
        )
    }
}

/// After the end.
pub open spec fn finished(c: CaptureView) -> CaptureView {
    CaptureView {
        entry: match handed_out(c) {
            Some(e) => e,
            None => c.entry,
        },
        body: if c.done || !c.sent {
            c.body
        } else {
            Seq::empty()
        },
        done: true,
        ..c
    }
}

/// An exchange is handed out once at most: after the end nothing is, whatever still comes.
pub proof fn exchange_is_handed_out_once(
    c: CaptureView,
    url: Seq<char>,
    provider: Seq<char>,
    headers: Seq<(Seq<char>, Seq<char>)>,
    body: Json,
    now: i64,
    status: u16,
    text: Seq<char>,
)
    ensures
        handed_out(finished(c)) is None,
        handed_out(attempted(finished(c), url, provider, headers, body, now)) is None,
        handed_out(answered(finished(c), status, headers)) is None,
        handed_out(grown(finished(c), text)) is None,
{
}

/// Nothing is handed out of an exchange in which nothing was sent.
pub proof fn nothing_sent_nothing_handed_out(id: Seq<char>, now: i64, status: u16, headers: Seq<(Seq<char>, Seq<char>)>, text: Seq<char>)
    ensures
        handed_out(begun(id, now)) is None,
        handed_out(answered(begun(id, now), status, headers)) is None,
        handed_out(grown(begun(id, now), text)) is None,
{
}

/// The last attempt counts: what came before it leaves no trace but the id.
pub proof fn last_attempt_counts(
    a: CaptureView,
    b: CaptureView,
    url: Seq<char>,
    provider: Seq<char>,
    headers: Seq<(Seq<char>, Seq<char>)>,
    body: Json,
    now: i64,
)
    requires
        a.entry.id == b.entry.id,
        a.done == b.done,
    ensures
        attempted(a, url, provider, headers, body, now) == attempted(
            b,
            url,
            provider,
            headers,
            body,
            now,
        ),
{
}

/// What is cut off an answer is marked: an answer that is handed out unmarked is whole.
pub proof fn cut_answers_are_marked(c: CaptureView, text: Seq<char>)
    requires
        c.sent,
        !c.done,
        text.len() > 0,
        byte_len(c.body) >= MAX_ENTRY_BYTES,
    ensures
        handed_out(grown(c, text)) is Some,
        handed_out(grown(c, text))->0.truncated,
{
}

impl TrafficCapture {
    /// The size is that of the body.
    pub open spec fn wf(&self) -> bool {
        self.size == byte_len(self.body@) && self.size <= MAX_ENTRY_BYTES + 4 * usize::MAX
    }

    /// [`begun`].
    pub fn begin(id: &str, now: i64) -> (out: TrafficCapture)
        ensures
            out.wf(),
            out@ == begun(id@, now),
    {
        let none: Vec<(String, String)> = Vec::new();
        proof {
            reveal_strlit("");
            assert(""@ =~= Seq::<char>::empty());
            assert(pairs(none@) =~= Seq::empty());
        }
        let body = String::new();
        assert(body@ =~= Seq::empty());
        TrafficCapture {
            entry: blank_entry(id, "", "", &none, &JsonValue::Null, now),
            body,
            size: 0,
            overrun: false,
            sent: false,
            done: false,
        }
    }

    fn start_body(&mut self)
        ensures
            final(self)@ == (CaptureView { body: Seq::empty(), overrun: false, ..old(self)@ }),
            final(self).wf(),
    {
        self.body = String::new();
        assert(self.body@ =~= Seq::empty());
        self.size = 0;
        self.overrun = false;
    }

    /// [`attempted`].
    pub fn reset_request(
        &mut self,
        url: &str,
        provider: &str,
        headers: &Vec<(String, String)>,
        body: &JsonValue,
        now: i64,
    )
        ensures
            final(self).wf(),
            final(self)@ == attempted(
                old(self)@,
                url@,
                provider@,
                pairs(headers@),
                body@,
                now,
            ),
    {
        self.entry = blank_entry(self.entry.id.as_str(), url, provider, headers, body, now);
        self.start_body();
        self.sent = true;
    }

    /// [`answered`].
    pub fn attach_response(&mut self, status: u16, headers: &Vec<(String, Option<String>)>)
        ensures
            final(self).wf(),
            final(self)@ == answered(old(self)@, status, header_pairs(headers@)),
    {
        let mut list: Vec<(String, String)> = Vec::new();
        let ghost all = header_pairs(headers@);
        assert(pairs(list@) =~= all.take(0));
        for i in 0..headers.len()
            invariant
                all == header_pairs(headers@),
                pairs(list@) == all.take(i as int),
        {
            let ghost before = list@;
            let value = match &headers[i].1 {
                Some(v) => v.clone(),
                None => "[binary]".to_owned(),
            };
            list.push((headers[i].0.clone(), value));
            assert(pairs(list@) =~= pairs(before).push((list@.last().0@, list@.last().1@)));
            assert(all.take(i + 1) =~= all.take(i as int).push(all[i as int]));
        }
        assert(all.take(all.len() as int) =~= all);
        self.entry.status = Some(status);
        self.entry.response_headers = Some(redact_headers(&list));
        self.start_body();
    }

    /// [`grown`], by the text of some bytes.
    pub fn push(&mut self, chunk: &Vec<u8>)
        requires
            old(self).wf(),
        ensures
            final(self).wf(),
            final(self)@ == grown(old(self)@, text_of_bytes(chunk@)),
    {
        let text = read_bytes(chunk);
        self.push_text(text.as_str());
    }

    /// [`grown`].
    pub fn push_text(&mut self, text: &str)
        requires
            old(self).wf(),
        ensures
            final(self).wf(),
            final(self)@ == grown(old(self)@, text@),
    {
        if self.size >= MAX_ENTRY_BYTES as u128 {
            if !text.is_empty() {
                self.overrun = true;
            }
            return ;
        }
        proof {
            crate::debug_traffic::cut::lemma_byte_len_joined(self.body@, text@);
        }
        self.size = self.size + bytes_of(text);
        self.body.append(text);
    }

    /// Ends the exchange, and hands it out where it is to be kept: [`handed_out`].
    pub fn finish(&mut self) -> (r: Option<TrafficEntry>)
        requires
            old(self).wf(),
        ensures
            final(self).wf(),
            final(self)@ == finished(old(self)@),
            match handed_out(old(self)@) {
                Some(e) => r is Some && r->0@ == e,
                None => r is None,
            },
    {
        if self.done {
            return None;
        }
        self.done = true;
        if !self.sent {
            return None;
        }
        let mut entry = self.entry.dup();
        if !self.body.as_str().is_empty() {
            entry.response_body = Some(self.body.clone());
        }
        if self.overrun {
            entry.truncated = true;
        }
        let overrun = self.overrun;
        self.start_body();
        self.overrun = overrun;
        self.entry = entry.dup();
        Some(entry)
    }
}

} // verus!
