//! Signing in through a browser: the tasks that wait for it, and the course of one sign-in.
//!
//! A task is known by the state that the provider gave it, from when that is known until ten
//! minutes after it ended or until it is canceled. The course of a sign-in is a machine: it says
//! what to do next, and is told what came of it.
use vstd::prelude::*;
use crate::json::{
    dup_or_null, field, json_int, list_view, or_null, str_of, text_in, text_or_empty, text_seen,
    text_view, Json, JsonValue, Object,
};
use crate::protocol::responses::owned;
use crate::text::same;

verus! {

/// How long to wait between two questions for the token.
pub const LOGIN_POLL_INTERVAL_MS: u64 = 3000;

/// How long to ask for the token at most.
pub const LOGIN_TIMEOUT_MS: u64 = 300_000;

/// How long to wait for the address to open.
pub const AUTH_URL_WAIT_MS: u64 = 15_000;

/// How long a task that ended is kept.
pub const TASK_RETENTION_MS: i64 = 600_000;

// ─── One task ────────────────────────────────────────────────

/// A sign-in as its caller sees it.
pub struct LoginTaskState {
    pub state: Option<String>,
    pub auth_url: Option<String>,
    pub done: bool,
    pub error: Option<String>,
    pub session: Option<JsonValue>,
    pub edition: String,
    pub canceled: bool,
    pub finished_at: Option<i64>,
}

/// The plain value of a [`LoginTaskState`].
pub struct TaskView {
    pub state: Option<Seq<char>>,
    pub auth_url: Option<Seq<char>>,
    pub done: bool,
    pub error: Option<Seq<char>>,
    pub session: Option<Json>,
    pub edition: Seq<char>,
    pub canceled: bool,
    pub finished_at: Option<i64>,
}

impl View for LoginTaskState {
    type V = TaskView;

    open spec fn view(&self) -> TaskView {
        TaskView {
            state: text_view(self.state),
            auth_url: text_view(self.auth_url),
            done: self.done,
            error: text_view(self.error),
            session: owned(self.session),
            edition: self.edition@,
            canceled: self.canceled,
            finished_at: self.finished_at,
        }
    }
}

/// A task at its start.
pub open spec fn fresh_task(edition: Seq<char>) -> TaskView {
    TaskView {
        state: None,
        auth_url: None,
        done: false,
        error: None,
        session: None,
        edition,
        canceled: false,
        finished_at: None,
    }
}

/// What is answered to one who waits for a task.
pub open spec fn wait_answer(t: TaskView) -> Json {
    if !t.done {
        Json::Obj(seq![("pending"@, Json::Bool(true))])
    } else {
        match t.error {
            Some(e) => Json::Obj(seq![("done"@, Json::Bool(true)), ("error"@, Json::Str(e))]),
            None => Json::Obj(seq![("done"@, Json::Bool(true)), ("session"@, or_null(t.session))]),
        }
    }
}

/// What is told of a session when a task is done.
pub open spec fn session_summary(session: Json) -> Json {
    let account = or_null(field(session, "account"@));
    Json::Obj(
        seq![
            ("accountUid"@, or_null(field(account, "uid"@))),
            ("nickname"@, or_null(field(account, "nickname"@))),
            ("edition"@, Json::Str(text_or_empty(field(session, "edition"@)))),
        ],
    )
}

pub open spec fn task_succeeded(t: TaskView, session: Json, now: i64) -> TaskView {
    TaskView { done: true, session: Some(session_summary(session)), finished_at: Some(now), ..t }
}

pub open spec fn task_failed(t: TaskView, message: Seq<char>, now: i64) -> TaskView {
    TaskView { done: true, error: Some(message), finished_at: Some(now), ..t }
}

pub open spec fn task_canceled(t: TaskView, now: i64) -> TaskView {
    TaskView {
        canceled: true,
        done: true,
        error: Some("登录已取消"@),
        finished_at: Some(now),
        ..t
    }
}

impl LoginTaskState {
    /// [`fresh_task`].
    pub fn new(edition: &str) -> (out: LoginTaskState)
        ensures
            out@ == fresh_task(edition@),
    {
        LoginTaskState {
            state: None,
            auth_url: None,
            done: false,
            error: None,
            session: None,
            edition: edition.to_owned(),
            canceled: false,
            finished_at: None,
        }
    }

    /// The same task again.
    pub fn dup(&self) -> (out: LoginTaskState)
        ensures
            out@ == self@,
    {
        LoginTaskState {
            state: match &self.state {
                Some(s) => Some(s.clone()),
                None => None,
            },
            auth_url: match &self.auth_url {
                Some(s) => Some(s.clone()),
                None => None,
            },
            done: self.done,
            error: match &self.error {
                Some(s) => Some(s.clone()),
                None => None,
            },
            session: match &self.session {
                Some(v) => Some(v.dup()),
                None => None,
            },
            edition: self.edition.clone(),
            canceled: self.canceled,
            finished_at: self.finished_at,
        }
    }

    /// [`wait_answer`].
    pub fn to_wait_response(&self) -> (out: JsonValue)
        ensures
            out@ == wait_answer(self@),
    {
        let mut o = Object::new();
        if !self.done {
            o.push("pending", JsonValue::Bool(true));
        } else {
            o.push("done", JsonValue::Bool(true));
            match &self.error {
                Some(e) => {
                    o.push("error", JsonValue::text(e.as_str()));
                },
                None => {
                    o.push("session", dup_or_null(self.session.as_ref()));
                },
            }
        }
        assert(o@ =~= wait_answer(self@)->Obj_0);
        JsonValue::Obj(o)
    }

    /// The address to open and the state are known.
    pub fn announce(&mut self, url: &str, state: Option<&str>)
        ensures
            final(self)@ == (TaskView {
                auth_url: Some(url@),
                state: text_seen(state),
                ..old(self)@
            }),
    {
        self.auth_url = Some(url.to_owned());
        self.state = match state {
            Some(s) => Some(s.to_owned()),
            None => None,
        };
    }

    /// [`task_succeeded`].
    pub fn succeed(&mut self, session: &JsonValue, now: i64)
        ensures
            final(self)@ == task_succeeded(old(self)@, session@, now),
    {
        let account = dup_or_null(session.get("account"));
        let mut o = Object::new();
        o.push("accountUid", dup_or_null(account.get("uid")));
        o.push("nickname", dup_or_null(account.get("nickname")));
        o.push("edition", JsonValue::Str(text_in(session.get("edition"))));
        assert(o@ =~= session_summary(session@)->Obj_0);
        self.done = true;
        self.session = Some(JsonValue::Obj(o));
        self.finished_at = Some(now);
    }

    /// [`task_failed`].
    pub fn fail(&mut self, message: &str, now: i64)
        ensures
            final(self)@ == task_failed(old(self)@, message@, now),
    {
        self.done = true;
        self.error = Some(message.to_owned());
        self.finished_at = Some(now);
    }

    fn mark_canceled(&mut self, now: i64)
        ensures
            final(self)@ == task_canceled(old(self)@, now),
    {
        self.canceled = true;
        self.done = true;
        self.error = Some("登录已取消".to_owned());
        self.finished_at = Some(now);
    }

    /// What one who waits for the address finds: the state, the address and the edition; an
    /// error; or nothing yet.
    pub fn auth_url_ready(&self, timed_out: bool) -> (r: Option<
        Result<(String, String, String), String>,
    >)
        ensures
            match address_answer(self@, timed_out) {
                Some(Ok(a)) => r is Some && r->0 is Ok && r->0->Ok_0.0@ == a.0 && r->0->Ok_0.1@
                    == a.1 && r->0->Ok_0.2@ == a.2,
                Some(Err(e)) => r is Some && r->0 is Err && r->0->Err_0@ == e,
                None => r is None,
            },
    {
        if let Some(state) = &self.state {
            if let Some(url) = &self.auth_url {
                return Some(Ok((state.clone(), url.clone(), self.edition.clone())));
            }
        }
        if self.done {
            return Some(
                Err(
                    match &self.error {
                        Some(e) => e.clone(),
                        None => "上游登录服务未返回登录链接".to_owned(),
                    },
                ),
            );
        }
        if timed_out {
            Some(Err("上游登录服务未返回登录链接".to_owned()))
        } else {
            None
        }
    }
}

/// What one who waits for the address is told, once there is something to tell.
pub open spec fn address_answer(t: TaskView, timed_out: bool) -> Option<
    Result<(Seq<char>, Seq<char>, Seq<char>), Seq<char>>,
> {
    if t.state is Some && t.auth_url is Some {
        Some(Ok((t.state->0, t.auth_url->0, t.edition)))
    } else if t.done {
        Some(
            Err(
                match t.error {
                    Some(e) => e,
                    None => "上游登录服务未返回登录链接"@,
                },
            ),
        )
    } else if timed_out {
        Some(Err("上游登录服务未返回登录链接"@))
    } else {
        None
    }
}

// ─── All tasks ───────────────────────────────────────────────

/// A task in the table.
pub struct TaskEntry {
    pub state: String,
    pub ticket: u64,
    pub task: LoginTaskState,
}

/// The plain value of a [`TaskEntry`].
pub struct EntryView {
    pub state: Seq<char>,
    pub ticket: u64,
    pub task: TaskView,
}

impl View for TaskEntry {
    type V = EntryView;

    open spec fn view(&self) -> EntryView {
        EntryView { state: self.state@, ticket: self.ticket, task: self.task@ }
    }
}

/// The tasks whose state is known.
pub struct LoginTasks {
    pub entries: Vec<TaskEntry>,
    pub next_ticket: u64,
}

pub open spec fn entries_view(entries: Seq<TaskEntry>) -> Seq<EntryView> {
    entries.map_values(|e: TaskEntry| e@)
}

impl View for LoginTasks {
    type V = Seq<EntryView>;

    open spec fn view(&self) -> Seq<EntryView> {
        entries_view(self.entries@)
    }
}

/// The task is kept: it has not ended, or not long ago.
pub open spec fn kept(t: TaskView, now: i64) -> bool {
    match t.finished_at {
        Some(finished) => now - finished < TASK_RETENTION_MS,
        None => true,
    }
}

/// The entries that are kept.
pub open spec fn swept(entries: Seq<EntryView>, now: i64) -> Seq<EntryView>
    decreases entries.len(),
{
    if entries.len() == 0 {
        entries
    } else if kept(entries.last().task, now) {
        swept(entries.drop_last(), now).push(entries.last())
    } else {
        swept(entries.drop_last(), now)
    }
}

/// The entry of a state.
pub open spec fn entry_of(entries: Seq<EntryView>, state: Seq<char>) -> Option<EntryView>
    decreases entries.len(),
{
    if entries.len() == 0 {
        None
    } else if entries.last().state == state {
        Some(entries.last())
    } else {
        entry_of(entries.drop_last(), state)
    }
}

/// The entries but for those of a state.
pub open spec fn without_state(entries: Seq<EntryView>, state: Seq<char>) -> Seq<EntryView>
    decreases entries.len(),
{
    if entries.len() == 0 {
        entries
    } else if entries.last().state == state {
        without_state(entries.drop_last(), state)
    } else {
        without_state(entries.drop_last(), state).push(entries.last())
    }
}

/// The entries but for those of a ticket.
pub open spec fn without_ticket(entries: Seq<EntryView>, ticket: u64) -> Seq<EntryView>
    decreases entries.len(),
{
    if entries.len() == 0 {
        entries
    } else if entries.last().ticket == ticket {
        without_ticket(entries.drop_last(), ticket)
    } else {
        without_ticket(entries.drop_last(), ticket).push(entries.last())
    }
}

/// What is found for a state. The empty state is nobody's.
pub open spec fn found(entries: Seq<EntryView>, state: Seq<char>, now: i64) -> Option<EntryView> {
    if state.len() == 0 {
        None
    } else {
        entry_of(swept(entries, now), state)
    }
}

/// The entries with what became of one task.
pub open spec fn updated(entries: Seq<EntryView>, ticket: u64, task: TaskView) -> Seq<EntryView> {
    entries.map_values(
        |e: EntryView|
            if e.ticket == ticket {
                EntryView { task, ..e }
            } else {
                e
            },
    )
}

/// A task can be canceled: it is there and has not ended.
pub open spec fn cancelable(entries: Seq<EntryView>, state: Seq<char>, now: i64) -> bool {
    match found(entries, state, now) {
        Some(e) => !e.task.done,
        None => false,
    }
}

/// The entries after a registration.
pub open spec fn registered(
    entries: Seq<EntryView>,
    state: Seq<char>,
    ticket: u64,
    task: TaskView,
    now: i64,
) -> Seq<EntryView> {
    without_state(swept(entries, now), state).push(EntryView { state, ticket, task })
}

/// The entries after a cancellation that took place.
pub open spec fn after_cancel(entries: Seq<EntryView>, state: Seq<char>, now: i64) -> Seq<EntryView> {
    let s = swept(entries, now);
    without_ticket(s, entry_of(s, state)->0.ticket)
}

proof fn lemma_ticket_gone(entries: Seq<EntryView>, ticket: u64, i: int)
    requires
        0 <= i < without_ticket(entries, ticket).len(),
    ensures
        without_ticket(entries, ticket)[i].ticket != ticket,
        entries.contains(without_ticket(entries, ticket)[i]),
    decreases entries.len(),
{
    let short = entries.drop_last();
    let r = without_ticket(entries, ticket);
    if i < without_ticket(short, ticket).len() {
        lemma_ticket_gone(short, ticket, i);
        let k = choose|k: int| 0 <= k < short.len() && short[k] == r[i];
        assert(entries[k] == r[i]);
    } else {
        assert(entries[entries.len() - 1] == r[i]);
    }
}

proof fn lemma_entry_at(entries: Seq<EntryView>, state: Seq<char>)
    ensures
        match entry_of(entries, state) {
            Some(e) => e.state == state && entries.contains(e),
            None => forall|i: int| 0 <= i < entries.len() ==> (#[trigger] entries[i]).state != state,
        },
    decreases entries.len(),
{
    if entries.len() > 0 {
        let short = entries.drop_last();
        lemma_entry_at(short, state);
        if entries.last().state == state {
            assert(entries[entries.len() - 1] == entries.last());
        } else if entry_of(short, state) is Some {
            let e = entry_of(short, state)->0;
            let k = choose|k: int| 0 <= k < short.len() && short[k] == e;
            assert(entries[k] == e);
        } else {
            assert forall|i: int| 0 <= i < entries.len() implies (#[trigger] entries[i]).state
                != state by {
                if i < short.len() {
                    assert(short[i] == entries[i]);
                }
            }
        }
    }
}

proof fn lemma_swept_from(entries: Seq<EntryView>, now: i64, i: int)
    requires
        0 <= i < swept(entries, now).len(),
    ensures
        entries.contains(swept(entries, now)[i]),
    decreases entries.len(),
{
    let short = entries.drop_last();
    let r = swept(entries, now);
    if i < swept(short, now).len() {
        lemma_swept_from(short, now, i);
        let k = choose|k: int| 0 <= k < short.len() && short[k] == r[i];
        assert(entries[k] == r[i]);
    } else {
        assert(entries[entries.len() - 1] == r[i]);
    }
}

/// The state of an entry is that of no other.
pub open spec fn distinct_states(entries: Seq<EntryView>) -> bool {
    forall|i: int, j: int|
        0 <= i < j < entries.len() ==> (#[trigger] entries[i]).state != (#[trigger] entries[j]).state
}

/// A canceled task is not found any more, at whatever time.
pub proof fn canceled_task_is_gone(entries: Seq<EntryView>, state: Seq<char>, now: i64, later: i64)
    requires
        distinct_states(entries),
        cancelable(entries, state, now),
    ensures
        found(after_cancel(entries, state, now), state, later) is None,
{
    let s = swept(entries, now);
    lemma_entry_at(s, state);
    let e = entry_of(s, state)->0;
    let r = after_cancel(entries, state, now);
    let t = swept(r, later);
    lemma_entry_at(t, state);
    if entry_of(t, state) is Some {
        let f = entry_of(t, state)->0;
        let i = choose|i: int| 0 <= i < t.len() && t[i] == f;
        lemma_swept_from(r, later, i);
        let j = choose|j: int| 0 <= j < r.len() && r[j] == f;
        lemma_ticket_gone(s, e.ticket, j);
        let k = choose|k: int| 0 <= k < s.len() && s[k] == f;
        lemma_swept_from(entries, now, k);
        let a = choose|a: int| 0 <= a < entries.len() && entries[a] == f;
        let m = choose|m: int| 0 <= m < s.len() && s[m] == e;
        lemma_swept_from(entries, now, m);
        let b = choose|b: int| 0 <= b < entries.len() && entries[b] == e;
        if a < b {
            assert(entries[a].state != entries[b].state);
        } else if b < a {
            assert(entries[b].state != entries[a].state);
        }
        assert(f == e);
    }
}

proof fn lemma_entry_of_push(entries: Seq<EntryView>, e: EntryView)
    ensures
        entry_of(entries.push(e), e.state) == Some(e),
{
    assert(entries.push(e).drop_last() =~= entries);
}

/// A task that was registered is found, as long as it is kept.
pub proof fn registered_task_is_found(
    entries: Seq<EntryView>,
    state: Seq<char>,
    ticket: u64,
    task: TaskView,
    now: i64,
    later: i64,
)
    requires
        state.len() > 0,
        kept(task, later),
    ensures
        found(registered(entries, state, ticket, task, now), state, later) == Some(
            EntryView { state, ticket, task },
        ),
{
    let e = EntryView { state, ticket, task };
    let rest = without_state(swept(entries, now), state);
    let r = rest.push(e);
    assert(r.drop_last() =~= rest);
    assert(swept(r, later) == swept(rest, later).push(e));
    lemma_entry_of_push(swept(rest, later), e);
}

fn is_kept(t: &LoginTaskState, now: i64) -> (r: bool)
    ensures
        r == kept(t@, now),
{
    match t.finished_at {
        Some(finished) => now as i128 - (finished as i128) < TASK_RETENTION_MS as i128,
        None => true,
    }
}

fn dup_entry(e: &TaskEntry) -> (out: TaskEntry)
    ensures
        out@ == e@,
{
    TaskEntry { state: e.state.clone(), ticket: e.ticket, task: e.task.dup() }
}

impl LoginTasks {
    pub fn new() -> (out: LoginTasks)
        ensures
            out@ == Seq::<EntryView>::empty(),
            out.next_ticket == 1,
    {
        let entries: Vec<TaskEntry> = Vec::new();
        assert(entries_view(entries@) =~= Seq::<EntryView>::empty());
        LoginTasks { entries, next_ticket: 1 }
    }

    /// A number for a new task.
    pub fn next_ticket(&mut self) -> (ticket: u64)
        ensures
            ticket == old(self).next_ticket,
            final(self).next_ticket == crate::protocol::wrapping_next(ticket),
            final(self)@ == old(self)@,
    {
        let ticket: u64 = self.next_ticket;
        self.next_ticket = if ticket == u64::MAX { 0 } else { ticket + 1 };
        ticket
    }

    fn sweep(&mut self, now: i64)
        ensures
            final(self)@ == swept(old(self)@, now),
            final(self).next_ticket == old(self).next_ticket,
    {
        let ghost all = self@;
        let mut kept_entries: Vec<TaskEntry> = Vec::new();
        assert(entries_view(kept_entries@) =~= swept(all.take(0), now));
        for i in 0..self.entries.len()
            invariant
                all == self@,
                entries_view(kept_entries@) == swept(all.take(i as int), now),
        {
            assert(all.take(i + 1).drop_last() =~= all.take(i as int));
            assert(all.take(i + 1).last() == self.entries@[i as int]@);
            if is_kept(&self.entries[i].task, now) {
                let ghost before = kept_entries@;
                kept_entries.push(dup_entry(&self.entries[i]));
                assert(entries_view(kept_entries@) =~= entries_view(before).push(
                    kept_entries@.last()@,
                ));
            }
        }
        assert(all.take(all.len() as int) =~= all);
        self.entries = kept_entries;
    }

    fn lookup(&self, state: &str) -> (r: Option<usize>)
        ensures
            match r {
                Some(i) => i < self.entries@.len() && entry_of(self@, state@) == Some(self@[i as int]),
                None => entry_of(self@, state@) is None,
            },
    {
        let ghost all = self@;
        let mut i: usize = self.entries.len();
        assert(all.take(i as int) =~= all);
        while i > 0
            invariant
                i <= self.entries@.len(),
                all == self@,
                entry_of(all, state@) == entry_of(all.take(i as int), state@),
            decreases i,
        {
            assert(all.take(i as int).last() == self.entries@[i - 1]@);
            assert(all.take(i as int).drop_last() =~= all.take(i - 1));
            if same(self.entries[i - 1].state.as_str(), state) {
                return Some(i - 1);
            }
            i = i - 1;
        }
        None
    }

    /// The task of a state. Tasks that ended long ago are forgotten on the way.
    pub fn get(&mut self, state: &str, now: i64) -> (r: Option<(u64, LoginTaskState)>)
        ensures
            final(self)@ == if state@.len() == 0 {
                old(self)@
            } else {
                swept(old(self)@, now)
            },
            final(self).next_ticket == old(self).next_ticket,
            match found(old(self)@, state@, now) {
                Some(e) => match r {
                    Some(hit) => hit.0 == e.ticket && hit.1@ == e.task,
                    None => false,
                },
                None => r is None,
            },
    {
        if state.is_empty() {
            return None;
        }
        self.sweep(now);
        match self.lookup(state) {
            Some(i) => Some((self.entries[i].ticket, self.entries[i].task.dup())),
            None => None,
        }
    }

    /// Makes a task known by its state, in place of one that had it before.
    pub fn register(&mut self, state: &str, ticket: u64, task: LoginTaskState, now: i64) -> (r: bool)
        ensures
            r == (state@.len() > 0),
            final(self).next_ticket == old(self).next_ticket,
            final(self)@ == if r {
                registered(old(self)@, state@, ticket, task@, now)
            } else {
                old(self)@
            },
    {
        if state.is_empty() {
            return false;
        }
        self.sweep(now);
        let ghost all = self@;
        let mut rest: Vec<TaskEntry> = Vec::new();
        assert(entries_view(rest@) =~= without_state(all.take(0), state@));
        for i in 0..self.entries.len()
            invariant
                all == self@,
                entries_view(rest@) == without_state(all.take(i as int), state@),
        {
            assert(all.take(i + 1).drop_last() =~= all.take(i as int));
            assert(all.take(i + 1).last() == self.entries@[i as int]@);
            if !same(self.entries[i].state.as_str(), state) {
                let ghost before = rest@;
                rest.push(dup_entry(&self.entries[i]));
                assert(entries_view(rest@) =~= entries_view(before).push(rest@.last()@));
            }
        }
        assert(all.take(all.len() as int) =~= all);
        let ghost before = rest@;
        let ghost entry = EntryView { state: state@, ticket, task: task@ };
        rest.push(TaskEntry { state: state.to_owned(), ticket, task });
        assert(entries_view(rest@) =~= entries_view(before).push(entry));
        self.entries = rest;
        true
    }

    /// What became of a task since it was registered.
    pub fn update(&mut self, ticket: u64, task: &LoginTaskState)
        ensures
            final(self)@ == updated(old(self)@, ticket, task@),
            final(self).next_ticket == old(self).next_ticket,
    {
        let ghost all = updated(self@, ticket, task@);
        let mut next: Vec<TaskEntry> = Vec::new();
        assert(entries_view(next@) =~= all.take(0));
        for i in 0..self.entries.len()
            invariant
                all == updated(self@, ticket, task@),
                entries_view(next@) == all.take(i as int),
        {
            let ghost before = next@;
            let mut e = dup_entry(&self.entries[i]);
            if e.ticket == ticket {
                e.task = task.dup();
            }
            assert(e@ == all[i as int]);
            next.push(e);
            assert(entries_view(next@) =~= entries_view(before).push(next@.last()@));
            assert(all.take(i + 1) =~= all.take(i as int).push(all[i as int]));
        }
        assert(all.take(all.len() as int) =~= all);
        self.entries = next;
    }

    /// Cancels a task that has not ended, and forgets it at once: whoever asks for it next is told
    /// that there is no such task. Gives the canceled task with its number.
    pub fn cancel(&mut self, state: &str, now: i64) -> (r: Option<(u64, LoginTaskState)>)
        ensures
            final(self).next_ticket == old(self).next_ticket,
            r is Some == cancelable(old(self)@, state@, now),
            match r {
                Some(hit) => {
                    let e = found(old(self)@, state@, now)->0;
                    &&& hit.0 == e.ticket
                    &&& hit.1@ == task_canceled(e.task, now)
                    &&& final(self)@ == after_cancel(old(self)@, state@, now)
                },
                None => final(self)@ == if state@.len() == 0 {
                    old(self)@
                } else {
                    swept(old(self)@, now)
                },
            },
    {
        let (ticket, task) = match self.get(state, now) {
            Some(hit) => hit,
            None => {
                return None;
            },
        };
        if task.done {
            return None;
        }
        let mut task = task;
        task.mark_canceled(now);
        let ghost all = self@;
        let mut rest: Vec<TaskEntry> = Vec::new();
        assert(entries_view(rest@) =~= without_ticket(all.take(0), ticket));
        for i in 0..self.entries.len()
            invariant
                all == self@,
                entries_view(rest@) == without_ticket(all.take(i as int), ticket),
        {
            assert(all.take(i + 1).drop_last() =~= all.take(i as int));
            assert(all.take(i + 1).last() == self.entries@[i as int]@);
            if self.entries[i].ticket != ticket {
                let ghost before = rest@;
                rest.push(dup_entry(&self.entries[i]));
                assert(entries_view(rest@) =~= entries_view(before).push(rest@.last()@));
            }
        }
        assert(all.take(all.len() as int) =~= all);
        self.entries = rest;
        Some((ticket, task))
    }
}

// ─── The course of a sign-in ─────────────────────────────────

/// Where the sign-in takes place.
pub struct LoginContext {
    pub base_url: String,
    pub prefix: String,
    pub platform: String,
    pub edition: String,
}

/// The plain value of a [`LoginContext`].
pub struct ContextView {
    pub base_url: Seq<char>,
    pub prefix: Seq<char>,
    pub platform: Seq<char>,
    pub edition: Seq<char>,
}

impl View for LoginContext {
    type V = ContextView;

    open spec fn view(&self) -> ContextView {
        ContextView {
            base_url: self.base_url@,
            prefix: self.prefix@,
            platform: self.platform@,
            edition: self.edition@,
        }
    }
}

/// What the sign-in waits for.
#[derive(Clone, Copy, PartialEq, Eq, Structural)]
pub enum LoginPhase {
    AskingState,
    Announcing,
    ReadingClock,
    Sleeping,
    AskingToken,
    AskingAccount,
    AskingAccounts,
    Saving,
    Over,
}

/// Why something failed, with a status where there is one.
pub struct LoginError {
    pub status: Option<i32>,
    pub message: String,
}

/// What came of an action. The replies hold the data that was unwrapped from them; of a token
/// both as it came and with its time of expiry.
pub enum LoginEvent {
    StateReply(Result<JsonValue, LoginError>),
    Announced,
    Clock { timed_out: bool, canceled: bool },
    Woke { canceled: bool },
    TokenReply(Option<(JsonValue, JsonValue)>),
    AccountReply(Option<JsonValue>),
    AccountsReply(Option<Vec<JsonValue>>),
    Saved(Result<(), LoginError>),
}

/// What to do next.
pub enum LoginAction {
    AskState,
    Announce { url: String, known: Option<String> },
    ReadClock,
    Sleep,
    AskToken { state: String },
    AskAccount { state: String },
    AskAccounts,
    Save { session: JsonValue },
    Finish { session: JsonValue },
    Fail(LoginError),
    Nothing,
}

/// The plain value of a [`LoginAction`].
pub enum ActionView {
    AskState,
    Announce(Seq<char>, Option<Seq<char>>),
    ReadClock,
    Sleep,
    AskToken(Seq<char>),
    AskAccount(Seq<char>),
    AskAccounts,
    Save(Json),
    Finish(Json),
    Fail(Option<i32>, Seq<char>),
    Nothing,
}

impl View for LoginAction {
    type V = ActionView;

    open spec fn view(&self) -> ActionView {
        match self {
            LoginAction::AskState => ActionView::AskState,
            LoginAction::Announce { url, known } => ActionView::Announce(url@, text_view(*known)),
            LoginAction::ReadClock => ActionView::ReadClock,
            LoginAction::Sleep => ActionView::Sleep,
            LoginAction::AskToken { state } => ActionView::AskToken(state@),
            LoginAction::AskAccount { state } => ActionView::AskAccount(state@),
            LoginAction::AskAccounts => ActionView::AskAccounts,
            LoginAction::Save { session } => ActionView::Save(session@),
            LoginAction::Finish { session } => ActionView::Finish(session@),
            LoginAction::Fail(e) => ActionView::Fail(e.status, e.message@),
            LoginAction::Nothing => ActionView::Nothing,
        }
    }
}

/// A sign-in under way.
pub struct LoginFlow {
    pub context: LoginContext,
    pub phase: LoginPhase,
    pub state: String,
    pub auth: JsonValue,
    pub account: JsonValue,
    pub session: JsonValue,
}

/// The plain value of a [`LoginFlow`].
pub struct FlowView {
    pub context: ContextView,
    pub phase: LoginPhase,
    pub state: Seq<char>,
    pub auth: Json,
    pub account: Json,
    pub session: Json,
}

impl View for LoginFlow {
    type V = FlowView;

    open spec fn view(&self) -> FlowView {
        FlowView {
            context: self.context@,
            phase: self.phase,
            state: self.state@,
            auth: self.auth@,
            account: self.account@,
            session: self.session@,
        }
    }
}

/// A sign-in at its start.
pub open spec fn flow_start(context: ContextView) -> FlowView {
    FlowView {
        context,
        phase: LoginPhase::AskingState,
        state: Seq::empty(),
        auth: Json::Null,
        account: Json::Obj(Seq::empty()),
        session: Json::Null,
    }
}

/// The state that the provider gave, under either of its names.
pub open spec fn given_state(data: Json) -> Option<Seq<char>> {
    str_of(crate::js::either(field(data, "state"@), field(data, "authState"@)))
}

/// Somebody signed in with this account before.
pub open spec fn used_before(account: Json) -> bool {
    match field(account, "lastLogin"@) {
        Some(v) => v != Json::Null,
        None => false,
    }
}

/// The first account that was used before, if any.
pub open spec fn first_used(accounts: Seq<Json>) -> Option<Json>
    decreases accounts.len(),
{
    if accounts.len() == 0 {
        None
    } else if used_before(accounts[0]) {
        Some(accounts[0])
    } else {
        first_used(accounts.drop_first())
    }
}

/// The account of the sign-in: the one that was fetched for it, else of all accounts the first
/// that was used before, else the first.
pub open spec fn signed_in_account(account: Json, accounts: Seq<Json>) -> Json {
    if text_or_empty(field(account, "uid"@)).len() > 0 {
        account
    } else {
        match first_used(accounts) {
            Some(a) => a,
            None => if accounts.len() > 0 {
                accounts[0]
            } else {
                Json::Obj(Seq::empty())
            },
        }
    }
}

/// The session of a sign-in.
pub open spec fn session_built(f: FlowView, accounts: Seq<Json>, now: i64) -> Json {
    Json::Obj(
        seq![
            ("endpoint"@, Json::Str(f.context.base_url)),
            ("prefixPath"@, Json::Str(f.context.prefix)),
            ("platform"@, Json::Str(f.context.platform)),
            ("edition"@, Json::Str(f.context.edition)),
            ("auth"@, f.auth),
            ("account"@, signed_in_account(f.account, accounts)),
            ("accounts"@, Json::Arr(accounts)),
            ("lastRefreshTime"@, json_int(now as int)),
        ],
    )
}

pub open spec fn flow_failed(f: FlowView, message: Seq<char>) -> (FlowView, ActionView) {
    (FlowView { phase: LoginPhase::Over, ..f }, ActionView::Fail(None, message))
}

pub open spec fn flow_to(f: FlowView, phase: LoginPhase, action: ActionView) -> (
    FlowView,
    ActionView,
) {
    (FlowView { phase, ..f }, action)
}

/// The reply to the question for a state.
pub open spec fn state_given(f: FlowView, data: Json) -> (FlowView, ActionView) {
    let state = given_state(data);
    let g = FlowView {
        state: match state {
            Some(s) => s,
            None => Seq::empty(),
        },
        ..f
    };
    match str_of(field(data, "authUrl"@)) {
        Some(url) => flow_to(g, LoginPhase::Announcing, ActionView::Announce(url, state)),
        None => if state is Some {
            flow_to(g, LoginPhase::ReadingClock, ActionView::ReadClock)
        } else {
            flow_failed(f, "auth/state 未返回 state/authUrl，无法发起登录"@)
        },
    }
}

/// The reply to the question for a token. As long as there is none, the question is put again.
pub open spec fn token_given(f: FlowView, data: Json, enriched: Json) -> (FlowView, ActionView) {
    if text_or_empty(field(data, "accessToken"@)).len() == 0 {
        flow_to(f, LoginPhase::ReadingClock, ActionView::ReadClock)
    } else {
        let g = FlowView { auth: enriched, ..f };
        if f.state.len() > 0 {
            flow_to(g, LoginPhase::AskingAccount, ActionView::AskAccount(f.state))
        } else {
            flow_to(g, LoginPhase::AskingAccounts, ActionView::AskAccounts)
        }
    }
}

/// All accounts are known, or could not be fetched, which stops nothing.
pub open spec fn accounts_given(f: FlowView, accounts: Seq<Json>, now: i64) -> (
    FlowView,
    ActionView,
) {
    let session = session_built(f, accounts, now);
    let account = signed_in_account(f.account, accounts);
    if text_or_empty(field(account, "uid"@)).len() == 0 {
        flow_failed(f, "登录成功但获取账号信息失败（缺少 uid），请重试"@)
    } else {
        flow_to(
            FlowView { session, ..f },
            LoginPhase::Saving,
            ActionView::Save(session),
        )
    }
}

/// The next step of a sign-in. What does not belong to its phase changes nothing.
pub open spec fn flow_next(f: FlowView, event: LoginEvent, now: i64) -> (FlowView, ActionView) {
    match (f.phase, event) {
        (LoginPhase::AskingState, LoginEvent::StateReply(Ok(data))) => state_given(f, data@),
        (LoginPhase::AskingState, LoginEvent::StateReply(Err(e))) => (
            FlowView { phase: LoginPhase::Over, ..f },
            ActionView::Fail(e.status, e.message@),
        ),
        (LoginPhase::Announcing, LoginEvent::Announced) => flow_to(
            f,
            LoginPhase::ReadingClock,
            ActionView::ReadClock,
        ),
        (LoginPhase::ReadingClock, LoginEvent::Clock { timed_out, canceled }) => if timed_out {
            flow_failed(f, "登录轮询超时（5 分钟）"@)
        } else if canceled {
            flow_failed(f, "登录已取消"@)
        } else {
            flow_to(f, LoginPhase::Sleeping, ActionView::Sleep)
        },
        (LoginPhase::Sleeping, LoginEvent::Woke { canceled }) => if canceled {
            flow_failed(f, "登录已取消"@)
        } else {
            flow_to(f, LoginPhase::AskingToken, ActionView::AskToken(f.state))
        },
        (LoginPhase::AskingToken, LoginEvent::TokenReply(Some(reply))) => token_given(
            f,
            reply.0@,
            reply.1@,
        ),
        (LoginPhase::AskingToken, LoginEvent::TokenReply(None)) => flow_to(
            f,
            LoginPhase::ReadingClock,
            ActionView::ReadClock,
        ),
        (LoginPhase::AskingAccount, LoginEvent::AccountReply(reply)) => flow_to(
            FlowView {
                account: match owned(reply) {
                    Some(Json::Obj(o)) => Json::Obj(o),
                    _ => f.account,
                },
                ..f
            },
            LoginPhase::AskingAccounts,
            ActionView::AskAccounts,
        ),
        (LoginPhase::AskingAccounts, LoginEvent::AccountsReply(Some(list))) => accounts_given(
            f,
            list_view(list),
            now,
        ),
        (LoginPhase::AskingAccounts, LoginEvent::AccountsReply(None)) => accounts_given(
            f,
            Seq::empty(),
            now,
        ),
        (LoginPhase::Saving, LoginEvent::Saved(Ok(_))) => flow_to(
            f,
            LoginPhase::Over,
            ActionView::Finish(f.session),
        ),
        (LoginPhase::Saving, LoginEvent::Saved(Err(e))) => (
            FlowView { phase: LoginPhase::Over, ..f },
            ActionView::Fail(e.status, e.message@),
        ),
        _ => (f, ActionView::Nothing),
    }
}

/// A sign-in that is over stays so: nothing that comes later is acted on.
pub proof fn sign_in_ends_once(f: FlowView, event: LoginEvent, now: i64)
    requires
        f.phase == LoginPhase::Over,
    ensures
        flow_next(f, event, now) == (f, ActionView::Nothing),
{
}

/// Whether it is read before or after the pause, a cancellation ends the sign-in.
pub proof fn cancellation_ends_sign_in(f: FlowView, now: i64)
    ensures
        f.phase == LoginPhase::Sleeping ==> flow_next(f, LoginEvent::Woke { canceled: true }, now).0.phase
            == LoginPhase::Over,
        f.phase == LoginPhase::ReadingClock ==> flow_next(
            f,
            LoginEvent::Clock { timed_out: false, canceled: true },
            now,
        ).0.phase == LoginPhase::Over,
{
}

/// A session is saved only with an account that has a user.
pub proof fn saved_session_has_user(f: FlowView, accounts: Seq<Json>, now: i64)
    requires
        accounts_given(f, accounts, now).1 is Save,
    ensures
        text_or_empty(field(signed_in_account(f.account, accounts), "uid"@)).len() > 0,
{
}

fn find_used(accounts: &Vec<JsonValue>) -> (r: Option<JsonValue>)
    ensures
        owned(r) == first_used(list_view(*accounts)),
{
    let ghost all = list_view(*accounts);
    assert(all.skip(0) =~= all);
    for i in 0..accounts.len()
        invariant
            all == list_view(*accounts),
            first_used(all) == first_used(all.skip(i as int)),
    {
        assert(all.skip(i as int)[0] == accounts@[i as int]@);
        assert(all.skip(i as int).drop_first() =~= all.skip(i + 1));
        if let Some(v) = accounts[i].get("lastLogin") {
            if !v.is_null() {
                return Some(accounts[i].dup());
            }
        }
    }
    None
}

fn choose_account(account: &JsonValue, accounts: &Vec<JsonValue>) -> (out: JsonValue)
    ensures
        out@ == signed_in_account(account@, list_view(*accounts)),
{
    if !text_in(account.get("uid")).as_str().is_empty() {
        return account.dup();
    }
    match find_used(accounts) {
        Some(a) => a,
        None => if accounts.len() > 0 {
            assert(list_view(*accounts)[0] == accounts@[0]@);
            accounts[0].dup()
        } else {
            JsonValue::Obj(Object::new())
        },
    }
}

fn failure(message: &str) -> (out: LoginAction)
    ensures
        out@ == ActionView::Fail(None, message@),
{
    LoginAction::Fail(LoginError { status: None, message: message.to_owned() })
}

impl LoginFlow {
    /// [`flow_start`]. The first thing to do is to ask for a state.
    pub fn new(context: LoginContext) -> (out: LoginFlow)
        ensures
            out@ == flow_start(context@),
    {
        LoginFlow {
            context,
            phase: LoginPhase::AskingState,
            state: String::new(),
            auth: JsonValue::Null,
            account: JsonValue::Obj(Object::new()),
            session: JsonValue::Null,
        }
    }

    fn take_state(&mut self, data: &JsonValue) -> (action: LoginAction)
        ensures
            (final(self)@, action@) == state_given(old(self)@, data@),
    {
        let named = match data.get("state") {
            Some(v) => Some(v),
            None => data.get("authState"),
        };
        let state = match named {
            Some(JsonValue::Str(s)) => Some(s.clone()),
            _ => None,
        };
        match data.get("authUrl") {
            Some(JsonValue::Str(url)) => {
                self.state = match &state {
                    Some(s) => s.clone(),
                    None => String::new(),
                };
                self.phase = LoginPhase::Announcing;
                LoginAction::Announce { url: url.clone(), known: state }
            },
            _ => match state {
                Some(s) => {
                    self.state = s;
                    self.phase = LoginPhase::ReadingClock;
                    LoginAction::ReadClock
                },
                None => {
                    self.phase = LoginPhase::Over;
                    failure("auth/state 未返回 state/authUrl，无法发起登录")
                },
            },
        }
    }

    fn take_token(&mut self, data: &JsonValue, enriched: JsonValue) -> (action: LoginAction)
        ensures
            (final(self)@, action@) == token_given(old(self)@, data@, enriched@),
    {
        if text_in(data.get("accessToken")).as_str().is_empty() {
            self.phase = LoginPhase::ReadingClock;
            return LoginAction::ReadClock;
        }
        self.auth = enriched;
        if self.state.as_str().is_empty() {
            self.phase = LoginPhase::AskingAccounts;
            LoginAction::AskAccounts
        } else {
            self.phase = LoginPhase::AskingAccount;
            LoginAction::AskAccount { state: self.state.clone() }
        }
    }

    fn take_accounts(&mut self, accounts: Vec<JsonValue>, now: i64) -> (action: LoginAction)
        ensures
            (final(self)@, action@) == accounts_given(old(self)@, list_view(accounts), now),
    {
        let account = choose_account(&self.account, &accounts);
        if text_in(account.get("uid")).as_str().is_empty() {
            self.phase = LoginPhase::Over;
            return failure("登录成功但获取账号信息失败（缺少 uid），请重试");
        }
        let ghost built = session_built(self@, list_view(accounts), now)->Obj_0;
        let mut o = Object::new();
        o.push("endpoint", JsonValue::text(self.context.base_url.as_str()));
        o.push("prefixPath", JsonValue::text(self.context.prefix.as_str()));
        o.push("platform", JsonValue::text(self.context.platform.as_str()));
        o.push("edition", JsonValue::text(self.context.edition.as_str()));
        o.push("auth", self.auth.dup());
        o.push("account", account);
        o.push("accounts", JsonValue::Arr(accounts));
        o.push("lastRefreshTime", JsonValue::integer(now));
        assert(o@ =~= built);
        let session = JsonValue::Obj(o);
        self.session = session.dup();
        self.phase = LoginPhase::Saving;
        LoginAction::Save { session }
    }

    /// [`flow_next`].
    pub fn next(&mut self, event: LoginEvent, now: i64) -> (action: LoginAction)
        ensures
            (final(self)@, action@) == flow_next(old(self)@, event, now),
    {
        match (self.phase, event) {
            (LoginPhase::AskingState, LoginEvent::StateReply(Ok(data))) => self.take_state(&data),
            (LoginPhase::AskingState, LoginEvent::StateReply(Err(e))) => {
                self.phase = LoginPhase::Over;
                LoginAction::Fail(e)
            },
            (LoginPhase::Announcing, LoginEvent::Announced) => {
                self.phase = LoginPhase::ReadingClock;
                LoginAction::ReadClock
            },
            (LoginPhase::ReadingClock, LoginEvent::Clock { timed_out, canceled }) => {
                if timed_out {
                    self.phase = LoginPhase::Over;
                    failure("登录轮询超时（5 分钟）")
                } else if canceled {
                    self.phase = LoginPhase::Over;
                    failure("登录已取消")
                } else {
                    self.phase = LoginPhase::Sleeping;
                    LoginAction::Sleep
                }
            },
            (LoginPhase::Sleeping, LoginEvent::Woke { canceled }) => {
                if canceled {
                    self.phase = LoginPhase::Over;
                    failure("登录已取消")
                } else {
                    self.phase = LoginPhase::AskingToken;
                    LoginAction::AskToken { state: self.state.clone() }
                }
            },
            (LoginPhase::AskingToken, LoginEvent::TokenReply(Some(reply))) => {
                let (data, enriched) = reply;
                self.take_token(&data, enriched)
            },
            (LoginPhase::AskingToken, LoginEvent::TokenReply(None)) => {
                self.phase = LoginPhase::ReadingClock;
                LoginAction::ReadClock
            },
            (LoginPhase::AskingAccount, LoginEvent::AccountReply(reply)) => {
                if let Some(account) = reply {
                    if let JsonValue::Obj(_) = &account {
                        self.account = account;
                    }
                }
                self.phase = LoginPhase::AskingAccounts;
                LoginAction::AskAccounts
            },
            (LoginPhase::AskingAccounts, LoginEvent::AccountsReply(Some(list))) => {
                self.take_accounts(list, now)
            },
            (LoginPhase::AskingAccounts, LoginEvent::AccountsReply(None)) => {
                let none: Vec<JsonValue> = Vec::new();
                assert(list_view(none) =~= Seq::empty());
                self.take_accounts(none, now)
            },
            (LoginPhase::Saving, LoginEvent::Saved(Ok(_))) => {
                self.phase = LoginPhase::Over;
                LoginAction::Finish { session: self.session.dup() }
            },
            (LoginPhase::Saving, LoginEvent::Saved(Err(e))) => {
                self.phase = LoginPhase::Over;
                LoginAction::Fail(e)
            },
            _ => LoginAction::Nothing,
        }
    }
}

} // verus!
