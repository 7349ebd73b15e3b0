//! A sign-in from its start to its end, and what one who waits for it is told.
use vstd::prelude::*;
use crate::json::{json_int, lemma_find_at, list_view, Json, JsonValue};
use crate::login::{
    address_answer, entry_of, first_used, flow_next, flow_start, found, fresh_task, session_built,
    signed_in_account, swept, task_canceled, task_failed, task_succeeded, updated, wait_answer,
    without_state, without_ticket, ActionView, ContextView, EntryView, FlowView, LoginError,
    LoginEvent, TaskView,
};
use crate::protocol::stream_laws::{part_of, said};

verus! {

// ─── The run of a sign-in ────────────────────────────────────

/// The provider is asked for the token of the state that it gave, and its address is announced.
pub proof fn state_is_carried(
    f: FlowView,
    reply: JsonValue,
    state: Seq<char>,
    url: Seq<char>,
    now: i64,
)
    requires
        f.phase is AskingState,
        part_of(reply@, "state"@) == Json::Str(state),
        part_of(reply@, "authUrl"@) == Json::Str(url),
    ensures
        ({
            let a = flow_next(f, LoginEvent::StateReply(Ok(reply)), now);
            let b = flow_next(a.0, LoginEvent::Announced, now);
            let c = flow_next(b.0, LoginEvent::Clock { timed_out: false, canceled: false }, now);
            let d = flow_next(c.0, LoginEvent::Woke { canceled: false }, now);
            &&& a.1 == ActionView::Announce(url, Some(state))
            &&& b.1 == ActionView::ReadClock
            &&& c.1 == ActionView::Sleep
            &&& d.1 == ActionView::AskToken(state)
            &&& d.0.phase is AskingToken
            &&& d.0.state == state
            &&& d.0.context == f.context
        }),
{
}

/// As long as there is no token the question is put again, after a look at the clock.
pub proof fn question_is_put_again(f: FlowView, reply: Option<(JsonValue, JsonValue)>, now: i64)
    requires
        f.phase is AskingToken,
        match reply {
            Some(r) => said(part_of(r.0@, "accessToken"@)).len() == 0,
            None => true,
        },
    ensures
        ({
            let a = flow_next(f, LoginEvent::TokenReply(reply), now);
            let b = flow_next(a.0, LoginEvent::Clock { timed_out: false, canceled: false }, now);
            let c = flow_next(b.0, LoginEvent::Woke { canceled: false }, now);
            &&& a.1 == ActionView::ReadClock
            &&& b.1 == ActionView::Sleep
            &&& c.1 == ActionView::AskToken(f.state)
            &&& c.0 == f
        }),
{
}

/// Out of time or canceled, a sign-in fails and is over.
pub proof fn waiting_has_an_end(f: FlowView, canceled: bool, now: i64)
    ensures
        f.phase is ReadingClock ==> {
            let a = flow_next(f, LoginEvent::Clock { timed_out: true, canceled }, now);
            a.1 is Fail && a.0.phase is Over
        },
        f.phase is ReadingClock ==> {
            let a = flow_next(f, LoginEvent::Clock { timed_out: false, canceled: true }, now);
            a.1 is Fail && a.0.phase is Over
        },
        f.phase is Sleeping ==> {
            let a = flow_next(f, LoginEvent::Woke { canceled: true }, now);
            a.1 is Fail && a.0.phase is Over
        },
{
}

proof fn lemma_session_words()
    ensures
        "endpoint"@.len() == 8,
        "prefixPath"@.len() == 10,
        "platform"@.len() == 8,
        "edition"@.len() == 7,
        "auth"@.len() == 4,
        "account"@.len() == 7,
        "accounts"@.len() == 8,
        "lastRefreshTime"@.len() == 15,
        "endpoint"@ != "platform"@,
        "endpoint"@ != "accounts"@,
        "platform"@ != "accounts"@,
        "edition"@ != "account"@,
{
    reveal_strlit("endpoint");
    reveal_strlit("prefixPath");
    reveal_strlit("platform");
    reveal_strlit("edition");
    reveal_strlit("auth");
    reveal_strlit("account");
    reveal_strlit("accounts");
    reveal_strlit("lastRefreshTime");
    assert("endpoint"@[0] != "platform"@[0]);
    assert("endpoint"@[0] != "accounts"@[0]);
    assert("platform"@[0] != "accounts"@[0]);
    assert("edition"@[0] != "account"@[0]);
}

/// The session that is saved holds the credentials and the account that the provider gave, with
/// the addresses of the sign-in, and is the one that the sign-in ends with.
pub proof fn session_holds_what_was_given(
    f: FlowView,
    plain: JsonValue,
    enriched: JsonValue,
    account: JsonValue,
    list: Vec<JsonValue>,
    now: i64,
)
    requires
        f.phase is AskingToken,
        f.state.len() > 0,
        part_of(plain@, "accessToken"@) is Str,
        said(part_of(plain@, "accessToken"@)).len() > 0,
        account@ is Obj,
        part_of(account@, "uid"@) is Str,
        said(part_of(account@, "uid"@)).len() > 0,
    ensures
        ({
            let a = flow_next(f, LoginEvent::TokenReply(Some((plain, enriched))), now);
            let b = flow_next(a.0, LoginEvent::AccountReply(Some(account)), now);
            let c = flow_next(b.0, LoginEvent::AccountsReply(Some(list)), now);
            let d = flow_next(c.0, LoginEvent::Saved(Ok(())), now);
            let session = c.1->Save_0;
            &&& a.1 == ActionView::AskAccount(f.state)
            &&& b.1 == ActionView::AskAccounts
            &&& c.1 is Save
            &&& part_of(session, "auth"@) == enriched@
            &&& part_of(session, "account"@) == account@
            &&& part_of(session, "accounts"@) == Json::Arr(list_view(list))
            &&& part_of(session, "endpoint"@) == Json::Str(f.context.base_url)
            &&& part_of(session, "prefixPath"@) == Json::Str(f.context.prefix)
            &&& part_of(session, "platform"@) == Json::Str(f.context.platform)
            &&& part_of(session, "edition"@) == Json::Str(f.context.edition)
            &&& part_of(session, "lastRefreshTime"@) == json_int(now as int)
            &&& d.1 == ActionView::Finish(session)
            &&& d.0.phase is Over
        }),
{
    lemma_session_words();
    let a = flow_next(f, LoginEvent::TokenReply(Some((plain, enriched))), now);
    let b = flow_next(a.0, LoginEvent::AccountReply(Some(account)), now);
    let o = session_built(b.0, list_view(list), now)->Obj_0;
    lemma_find_at(o, "endpoint"@, 0);
    lemma_find_at(o, "prefixPath"@, 1);
    lemma_find_at(o, "platform"@, 2);
    lemma_find_at(o, "edition"@, 3);
    lemma_find_at(o, "auth"@, 4);
    lemma_find_at(o, "account"@, 5);
    lemma_find_at(o, "accounts"@, 6);
    lemma_find_at(o, "lastRefreshTime"@, 7);
}

/// Nobody signed in with the account before.
pub open spec fn unused(account: Json) -> bool {
    part_of(account, "lastLogin"@) == Json::Null
}

proof fn lemma_first_used(accounts: Seq<Json>, i: int)
    requires
        0 <= i < accounts.len(),
        !unused(accounts[i]),
        forall|j: int| 0 <= j < i ==> unused(#[trigger] accounts[j]),
    ensures
        first_used(accounts) == Some(accounts[i]),
    decreases accounts.len(),
{
    if i > 0 {
        assert(unused(accounts[0]));
        let rest = accounts.drop_first();
        assert forall|j: int| 0 <= j < i - 1 implies unused(#[trigger] rest[j]) by {
            assert(rest[j] == accounts[j + 1]);
        }
        lemma_first_used(rest, i - 1);
    }
}

proof fn lemma_none_used(accounts: Seq<Json>)
    requires
        forall|j: int| 0 <= j < accounts.len() ==> unused(#[trigger] accounts[j]),
    ensures
        first_used(accounts) is None,
    decreases accounts.len(),
{
    if accounts.len() > 0 {
        assert(unused(accounts[0]));
        let rest = accounts.drop_first();
        assert forall|j: int| 0 <= j < rest.len() implies unused(#[trigger] rest[j]) by {
            assert(rest[j] == accounts[j + 1]);
        }
        lemma_none_used(rest);
    }
}

/// The account of the session is the one that was told for the state. Where none was told, it is
/// the first of all accounts that was used before.
pub proof fn account_is_the_first_used(account: Json, accounts: Seq<Json>, i: int)
    requires
        0 <= i < accounts.len(),
        !unused(accounts[i]),
        forall|j: int| 0 <= j < i ==> unused(#[trigger] accounts[j]),
    ensures
        said(part_of(account, "uid"@)).len() > 0 ==> signed_in_account(account, accounts)
            == account,
        said(part_of(account, "uid"@)).len() == 0 ==> signed_in_account(account, accounts)
            == accounts[i],
{
    lemma_first_used(accounts, i);
}

/// Where no account was used before, the first of all counts.
pub proof fn account_is_the_first(account: Json, accounts: Seq<Json>)
    requires
        accounts.len() > 0,
        forall|j: int| 0 <= j < accounts.len() ==> unused(#[trigger] accounts[j]),
        said(part_of(account, "uid"@)).len() == 0,
    ensures
        signed_in_account(account, accounts) == accounts[0],
{
    lemma_none_used(accounts);
}

/// A reply that says why it failed is passed on with its status.
pub proof fn refusals_are_passed_on(f: FlowView, e: LoginError, now: i64)
    ensures
        f.phase is AskingState ==> flow_next(f, LoginEvent::StateReply(Err(e)), now).1
            == ActionView::Fail(e.status, e.message@),
        f.phase is Saving ==> flow_next(f, LoginEvent::Saved(Err(e)), now).1 == ActionView::Fail(
            e.status,
            e.message@,
        ),
{
}

// ─── One who waits ───────────────────────────────────────────

proof fn lemma_wait_words()
    ensures
        "pending"@.len() == 7,
        "done"@.len() == 4,
        "error"@.len() == 5,
        "session"@.len() == 7,
        "accountUid"@.len() == 10,
        "nickname"@.len() == 8,
        "edition"@.len() == 7,
        "pending"@ != "session"@,
        "pending"@ != "edition"@,
        "session"@ != "edition"@,
{
    reveal_strlit("pending");
    reveal_strlit("done");
    reveal_strlit("error");
    reveal_strlit("session");
    reveal_strlit("accountUid");
    reveal_strlit("nickname");
    reveal_strlit("edition");
    assert("pending"@[0] != "session"@[0]);
    assert("pending"@[0] != "edition"@[0]);
    assert("session"@[0] != "edition"@[0]);
}

/// One who waits is told that the task is pending, why it failed, or who signed in.
pub proof fn waiting_is_answered(t: TaskView, session: Json, message: Seq<char>, now: i64)
    requires
        !t.done,
        t.error is None,
    ensures
        part_of(wait_answer(t), "pending"@) == Json::Bool(true),
        part_of(wait_answer(t), "done"@) == Json::Null,
        ({
            let a = wait_answer(task_failed(t, message, now));
            part_of(a, "done"@) == Json::Bool(true) && part_of(a, "error"@) == Json::Str(message)
        }),
        ({
            let a = wait_answer(task_succeeded(t, session, now));
            let who = part_of(session, "account"@);
            &&& part_of(a, "done"@) == Json::Bool(true)
            &&& part_of(a, "error"@) == Json::Null
            &&& part_of(part_of(a, "session"@), "accountUid"@) == part_of(who, "uid"@)
            &&& part_of(part_of(a, "session"@), "nickname"@) == part_of(who, "nickname"@)
            &&& part_of(part_of(a, "session"@), "edition"@) == Json::Str(
                said(part_of(session, "edition"@)),
            )
        }),
        ({
            let a = wait_answer(task_canceled(t, now));
            part_of(a, "done"@) == Json::Bool(true) && part_of(a, "error"@) is Str
        }),
{
    lemma_wait_words();
    let p = wait_answer(t)->Obj_0;
    lemma_find_at(p, "pending"@, 0);
    crate::json::lemma_find_none(p, "done"@);
    let e = wait_answer(task_failed(t, message, now))->Obj_0;
    lemma_find_at(e, "done"@, 0);
    lemma_find_at(e, "error"@, 1);
    let c = wait_answer(task_canceled(t, now))->Obj_0;
    lemma_find_at(c, "done"@, 0);
    lemma_find_at(c, "error"@, 1);
    let s = wait_answer(task_succeeded(t, session, now))->Obj_0;
    lemma_find_at(s, "done"@, 0);
    lemma_find_at(s, "session"@, 1);
    crate::json::lemma_find_none(s, "error"@);
    let o = s[1].1->Obj_0;
    lemma_find_at(o, "accountUid"@, 0);
    lemma_find_at(o, "nickname"@, 1);
    lemma_find_at(o, "edition"@, 2);
}

/// The address is told as soon as it is known, with the state it belongs to; a task that ended
/// without one says why.
pub proof fn address_is_told(t: TaskView, timed_out: bool)
    ensures
        t.state is Some && t.auth_url is Some ==> address_answer(t, timed_out) == Some(
            Ok::<(Seq<char>, Seq<char>, Seq<char>), Seq<char>>(
                (t.state->0, t.auth_url->0, t.edition),
            ),
        ),
        (t.state is None || t.auth_url is None) && t.done && t.error is Some ==> address_answer(
            t,
            timed_out,
        ) == Some(Err::<(Seq<char>, Seq<char>, Seq<char>), Seq<char>>(t.error->0)),
        (t.state is None || t.auth_url is None) && !t.done ==> (address_answer(t, timed_out) is None
            <==> !timed_out),
{
}

/// Tasks are kept until ten minutes after their end; all others stay, in their order.
pub proof fn ended_tasks_are_swept(entries: Seq<EntryView>, now: i64)
    ensures
        swept(entries, now) == entries.filter(
            |e: EntryView|
                e.task.finished_at is None || now - e.task.finished_at->0 < 600_000,
        ),
    decreases entries.len(),
{
    reveal(Seq::filter);
    if entries.len() > 0 {
        ended_tasks_are_swept(entries.drop_last(), now);
    }
}

proof fn lemma_entry_of(entries: Seq<EntryView>, state: Seq<char>)
    ensures
        match entry_of(entries, state) {
            Some(e) => entries.contains(e) && e.state == state,
            None => forall|i: int| 0 <= i < entries.len() ==> (#[trigger] entries[i]).state
                != state,
        },
    decreases entries.len(),
{
    if entries.len() > 0 {
        let short = entries.drop_last();
        if entries.last().state == state {
            assert(entries[entries.len() - 1] == entries.last());
        } else {
            lemma_entry_of(short, state);
            match entry_of(short, state) {
                Some(e) => {
                    let k = choose|k: int| 0 <= k < short.len() && short[k] == e;
                    assert(entries[k] == e);
                },
                None => {
                    assert forall|i: int| 0 <= i < entries.len() implies (#[trigger] entries[i]).state
                        != state by {
                        if i < short.len() {
                            assert(short[i] == entries[i]);
                        }
                    }
                },
            }
        }
    }
}

/// What is found for a state is a task of that state; a task that is under way is found.
pub proof fn task_is_found_by_its_state(
    entries: Seq<EntryView>,
    state: Seq<char>,
    now: i64,
    i: int,
)
    ensures
        found(entries, state, now) matches Some(e) ==> e.state == state && state.len() > 0,
        0 <= i < entries.len() && entries[i].state == state && state.len() > 0
            && entries[i].task.finished_at is None ==> found(entries, state, now) is Some,
{
    let s = swept(entries, now);
    lemma_entry_of(s, state);
    if 0 <= i < entries.len() && entries[i].task.finished_at is None {
        lemma_kept_stays(entries, now, i);
        let k = choose|k: int| 0 <= k < s.len() && s[k] == entries[i];
        assert(s[k].state == entries[i].state);
    }
}

proof fn lemma_kept_stays(entries: Seq<EntryView>, now: i64, i: int)
    requires
        0 <= i < entries.len(),
        entries[i].task.finished_at is None,
    ensures
        swept(entries, now).contains(entries[i]),
    decreases entries.len(),
{
    let s = swept(entries, now);
    if i < entries.len() - 1 {
        let short = entries.drop_last();
        lemma_kept_stays(short, now, i);
        let q = swept(short, now);
        let k = choose|k: int| 0 <= k < q.len() && q[k] == entries[i];
        assert(s[k] == entries[i]);
    } else {
        assert(s[s.len() - 1] == entries[i]);
    }
}

/// What became of a task is noted for that task alone.
pub proof fn one_task_is_updated(entries: Seq<EntryView>, ticket: u64, task: TaskView, i: int)
    requires
        0 <= i < entries.len(),
    ensures
        updated(entries, ticket, task).len() == entries.len(),
        updated(entries, ticket, task)[i].state == entries[i].state,
        updated(entries, ticket, task)[i].ticket == entries[i].ticket,
        entries[i].ticket == ticket ==> updated(entries, ticket, task)[i].task == task,
        entries[i].ticket != ticket ==> updated(entries, ticket, task)[i] == entries[i],
{
}

/// The others stay when the tasks of a state, or of a ticket, are taken out.
pub proof fn others_stay(entries: Seq<EntryView>, state: Seq<char>, ticket: u64)
    ensures
        without_state(entries, state) == entries.filter(|e: EntryView| e.state != state),
        without_ticket(entries, ticket) == entries.filter(|e: EntryView| e.ticket != ticket),
    decreases entries.len(),
{
    reveal(Seq::filter);
    if entries.len() > 0 {
        others_stay(entries.drop_last(), state, ticket);
    }
}

/// A sign-in starts by asking for a state, with nothing of another sign-in in it.
pub proof fn sign_in_starts_blank(context: ContextView, edition: Seq<char>)
    ensures
        flow_start(context).phase is AskingState,
        flow_start(context).context == context,
        flow_start(context).auth == Json::Null,
        fresh_task(edition).edition == edition,
        !fresh_task(edition).done,
        fresh_task(edition).error is None,
        fresh_task(edition).session is None,
        fresh_task(edition).auth_url is None,
{
}

} // verus!
