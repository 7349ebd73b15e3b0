//! Daily check-in of accounts: which accounts take part, and what came of it.
//!
//! One account is checked in after the other. The caller claims for the account that
//! [`CheckinRun::target`] names and reports what came of it, until there is none left.
use vstd::prelude::*;
use crate::json::{
    dup_or_null, field, json_int, list_view, or_null, push_value, seen, text_in, text_or_empty,
    text_seen, Json, JsonValue, Object,
};
use crate::routing::{accounts_of, listed};
use crate::text::same;

verus! {

/// Why there is nothing to check in, with the HTTP status it is answered with.
pub struct CheckinError {
    pub message: String,
    pub status_code: i32,
}

impl CheckinError {
    fn new(message: &str, status_code: i32) -> (out: CheckinError)
        ensures
            out.message@ == message@,
            out.status_code == status_code,
    {
        CheckinError { message: message.to_owned(), status_code }
    }

    /// What is shown of it.
    pub fn text(&self) -> (out: String)
        ensures
            out@ == self.message@,
    {
        self.message.clone()
    }
}

// ─── Who takes part ──────────────────────────────────────────

/// The international edition has no check-in.
pub open spec fn has_checkin(account: Json) -> bool {
    field(account, "edition"@) != Some(Json::Str("intl"@))
}

/// A switch that is on unless it is plainly off.
pub open spec fn switched_on(account: Json, key: Seq<char>) -> bool {
    field(account, key) != Some(Json::Bool(false))
}

pub open spec fn takes_part(account: Json) -> bool {
    switched_on(account, "available"@) && switched_on(account, "enabled"@) && has_checkin(account)
}

/// The accounts with an id.
pub open spec fn with_this_id(accounts: Seq<Json>, id: Seq<char>) -> Seq<Json>
    decreases accounts.len(),
{
    if accounts.len() == 0 {
        Seq::empty()
    } else {
        let before = with_this_id(accounts.drop_last(), id);
        if field(accounts.last(), "id"@) == Some(Json::Str(id)) {
            before.push(accounts.last())
        } else {
            before
        }
    }
}

/// The accounts that take part when all are asked for.
pub open spec fn eligible(accounts: Seq<Json>) -> Seq<Json>
    decreases accounts.len(),
{
    if accounts.len() == 0 {
        Seq::empty()
    } else {
        let before = eligible(accounts.drop_last());
        if takes_part(accounts.last()) {
            before.push(accounts.last())
        } else {
            before
        }
    }
}

/// How many accounts are available and yet do not take part.
pub open spec fn skipped_of(accounts: Seq<Json>) -> nat
    decreases accounts.len(),
{
    if accounts.len() == 0 {
        0
    } else {
        skipped_of(accounts.drop_last()) + if switched_on(accounts.last(), "available"@)
            && !takes_part(accounts.last()) {
            1nat
        } else {
            0nat
        }
    }
}

/// How many accounts are available.
pub open spec fn available_count(accounts: Seq<Json>) -> nat
    decreases accounts.len(),
{
    if accounts.len() == 0 {
        0
    } else {
        available_count(accounts.drop_last()) + if switched_on(accounts.last(), "available"@) {
            1nat
        } else {
            0nat
        }
    }
}

/// One account is meant.
pub open spec fn one_meant(id: Option<Seq<char>>) -> bool {
    id is Some && id->0.len() > 0
}

/// Why there is nothing to check in.
pub open spec fn checkin_refused(accounts: Seq<Json>, id: Option<Seq<char>>) -> Option<(Seq<char>, i32)> {
    if !one_meant(id) {
        None
    } else if with_this_id(accounts, id->0).len() == 0 {
        Some(("账号不存在"@, 404i32))
    } else if !has_checkin(with_this_id(accounts, id->0)[0]) {
        Some(("国际版账号暂不支持签到"@, 400i32))
    } else {
        None
    }
}

/// The accounts to check in. One that is asked for by its id takes part though it is not available.
pub open spec fn targets_of(accounts: Seq<Json>, id: Option<Seq<char>>) -> Seq<Json> {
    if one_meant(id) {
        with_this_id(accounts, id->0)
    } else {
        eligible(accounts)
    }
}

/// How many of the available accounts are passed over.
pub open spec fn passed_over(accounts: Seq<Json>, id: Option<Seq<char>>) -> nat {
    if one_meant(id) {
        0
    } else {
        skipped_of(accounts)
    }
}

proof fn lemma_counts(accounts: Seq<Json>)
    ensures
        skipped_of(accounts) <= accounts.len(),
        eligible(accounts).len() <= accounts.len(),
    decreases accounts.len(),
{
    if accounts.len() > 0 {
        lemma_counts(accounts.drop_last());
    }
}

/// Every available account takes part or is passed over, where all are asked for, and who takes
/// part is available, enabled and not of the international edition.
pub proof fn available_accounts_add_up(accounts: Seq<Json>)
    ensures
        eligible(accounts).len() + skipped_of(accounts) == available_count(accounts),
        forall|k: int| 0 <= k < eligible(accounts).len() ==> takes_part(#[trigger] eligible(accounts)[k]),
    decreases accounts.len(),
{
    if accounts.len() > 0 {
        available_accounts_add_up(accounts.drop_last());
    }
}

/// [`has_checkin`].
pub fn supports_checkin(account: &JsonValue) -> (r: bool)
    ensures
        r == has_checkin(account@),
{
    match account.get("edition") {
        Some(JsonValue::Str(s)) => !same(s.as_str(), "intl"),
        _ => true,
    }
}

fn is_on(account: &JsonValue, key: &str) -> (r: bool)
    ensures
        r == switched_on(account@, key@),
{
    match account.get(key) {
        Some(JsonValue::Bool(b)) => *b,
        _ => true,
    }
}

fn has_this_id(account: &JsonValue, id: &str) -> (r: bool)
    ensures
        r == (field(account@, "id"@) == Some(Json::Str(id@))),
{
    match account.get("id") {
        Some(JsonValue::Str(s)) => same(s.as_str(), id),
        _ => false,
    }
}

/// The accounts of a listing to check in, and how many are passed over.
pub fn resolve_checkin_targets(snapshot: &JsonValue, id: Option<&str>) -> (r: Result<
    (Vec<JsonValue>, usize),
    CheckinError,
>)
    ensures
        match checkin_refused(listed(snapshot@), text_seen(id)) {
            Some((message, status)) => r is Err && r->Err_0.message@ == message
                && r->Err_0.status_code == status,
            None => {
                &&& r is Ok
                &&& list_view(r->Ok_0.0) == targets_of(listed(snapshot@), text_seen(id))
                &&& r->Ok_0.1 == passed_over(listed(snapshot@), text_seen(id))
            },
        },
{
    let accounts = accounts_of(snapshot);
    let ghost all = listed(snapshot@);
    let mut out: Vec<JsonValue> = Vec::new();
    assert(list_view(out) =~= Seq::empty());
    assert(all.take(0) =~= Seq::empty());
    if let Some(id) = id {
        if !id.is_empty() {
            for i in 0..accounts.len()
                invariant
                    all == list_view(accounts),
                    list_view(out) == with_this_id(all.take(i as int), id@),
            {
                assert(all.take(i + 1).drop_last() =~= all.take(i as int));
                assert(all.take(i + 1).last() == accounts@[i as int]@);
                if has_this_id(&accounts[i], id) {
                    push_value(&mut out, accounts[i].dup());
                }
            }
            assert(all.take(all.len() as int) =~= all);
            assert(list_view(out).len() == out@.len());
            if out.len() == 0 {
                return Err(CheckinError::new("账号不存在", 404));
            }
            assert(list_view(out)[0] == out@[0]@);
            if !supports_checkin(&out[0]) {
                return Err(CheckinError::new("国际版账号暂不支持签到", 400));
            }
            return Ok((out, 0));
        }
    }
    let mut skipped: usize = 0;
    for i in 0..accounts.len()
        invariant
            all == list_view(accounts),
            list_view(out) == eligible(all.take(i as int)),
            skipped == skipped_of(all.take(i as int)),
    {
        assert(all.take(i + 1).drop_last() =~= all.take(i as int));
        assert(all.take(i + 1).last() == accounts@[i as int]@);
        proof {
            lemma_counts(all.take(i as int));
        }
        if is_on(&accounts[i], "available") {
            if is_on(&accounts[i], "enabled") && supports_checkin(&accounts[i]) {
                push_value(&mut out, accounts[i].dup());
            } else {
                skipped = skipped + 1;
            }
        }
    }
    assert(all.take(all.len() as int) =~= all);
    Ok((out, skipped))
}

// ─── What came of it ─────────────────────────────────────────

/// What came of a claim: there was nothing to sign in with, an answer, or a failure.
pub enum ClaimOutcome {
    NoSession,
    Answered(JsonValue),
    Failed(String),
}

/// The plain value of a [`ClaimOutcome`].
pub enum ClaimView {
    NoSession,
    Answered(Json),
    Failed(Seq<char>),
}

impl View for ClaimOutcome {
    type V = ClaimView;

    open spec fn view(&self) -> ClaimView {
        match self {
            ClaimOutcome::NoSession => ClaimView::NoSession,
            ClaimOutcome::Answered(v) => ClaimView::Answered(v@),
            ClaimOutcome::Failed(s) => ClaimView::Failed(s@),
        }
    }
}

/// What is told of the check-in of an account. An answer is told as it is, also where it says that
/// there was nothing to claim today.
pub open spec fn result_json(account: Json, outcome: ClaimView) -> Json {
    Json::Obj(
        seq![
            ("id"@, Json::Str(text_or_empty(field(account, "id"@)))),
            ("name"@, or_null(field(account, "name"@))),
            (
                "claim"@,
                match outcome {
                    ClaimView::Answered(v) => v,
                    _ => Json::Null,
                },
            ),
            (
                "error"@,
                match outcome {
                    ClaimView::NoSession => Json::Str("没有可用凭证"@),
                    ClaimView::Answered(_) => Json::Null,
                    ClaimView::Failed(s) => Json::Str(s),
                },
            ),
        ],
    )
}

/// The check-in of an account was a success.
pub open spec fn succeeded(result: Json) -> bool {
    field(or_null(field(result, "claim"@)), "success"@) == Some(Json::Bool(true))
}

pub open spec fn success_count(results: Seq<Json>) -> nat
    decreases results.len(),
{
    if results.len() == 0 {
        0
    } else {
        success_count(results.drop_last()) + if succeeded(results.last()) {
            1nat
        } else {
            0nat
        }
    }
}

/// What is told of all check-ins.
pub open spec fn summary_json(results: Seq<Json>, skipped: nat) -> Json {
    Json::Obj(
        seq![
            ("results"@, Json::Arr(results)),
            ("succeeded"@, json_int(success_count(results) as int)),
            ("total"@, json_int(results.len() as int)),
            ("skipped"@, json_int(skipped as int)),
        ],
    )
}

/// [`result_json`].
pub fn checkin_result(account: &JsonValue, outcome: &ClaimOutcome) -> (out: JsonValue)
    ensures
        out@ == result_json(account@, outcome@),
{
    let mut o = Object::new();
    o.push("id", JsonValue::Str(text_in(account.get("id"))));
    o.push("name", dup_or_null(account.get("name")));
    match outcome {
        ClaimOutcome::NoSession => {
            o.push("claim", JsonValue::Null);
            o.push("error", JsonValue::text("没有可用凭证"));
        },
        ClaimOutcome::Answered(v) => {
            o.push("claim", v.dup());
            o.push("error", JsonValue::Null);
        },
        ClaimOutcome::Failed(s) => {
            o.push("claim", JsonValue::Null);
            o.push("error", JsonValue::text(s.as_str()));
        },
    }
    assert(o@ =~= result_json(account@, outcome@)->Obj_0);
    JsonValue::Obj(o)
}

fn is_success(result: &JsonValue) -> (r: bool)
    ensures
        r == succeeded(result@),
{
    match result.get("claim") {
        Some(claim) => match claim.get("success") {
            Some(JsonValue::Bool(b)) => *b,
            _ => false,
        },
        None => false,
    }
}

/// Only an answer that says so is a success.
pub proof fn only_answers_succeed(account: Json, outcome: ClaimView)
    ensures
        succeeded(result_json(account, outcome)) == (outcome is Answered && field(
            outcome->Answered_0,
            "success"@,
        ) == Some(Json::Bool(true))),
{
    reveal_strlit("id");
    reveal_strlit("name");
    reveal_strlit("claim");
    reveal_strlit("error");
    let o = result_json(account, outcome)->Obj_0;
    assert("claim"@[0] != "error"@[0]);
    assert(o.drop_last() =~= o.take(3));
    reveal_with_fuel(crate::json::find, 3);
    assert(o.take(3).last().0 == "claim"@);
    assert(crate::json::find(o, "claim"@) == Some(o[2].1));
}

// ─── One after the other ─────────────────────────────────────

/// A run through the accounts that take part.
pub struct CheckinRun {
    pub targets: Vec<JsonValue>,
    pub results: Vec<JsonValue>,
    pub skipped: usize,
}

/// What came of the first `n` accounts.
pub open spec fn results_of(targets: Seq<Json>, outcomes: Seq<ClaimView>) -> Seq<Json> {
    Seq::new(outcomes.len(), |i: int| result_json(targets[i], outcomes[i]))
}

impl CheckinRun {
    /// There is at most one result for each account.
    pub open spec fn valid(&self) -> bool {
        self.results@.len() <= self.targets@.len()
    }

    /// The run stands behind these outcomes.
    pub open spec fn stands_behind(&self, outcomes: Seq<ClaimView>) -> bool {
        outcomes.len() <= self.targets@.len() && list_view(self.results) == results_of(
            list_view(self.targets),
            outcomes,
        )
    }

    /// A run with nothing done: [`resolve_checkin_targets`].
    pub fn start(snapshot: &JsonValue, id: Option<&str>) -> (r: Result<CheckinRun, CheckinError>)
        ensures
            match checkin_refused(listed(snapshot@), text_seen(id)) {
                Some((message, status)) => r is Err && r->Err_0.message@ == message
                    && r->Err_0.status_code == status,
                None => {
                    &&& r is Ok
                    &&& r->Ok_0.valid()
                    &&& r->Ok_0.stands_behind(Seq::empty())
                    &&& list_view(r->Ok_0.targets) == targets_of(listed(snapshot@), text_seen(id))
                    &&& r->Ok_0.skipped == passed_over(listed(snapshot@), text_seen(id))
                },
            },
    {
        match resolve_checkin_targets(snapshot, id) {
            Ok((targets, skipped)) => {
                let results: Vec<JsonValue> = Vec::new();
                assert(list_view(results) =~= results_of(list_view(targets), Seq::empty()));
                Ok(CheckinRun { targets, results, skipped })
            },
            Err(e) => Err(e),
        }
    }

    /// The account that is next, until there is none left.
    pub fn target(&self) -> (r: Option<&JsonValue>)
        requires
            self.valid(),
        ensures
            seen(r) == if self.results@.len() < self.targets@.len() {
                Some(list_view(self.targets)[self.results@.len() as int])
            } else {
                None
            },
    {
        if self.results.len() < self.targets.len() {
            assert(list_view(self.targets)[self.results@.len() as int]
                == self.targets@[self.results@.len() as int]@);
            Some(&self.targets[self.results.len()])
        } else {
            None
        }
    }

    /// Takes down what came of the account that is next; once there is none left, nothing changes.
    pub fn record(&mut self, outcome: &ClaimOutcome)
        requires
            old(self).valid(),
        ensures
            final(self).valid(),
            final(self).targets == old(self).targets,
            final(self).skipped == old(self).skipped,
            old(self).results@.len() < old(self).targets@.len() ==> list_view(final(self).results)
                == list_view(old(self).results).push(
                result_json(
                    list_view(old(self).targets)[old(self).results@.len() as int],
                    outcome@,
                ),
            ),
            old(self).results@.len() == old(self).targets@.len() ==> final(self).results
                == old(self).results,
            forall|outcomes: Seq<ClaimView>|
                #[trigger] old(self).stands_behind(outcomes) && outcomes.len() < old(
                    self,
                ).targets@.len() ==> final(self).stands_behind(outcomes.push(outcome@)),
    {
        let n: usize = self.results.len();
        let ghost before = self.results;
        let ghost all = list_view(self.targets);
        if n < self.targets.len() {
            assert(all[n as int] == self.targets@[n as int]@);
            let result = checkin_result(&self.targets[n], outcome);
            push_value(&mut self.results, result);
        }
        assert forall|outcomes: Seq<ClaimView>|
            #[trigger] old(self).stands_behind(outcomes) && outcomes.len() < all.len() implies self.stands_behind(
            outcomes.push(outcome@),
        ) by {
            assert(list_view(before).len() == before@.len());
            assert(list_view(self.results) =~= results_of(all, outcomes.push(outcome@)));
        }
    }

    /// What is told of the run: [`summary_json`].
    pub fn summary(&self) -> (out: JsonValue)
        ensures
            out@ == summary_json(list_view(self.results), self.skipped as nat),
    {
        let ghost all = list_view(self.results);
        let mut count: u64 = 0;
        assert(all.take(0) =~= Seq::empty());
        for i in 0..self.results.len()
            invariant
                all == list_view(self.results),
                count <= i,
                count == success_count(all.take(i as int)),
        {
            assert(all.take(i + 1).drop_last() =~= all.take(i as int));
            assert(all.take(i + 1).last() == self.results@[i as int]@);
            if is_success(&self.results[i]) {
                count = count + 1;
            }
        }
        assert(all.take(all.len() as int) =~= all);
        let mut o = Object::new();
        o.push("results", JsonValue::Arr(crate::json::dup_list(&self.results)));
        o.push("succeeded", JsonValue::natural(count));
        o.push("total", JsonValue::natural(self.results.len() as u64));
        o.push("skipped", JsonValue::natural(self.skipped as u64));
        assert(o@ =~= summary_json(all, self.skipped as nat)->Obj_0);
        JsonValue::Obj(o)
    }
}

} // verus!
