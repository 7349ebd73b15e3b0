//! The rules that a model gets when it is seen for the first time.
//!
//! A default decides how a model starts, not how it stays: what was seen once is noted, and is
//! never given its default rules again, whatever was changed since.
use vstd::prelude::*;
use crate::json::text_view;
use crate::model_rules::{
    alias_valid, any_rule, has_name, is_for, lists_name, name_taken, rule_made, seed_key,
    valid_name, was_seeded, mappings_view, Mapping, MappingView, ModelRules, ModelRulesView,
};
use crate::text::{
    begins, chars_of, concat, concat3, decimal, decimal_u64, eq_ignore_case, same,
    same_ignoring_case, text_between, trim, trimmed,
};
use crate::words::{join, joined, push_word, words};

verus! {

/// Rules on their way through a list of models, with what was done.
pub struct Seeding {
    pub rules: ModelRulesView,
    pub disabled: Seq<Seq<char>>,
    pub mapped: Seq<Seq<char>>,
}

/// What a list of models was given.
pub struct SeedOutcome {
    /// Some model was noted for the first time, so that the rules have to be kept.
    pub changed: bool,
    /// What is told of it, where anything was switched off or mapped.
    pub summary: Option<String>,
}

// ─── Names of a provider's own making ────────────────────────

/// A provider's internal name: `raccoon-` and up to eight hexadecimal digits.
pub open spec fn opaque_name(id: Seq<char>) -> bool {
    begins(id, "raccoon-"@) && 8 < id.len() <= 16 && forall|i: int|
        8 <= i < id.len() ==> hex_digit(#[trigger] id[i])
}

pub open spec fn hex_digit(c: char) -> bool {
    '0' <= c <= '9' || 'a' <= c <= 'f' || 'A' <= c <= 'F'
}

/// Decides [`opaque_name`].
pub fn is_opaque_raccoon_id(id: &str) -> (r: bool)
    ensures
        r == opaque_name(id@),
{
    if !crate::text::starts_with(id, "raccoon-") {
        return false;
    }
    let chars = chars_of(id);
    if chars.len() <= 8 || chars.len() > 16 {
        return false;
    }
    for i in 8..chars.len()
        invariant
            chars@ == id@,
            8 <= i,
            forall|k: int| 8 <= k < i ==> hex_digit(#[trigger] chars@[k]),
    {
        let c = chars[i];
        if !(('0' <= c && c <= '9') || ('a' <= c && c <= 'f') || ('A' <= c && c <= 'F')) {
            return false;
        }
    }
    true
}

// ─── Further names ───────────────────────────────────────────

/// A model of a provider that is offered under one more name.
pub struct ExtraAlias {
    pub owner: Seq<char>,
    pub target: Seq<char>,
    pub alias: Seq<char>,
}

pub open spec fn extra_aliases() -> Seq<ExtraAlias> {
    seq![
        ExtraAlias {
            owner: "raccoon"@,
            target: "sn-deepseek-v4-1-flash"@,
            alias: "deepseek-v4.1-flash"@,
        },
        ExtraAlias {
            owner: "cline-free"@,
            target: "cline-free/deepseek-v4.1-flash"@,
            alias: "deepseek-v4.1-flash"@,
        },
        ExtraAlias {
            owner: "cline-pass"@,
            target: "cline-pass/deepseek-v4.1-flash"@,
            alias: "deepseek-v4.1-flash"@,
        },
    ]
}

/// What notes that a further name was given.
pub open spec fn alias_key(provider: Seq<char>, id: Seq<char>, alias: Seq<char>) -> Seq<char> {
    provider + ":"@ + id + "#alias:"@ + alias
}

/// [`alias_key`].
pub fn extra_alias_key(provider: &str, id: &str, alias: &str) -> (out: String)
    ensures
        out@ == alias_key(provider@, id@, alias@),
{
    let mut out = concat3(provider, ":", id);
    out.append("#alias:");
    out.append(alias);
    out
}

/// A mapping of the name to the model serves the provider already.
pub open spec fn alias_served(
    list: Seq<MappingView>,
    alias: Seq<char>,
    target: Seq<char>,
    provider: Seq<char>,
) -> bool {
    exists|i: int|
        0 <= i < list.len() && serves_alias(#[trigger] list[i], alias, target, provider)
}

pub open spec fn serves_alias(
    m: MappingView,
    alias: Seq<char>,
    target: Seq<char>,
    provider: Seq<char>,
) -> bool {
    same_ignoring_case(m.alias, alias) && same_ignoring_case(m.target, target) && is_for(
        m.provider,
        provider,
    )
}

pub open spec fn arrow(alias: Seq<char>, id: Seq<char>) -> Seq<char> {
    alias + " → "@ + id
}

/// The rules with a mapping, and a note of it.
pub open spec fn with_alias(s: Seeding, alias: Seq<char>, id: Seq<char>, provider: Seq<char>) -> Seeding {
    Seeding {
        rules: ModelRulesView {
            mappings: s.rules.mappings.push(
                MappingView { alias, target: id, provider: Some(provider) },
            ),
            ..s.rules
        },
        mapped: s.mapped.push(arrow(alias, id)),
        ..s
    }
}

pub open spec fn noted(s: Seeding, key: Seq<char>) -> Seeding {
    Seeding { rules: ModelRulesView { seeded: s.rules.seeded.push(key), ..s.rules }, ..s }
}

/// The further name concerns the model.
pub open spec fn concerns(e: ExtraAlias, provider: Seq<char>, id: Seq<char>) -> bool {
    same_ignoring_case(e.owner, provider) && same_ignoring_case(e.target, id)
}

/// A further name, given once, unless a model has it or it is there.
pub open spec fn extra_given(
    s: Seeding,
    e: ExtraAlias,
    provider: Seq<char>,
    id: Seq<char>,
    ids: Seq<Seq<char>>,
) -> Seeding {
    let key = alias_key(provider, id, e.alias);
    if !concerns(e, provider, id) || has_name(s.rules.seeded, key) {
        s
    } else if has_name(ids, e.alias) || alias_served(s.rules.mappings, e.alias, e.target, provider) {
        noted(s, key)
    } else {
        with_alias(noted(s, key), e.alias, id, provider)
    }
}

/// The first `n` of the further names.
pub open spec fn extras_given(
    s: Seeding,
    provider: Seq<char>,
    id: Seq<char>,
    ids: Seq<Seq<char>>,
    n: nat,
) -> Seeding
    decreases n,
{
    if n == 0 {
        s
    } else {
        extra_given(
            extras_given(s, provider, id, ids, (n - 1) as nat),
            extra_aliases()[n - 1],
            provider,
            id,
            ids,
        )
    }
}

// ─── Raccoon ─────────────────────────────────────────────────

/// The default rules of one model: an internal one is switched off, one with a prefix is offered
/// without it too, unless that name is taken.
pub open spec fn raccoon_rules(s: Seeding, id: Seq<char>, ids: Seq<Seq<char>>) -> Seeding {
    if opaque_name(id) {
        if any_rule(s.rules.disabled, "raccoon"@, id) {
            s
        } else {
            Seeding {
                rules: ModelRulesView {
                    disabled: rule_made(s.rules.disabled, Some("raccoon"@), id),
                    ..s.rules
                },
                disabled: s.disabled.push(id),
                ..s
            }
        }
    } else if begins(id, "sn-"@) {
        let alias = id.skip(3);
        if !valid_name(alias) || name_taken(s.rules.mappings, alias) || has_name(ids, alias) {
            s
        } else {
            with_alias(s, alias, id, "raccoon"@)
        }
    } else {
        s
    }
}

/// One model of the list.
pub open spec fn raccoon_step(s: Seeding, raw: Seq<char>, ids: Seq<Seq<char>>) -> Seeding {
    let id = trimmed(raw);
    if id.len() == 0 {
        s
    } else {
        let s = extras_given(s, "raccoon"@, id, ids, extra_aliases().len());
        if was_seeded(s.rules.seeded, "raccoon"@, id) {
            s
        } else {
            raccoon_rules(noted(s, seed_key("raccoon"@, id)), id, ids)
        }
    }
}

/// The first `n` models of the list.
pub open spec fn raccoon_seeded(r: ModelRulesView, ids: Seq<Seq<char>>, n: nat) -> Seeding
    decreases n,
{
    if n == 0 {
        Seeding { rules: r, disabled: Seq::empty(), mapped: Seq::empty() }
    } else {
        raccoon_step(raccoon_seeded(r, ids, (n - 1) as nat), ids[n - 1], ids)
    }
}

// ─── Lists with few models switched on ───────────────────────

/// One model of a list of which only those on a white list start switched on.
pub open spec fn whitelist_step(
    s: Seeding,
    raw: Seq<char>,
    provider: Seq<char>,
    white: Seq<Seq<char>>,
) -> Seeding {
    let id = trimmed(raw);
    if id.len() == 0 || was_seeded(s.rules.seeded, provider, id) {
        s
    } else {
        let s = noted(s, seed_key(provider, id));
        if has_name(white, id) || any_rule(s.rules.disabled, provider, id) {
            s
        } else {
            Seeding {
                rules: ModelRulesView {
                    disabled: rule_made(s.rules.disabled, Some(provider), id),
                    ..s.rules
                },
                disabled: s.disabled.push(id),
                ..s
            }
        }
    }
}

/// The first `n` models of the list.
pub open spec fn whitelist_seeded(
    r: ModelRulesView,
    ids: Seq<Seq<char>>,
    provider: Seq<char>,
    white: Seq<Seq<char>>,
    n: nat,
) -> Seeding
    decreases n,
{
    if n == 0 {
        Seeding { rules: r, disabled: Seq::empty(), mapped: Seq::empty() }
    } else {
        whitelist_step(
            whitelist_seeded(r, ids, provider, white, (n - 1) as nat),
            ids[n - 1],
            provider,
            white,
        )
    }
}

/// The models of the default provider that start switched on.
pub open spec fn workbuddy_white() -> Seq<Seq<char>> {
    seq!["hy3"@, "hy4-preview-f"@, "deepseek-v4.1-flash"@]
}

pub open spec fn qoder_white() -> Seq<Seq<char>> {
    seq!["Qwen3.8-Flash"@]
}

// ─── A default is given once ─────────────────────────────────

/// What is noted stays noted.
pub open spec fn grows(a: Seq<Seq<char>>, b: Seq<Seq<char>>) -> bool {
    a.len() <= b.len() && forall|i: int| 0 <= i < a.len() ==> #[trigger] a[i] == b[i]
}

proof fn lemma_grows_name(a: Seq<Seq<char>>, b: Seq<Seq<char>>, name: Seq<char>)
    requires
        grows(a, b),
        has_name(a, name),
    ensures
        has_name(b, name),
{
    let i = choose|i: int| 0 <= i < a.len() && same_ignoring_case(#[trigger] a[i], name);
    assert(b[i] == a[i]);
}

proof fn lemma_grows_chain(a: Seq<Seq<char>>, b: Seq<Seq<char>>, c: Seq<Seq<char>>)
    requires
        grows(a, b),
        grows(b, c),
    ensures
        grows(a, c),
{
    assert forall|i: int| 0 <= i < a.len() implies #[trigger] a[i] == c[i] by {
        assert(a[i] == b[i]);
        assert(b[i] == c[i]);
    }
}

proof fn lemma_noted_name(seeded: Seq<Seq<char>>, key: Seq<char>)
    ensures
        has_name(seeded.push(key), key),
        grows(seeded, seeded.push(key)),
{
    crate::text::ignoring_case_is_equivalence(key, key, key);
    assert(same_ignoring_case(seeded.push(key)[seeded.len() as int], key));
}

proof fn lemma_grows_seeded(a: Seq<Seq<char>>, b: Seq<Seq<char>>, provider: Seq<char>, id: Seq<char>)
    requires
        grows(a, b),
        was_seeded(a, provider, id),
    ensures
        was_seeded(b, provider, id),
{
    if has_name(a, seed_key(provider, id)) {
        lemma_grows_name(a, b, seed_key(provider, id));
    } else {
        lemma_grows_name(a, b, id);
    }
}

proof fn lemma_whitelist_notes(
    r: ModelRulesView,
    ids: Seq<Seq<char>>,
    provider: Seq<char>,
    white: Seq<Seq<char>>,
    n: nat,
)
    requires
        n <= ids.len(),
    ensures
        grows(r.seeded, whitelist_seeded(r, ids, provider, white, n).rules.seeded),
        forall|k: int|
            0 <= k < n && trimmed(#[trigger] ids[k]).len() > 0 ==> was_seeded(
                whitelist_seeded(r, ids, provider, white, n).rules.seeded,
                provider,
                trimmed(ids[k]),
            ),
    decreases n,
{
    if n > 0 {
        let m = (n - 1) as nat;
        lemma_whitelist_notes(r, ids, provider, white, m);
        let before = whitelist_seeded(r, ids, provider, white, m).rules.seeded;
        let after = whitelist_seeded(r, ids, provider, white, n).rules.seeded;
        let id = trimmed(ids[m as int]);
        lemma_noted_name(before, seed_key(provider, id));
        assert(grows(before, after));
        lemma_grows_chain(r.seeded, before, after);
        assert forall|k: int| 0 <= k < n && trimmed(#[trigger] ids[k]).len() > 0 implies was_seeded(
            after,
            provider,
            trimmed(ids[k]),
        ) by {
            if k < m {
                lemma_grows_seeded(before, after, provider, trimmed(ids[k]));
            }
        }
    }
}

proof fn lemma_whitelist_nothing_new(
    r: ModelRulesView,
    ids: Seq<Seq<char>>,
    provider: Seq<char>,
    white: Seq<Seq<char>>,
    n: nat,
)
    requires
        n <= ids.len(),
        forall|k: int|
            0 <= k < ids.len() && trimmed(#[trigger] ids[k]).len() > 0 ==> was_seeded(
                r.seeded,
                provider,
                trimmed(ids[k]),
            ),
    ensures
        whitelist_seeded(r, ids, provider, white, n) == (Seeding {
            rules: r,
            disabled: Seq::empty(),
            mapped: Seq::empty(),
        }),
    decreases n,
{
    if n > 0 {
        lemma_whitelist_nothing_new(r, ids, provider, white, (n - 1) as nat);
        assert(trimmed(ids[n - 1]).len() > 0 ==> was_seeded(
            r.seeded,
            provider,
            trimmed(ids[n - 1]),
        ));
    }
}

/// Models that got their default rules keep whatever was changed since: the same list changes
/// nothing of rules that hold the notes of it.
pub proof fn default_rules_are_given_once(
    r: ModelRulesView,
    changed: ModelRulesView,
    ids: Seq<Seq<char>>,
    provider: Seq<char>,
    white: Seq<Seq<char>>,
)
    requires
        changed.seeded == whitelist_seeded(r, ids, provider, white, ids.len()).rules.seeded,
    ensures
        whitelist_seeded(changed, ids, provider, white, ids.len()).rules == changed,
{
    lemma_whitelist_notes(r, ids, provider, white, ids.len());
    lemma_whitelist_nothing_new(changed, ids, provider, white, ids.len());
}

/// A further name that concerns a model is noted.
pub open spec fn extras_noted(seeded: Seq<Seq<char>>, provider: Seq<char>, id: Seq<char>) -> bool {
    forall|k: int|
        0 <= k < extra_aliases().len() && concerns(#[trigger] extra_aliases()[k], provider, id)
            ==> has_name(seeded, alias_key(provider, id, extra_aliases()[k].alias))
}

proof fn lemma_extras_note(
    s: Seeding,
    provider: Seq<char>,
    id: Seq<char>,
    ids: Seq<Seq<char>>,
    n: nat,
)
    requires
        n <= extra_aliases().len(),
    ensures
        grows(s.rules.seeded, extras_given(s, provider, id, ids, n).rules.seeded),
        forall|k: int|
            0 <= k < n && concerns(#[trigger] extra_aliases()[k], provider, id) ==> has_name(
                extras_given(s, provider, id, ids, n).rules.seeded,
                alias_key(provider, id, extra_aliases()[k].alias),
            ),
    decreases n,
{
    if n > 0 {
        let m = (n - 1) as nat;
        lemma_extras_note(s, provider, id, ids, m);
        let before = extras_given(s, provider, id, ids, m).rules.seeded;
        let after = extras_given(s, provider, id, ids, n).rules.seeded;
        let e = extra_aliases()[m as int];
        let key = alias_key(provider, id, e.alias);
        lemma_noted_name(before, key);
        assert(grows(before, after));
        lemma_grows_chain(s.rules.seeded, before, after);
        assert forall|k: int| 0 <= k < n && concerns(
            #[trigger] extra_aliases()[k],
            provider,
            id,
        ) implies has_name(after, alias_key(provider, id, extra_aliases()[k].alias)) by {
            if k < m {
                lemma_grows_name(
                    before,
                    after,
                    alias_key(provider, id, extra_aliases()[k].alias),
                );
            }
        }
    }
}

proof fn lemma_extras_nothing_new(
    s: Seeding,
    provider: Seq<char>,
    id: Seq<char>,
    ids: Seq<Seq<char>>,
    n: nat,
)
    requires
        n <= extra_aliases().len(),
        extras_noted(s.rules.seeded, provider, id),
    ensures
        extras_given(s, provider, id, ids, n) == s,
    decreases n,
{
    if n > 0 {
        lemma_extras_nothing_new(s, provider, id, ids, (n - 1) as nat);
        let e = extra_aliases()[n - 1];
        if concerns(e, provider, id) {
            assert(has_name(s.rules.seeded, alias_key(provider, id, e.alias)));
        }
    }
}

/// All that a list of models leads to is noted.
pub open spec fn raccoon_noted(seeded: Seq<Seq<char>>, id: Seq<char>) -> bool {
    was_seeded(seeded, "raccoon"@, id) && extras_noted(seeded, "raccoon"@, id)
}

proof fn lemma_raccoon_rules_seeded(s: Seeding, id: Seq<char>, ids: Seq<Seq<char>>)
    ensures
        raccoon_rules(s, id, ids).rules.seeded == s.rules.seeded,
{
}

proof fn lemma_raccoon_notes(r: ModelRulesView, ids: Seq<Seq<char>>, n: nat)
    requires
        n <= ids.len(),
    ensures
        grows(r.seeded, raccoon_seeded(r, ids, n).rules.seeded),
        forall|k: int|
            0 <= k < n && trimmed(#[trigger] ids[k]).len() > 0 ==> raccoon_noted(
                raccoon_seeded(r, ids, n).rules.seeded,
                trimmed(ids[k]),
            ),
    decreases n,
{
    if n > 0 {
        let m = (n - 1) as nat;
        lemma_raccoon_notes(r, ids, m);
        let s = raccoon_seeded(r, ids, m);
        let before = s.rules.seeded;
        let after = raccoon_seeded(r, ids, n).rules.seeded;
        let id = trimmed(ids[m as int]);
        let total = extra_aliases().len();
        lemma_extras_note(s, "raccoon"@, id, ids, total);
        let t = extras_given(s, "raccoon"@, id, ids, total);
        let middle = t.rules.seeded;
        let key = seed_key("raccoon"@, id);
        lemma_noted_name(middle, key);
        lemma_raccoon_rules_seeded(noted(t, key), id, ids);
        assert(id.len() > 0 ==> grows(middle, after));
        if id.len() > 0 {
            lemma_grows_chain(before, middle, after);
            assert(extras_noted(middle, "raccoon"@, id));
            assert(extras_noted(after, "raccoon"@, id)) by {
                assert forall|k: int| 0 <= k < total && concerns(
                    #[trigger] extra_aliases()[k],
                    "raccoon"@,
                    id,
                ) implies has_name(after, alias_key("raccoon"@, id, extra_aliases()[k].alias)) by {
                    lemma_grows_name(
                        middle,
                        after,
                        alias_key("raccoon"@, id, extra_aliases()[k].alias),
                    );
                }
            }
            assert(was_seeded(after, "raccoon"@, id));
        }
        lemma_grows_chain(r.seeded, before, after);
        assert forall|k: int| 0 <= k < n && trimmed(#[trigger] ids[k]).len() > 0 implies raccoon_noted(
            after,
            trimmed(ids[k]),
        ) by {
            if k < m {
                let other = trimmed(ids[k]);
                assert(raccoon_noted(before, other));
                lemma_grows_seeded(before, after, "raccoon"@, other);
                assert forall|j: int| 0 <= j < total && concerns(
                    #[trigger] extra_aliases()[j],
                    "raccoon"@,
                    other,
                ) implies has_name(
                    after,
                    alias_key("raccoon"@, other, extra_aliases()[j].alias),
                ) by {
                    lemma_grows_name(
                        before,
                        after,
                        alias_key("raccoon"@, other, extra_aliases()[j].alias),
                    );
                }
            }
        }
    }
}

proof fn lemma_raccoon_nothing_new(r: ModelRulesView, ids: Seq<Seq<char>>, n: nat)
    requires
        n <= ids.len(),
        forall|k: int|
            0 <= k < ids.len() && trimmed(#[trigger] ids[k]).len() > 0 ==> raccoon_noted(
                r.seeded,
                trimmed(ids[k]),
            ),
    ensures
        raccoon_seeded(r, ids, n) == (Seeding {
            rules: r,
            disabled: Seq::empty(),
            mapped: Seq::empty(),
        }),
    decreases n,
{
    if n > 0 {
        lemma_raccoon_nothing_new(r, ids, (n - 1) as nat);
        let s = raccoon_seeded(r, ids, (n - 1) as nat);
        let id = trimmed(ids[n - 1]);
        if id.len() > 0 {
            assert(raccoon_noted(r.seeded, id));
            lemma_extras_nothing_new(s, "raccoon"@, id, ids, extra_aliases().len());
        }
    }
}

/// The same for the provider whose models get further names: what was changed since stays.
pub proof fn raccoon_rules_are_given_once(
    r: ModelRulesView,
    changed: ModelRulesView,
    ids: Seq<Seq<char>>,
)
    requires
        changed.seeded == raccoon_seeded(r, ids, ids.len()).rules.seeded,
    ensures
        raccoon_seeded(changed, ids, ids.len()).rules == changed,
{
    lemma_raccoon_notes(r, ids, ids.len());
    lemma_raccoon_nothing_new(changed, ids, ids.len());
}

// ─── Telling ─────────────────────────────────────────────────

/// What is told of the default rules of a raccoon list.
pub open spec fn raccoon_summary(s: Seeding) -> Option<Seq<char>> {
    let off = "默认禁用内部模型 ["@ + joined(s.disabled, ", "@) + "]"@;
    let on = "默认新增映射 ["@ + joined(s.mapped, ", "@) + "]"@;
    if s.disabled.len() == 0 && s.mapped.len() == 0 {
        None
    } else if s.mapped.len() == 0 {
        Some("🧩 小浣熊模型默认规则: "@ + off)
    } else if s.disabled.len() == 0 {
        Some("🧩 小浣熊模型默认规则: "@ + on)
    } else {
        Some("🧩 小浣熊模型默认规则: "@ + (off + "；"@ + on))
    }
}

/// What is told of the default rules of a list with a white list.
pub open spec fn whitelist_summary(s: Seeding, label: Seq<char>, white: Seq<Seq<char>>) -> Option<
    Seq<char>,
> {
    if s.disabled.len() == 0 {
        None
    } else {
        Some(
            "🧩 "@ + label + "模型默认规则: 默认只启用 ["@ + joined(white, ", "@) + "]；默认禁用 "@
                + decimal(s.disabled.len() as int) + " 个 ["@ + joined(s.disabled, ", "@) + "]"@,
        )
    }
}

// ─── At work ─────────────────────────────────────────────────

/// The plain value of rules on their way.
pub open spec fn seeding(rules: ModelRules, disabled: Seq<String>, mapped: Seq<String>) -> Seeding {
    Seeding { rules: rules@, disabled: words(disabled), mapped: words(mapped) }
}

fn note(rules: &mut ModelRules, key: String)
    ensures
        final(rules)@ == (ModelRulesView {
            seeded: old(rules)@.seeded.push(key@),
            ..old(rules)@
        }),
{
    push_word(&mut rules.seeded, key);
}

fn add_alias(
    rules: &mut ModelRules,
    mapped: &mut Vec<String>,
    alias: &str,
    id: &str,
    provider: &str,
)
    ensures
        final(rules)@ == (ModelRulesView {
            mappings: old(rules)@.mappings.push(
                MappingView { alias: alias@, target: id@, provider: Some(provider@) },
            ),
            ..old(rules)@
        }),
        words(final(mapped)@) == words(old(mapped)@).push(arrow(alias@, id@)),
{
    let ghost before = rules.mappings@;
    rules.mappings.push(
        Mapping {
            alias: alias.to_owned(),
            target: id.to_owned(),
            provider: Some(provider.to_owned()),
        },
    );
    assert(mappings_view(rules.mappings@) =~= mappings_view(before).push(
        MappingView { alias: alias@, target: id@, provider: Some(provider@) },
    ));
    push_word(mapped, concat3(alias, " → ", id));
}

fn is_alias_served(list: &Vec<Mapping>, alias: &str, target: &str, provider: &str) -> (r: bool)
    ensures
        r == alias_served(mappings_view(list@), alias@, target@, provider@),
{
    for i in 0..list.len()
        invariant
            forall|k: int|
                0 <= k < i ==> !serves_alias(
                    #[trigger] mappings_view(list@)[k],
                    alias@,
                    target@,
                    provider@,
                ),
    {
        assert(mappings_view(list@)[i as int] == list@[i as int]@);
        let fits = match &list[i].provider {
            Some(p) => eq_ignore_case(p.as_str(), provider),
            None => true,
        };
        if eq_ignore_case(list[i].alias.as_str(), alias) && eq_ignore_case(
            list[i].target.as_str(),
            target,
        ) && fits {
            return true;
        }
    }
    false
}

fn give_extra(
    rules: &mut ModelRules,
    mapped: &mut Vec<String>,
    owner: &str,
    target: &str,
    alias: &str,
    provider: &str,
    id: &str,
    ids: &Vec<String>,
)
    ensures
        forall|off: Seq<String>| #[trigger]
            seeding(*final(rules), off, final(mapped)@) == extra_given(
                seeding(*old(rules), off, old(mapped)@),
                ExtraAlias { owner: owner@, target: target@, alias: alias@ },
                provider@,
                id@,
                words(ids@),
            ),
{
    if !eq_ignore_case(owner, provider) || !eq_ignore_case(target, id) {
        return ;
    }
    let key = extra_alias_key(provider, id, alias);
    if lists_name(&rules.seeded, key.as_str()) {
        return ;
    }
    note(rules, key);
    if lists_name(ids, alias) || is_alias_served(&rules.mappings, alias, target, provider) {
        return ;
    }
    add_alias(rules, mapped, alias, id, provider);
}

fn seed_extra_aliases(
    rules: &mut ModelRules,
    mapped: &mut Vec<String>,
    provider: &str,
    id: &str,
    ids: &Vec<String>,
)
    ensures
        forall|off: Seq<String>| #[trigger]
            seeding(*final(rules), off, final(mapped)@) == extras_given(
                seeding(*old(rules), off, old(mapped)@),
                provider@,
                id@,
                words(ids@),
                extra_aliases().len(),
            ),
{
    let ghost r0 = *rules;
    let ghost m0 = mapped@;
    give_extra(
        rules,
        mapped,
        "raccoon",
        "sn-deepseek-v4-1-flash",
        "deepseek-v4.1-flash",
        provider,
        id,
        ids,
    );
    let ghost r1 = *rules;
    let ghost m1 = mapped@;
    give_extra(
        rules,
        mapped,
        "cline-free",
        "cline-free/deepseek-v4.1-flash",
        "deepseek-v4.1-flash",
        provider,
        id,
        ids,
    );
    let ghost r2 = *rules;
    let ghost m2 = mapped@;
    give_extra(
        rules,
        mapped,
        "cline-pass",
        "cline-pass/deepseek-v4.1-flash",
        "deepseek-v4.1-flash",
        provider,
        id,
        ids,
    );
    proof {
        assert forall|off: Seq<String>| #[trigger]
            seeding(*rules, off, mapped@) == extras_given(
                seeding(r0, off, m0),
                provider@,
                id@,
                words(ids@),
                extra_aliases().len(),
            ) by {
            let s0 = seeding(r0, off, m0);
            let s1 = seeding(r1, off, m1);
            let s2 = seeding(r2, off, m2);
            assert(extras_given(s0, provider@, id@, words(ids@), 0) == s0);
            assert(extras_given(s0, provider@, id@, words(ids@), 1) == s1);
            assert(extras_given(s0, provider@, id@, words(ids@), 2) == s2);
            assert(extra_aliases().len() == 3);
        }
    }
}

fn switch_off(rules: &mut ModelRules, provider: &str, id: &str)
    ensures
        final(rules)@ == (ModelRulesView {
            disabled: rule_made(old(rules)@.disabled, Some(provider@), id@),
            ..old(rules)@
        }),
{
    let none: Vec<String> = Vec::new();
    rules.set_state(Some(provider), id, Some(false), None, &none);
}

fn give_raccoon_rules(
    rules: &mut ModelRules,
    disabled: &mut Vec<String>,
    mapped: &mut Vec<String>,
    id: &str,
    ids: &Vec<String>,
)
    ensures
        seeding(*final(rules), final(disabled)@, final(mapped)@) == raccoon_rules(
            seeding(*old(rules), old(disabled)@, old(mapped)@),
            id@,
            words(ids@),
        ),
{
    if is_opaque_raccoon_id(id) {
        if !rules.is_disabled("raccoon", id) {
            switch_off(rules, "raccoon", id);
            push_word(disabled, id.to_owned());
        }
    } else if crate::text::starts_with(id, "sn-") {
        proof {
            reveal_strlit("sn-");
        }
        let chars = chars_of(id);
        assert(chars@.subrange(3, chars@.len() as int) =~= id@.skip(3));
        let alias = text_between(&chars, 3, chars.len());
        if alias_valid(alias.as_str()) && !rules.has_alias(alias.as_str()) && !lists_name(
            ids,
            alias.as_str(),
        ) {
            add_alias(rules, mapped, alias.as_str(), id, "raccoon");
        }
    }
}

fn step_raccoon(
    rules: &mut ModelRules,
    disabled: &mut Vec<String>,
    mapped: &mut Vec<String>,
    raw: &str,
    ids: &Vec<String>,
)
    ensures
        seeding(*final(rules), final(disabled)@, final(mapped)@) == raccoon_step(
            seeding(*old(rules), old(disabled)@, old(mapped)@),
            raw@,
            words(ids@),
        ),
{
    let id = trim(raw);
    if id.as_str().is_empty() {
        return ;
    }
    let ghost s0 = seeding(*rules, disabled@, mapped@);
    seed_extra_aliases(rules, mapped, "raccoon", id.as_str(), ids);
    let ghost s1 = seeding(*rules, disabled@, mapped@);
    assert(s1 == extras_given(s0, "raccoon"@, id@, words(ids@), extra_aliases().len()));
    if rules.is_seeded("raccoon", id.as_str()) {
        return ;
    }
    note(rules, concat3("raccoon", ":", id.as_str()));
    give_raccoon_rules(rules, disabled, mapped, id.as_str(), ids);
}

fn tell_raccoon(disabled: &Vec<String>, mapped: &Vec<String>, s: Ghost<Seeding>) -> (r: Option<String>)
    requires
        words(disabled@) == s@.disabled,
        words(mapped@) == s@.mapped,
    ensures
        text_view(r) == raccoon_summary(s@),
{
    assert(words(disabled@).len() == disabled@.len());
    assert(words(mapped@).len() == mapped@.len());
    if disabled.len() == 0 && mapped.len() == 0 {
        return None;
    }
    let off = concat3("默认禁用内部模型 [", join(disabled, ", ").as_str(), "]");
    let on = concat3("默认新增映射 [", join(mapped, ", ").as_str(), "]");
    if mapped.len() == 0 {
        Some(concat("🧩 小浣熊模型默认规则: ", off.as_str()))
    } else if disabled.len() == 0 {
        Some(concat("🧩 小浣熊模型默认规则: ", on.as_str()))
    } else {
        Some(
            concat(
                "🧩 小浣熊模型默认规则: ",
                concat3(off.as_str(), "；", on.as_str()).as_str(),
            ),
        )
    }
}

/// Gives the models of a raccoon list their default rules.
pub fn seed_raccoon_defaults(rules: &mut ModelRules, ids: &Vec<String>) -> (out: SeedOutcome)
    ensures
        ({
            let s = raccoon_seeded(old(rules)@, words(ids@), ids@.len());
            &&& final(rules)@ == s.rules
            &&& out.changed == (s.rules.seeded.len() != old(rules)@.seeded.len())
            &&& text_view(out.summary) == raccoon_summary(s)
        }),
{
    let ghost start = rules@;
    let ghost all = words(ids@);
    let before: usize = rules.seeded.len();
    let mut disabled: Vec<String> = Vec::new();
    let mut mapped: Vec<String> = Vec::new();
    assert(words(disabled@) =~= Seq::empty());
    assert(words(mapped@) =~= Seq::empty());
    for n in 0..ids.len()
        invariant
            all == words(ids@),
            seeding(*rules, disabled@, mapped@) == raccoon_seeded(start, all, n as nat),
    {
        assert(all[n as int] == ids@[n as int]@);
        step_raccoon(rules, &mut disabled, &mut mapped, ids[n].as_str(), ids);
    }
    let ghost s = raccoon_seeded(start, all, ids@.len());
    assert(rules@.seeded.len() == rules.seeded@.len());
    SeedOutcome {
        changed: rules.seeded.len() != before,
        summary: tell_raccoon(&disabled, &mapped, Ghost(s)),
    }
}

fn step_whitelist(
    rules: &mut ModelRules,
    disabled: &mut Vec<String>,
    raw: &str,
    provider: &str,
    white: &Vec<String>,
)
    ensures
        forall|m: Seq<String>| #[trigger]
            seeding(*final(rules), final(disabled)@, m) == whitelist_step(
                seeding(*old(rules), old(disabled)@, m),
                raw@,
                provider@,
                words(white@),
            ),
{
    let id = trim(raw);
    if id.as_str().is_empty() || rules.is_seeded(provider, id.as_str()) {
        return ;
    }
    note(rules, concat3(provider, ":", id.as_str()));
    if !lists_name(white, id.as_str()) && !rules.is_disabled(provider, id.as_str()) {
        switch_off(rules, provider, id.as_str());
        push_word(disabled, id);
    }
}

fn seed_default_enabled(
    rules: &mut ModelRules,
    provider: &str,
    label: &str,
    white: &Vec<String>,
    ids: &Vec<String>,
) -> (out: SeedOutcome)
    ensures
        ({
            let s = whitelist_seeded(
                old(rules)@,
                words(ids@),
                provider@,
                words(white@),
                ids@.len(),
            );
            &&& final(rules)@ == s.rules
            &&& out.changed == (s.rules.seeded.len() != old(rules)@.seeded.len())
            &&& text_view(out.summary) == whitelist_summary(s, label@, words(white@))
        }),
{
    let ghost start = rules@;
    let ghost all = words(ids@);
    let before: usize = rules.seeded.len();
    let mut disabled: Vec<String> = Vec::new();
    let ghost none = Seq::<String>::empty();
    assert(words(disabled@) =~= Seq::empty());
    assert(words(none) =~= Seq::empty());
    for n in 0..ids.len()
        invariant
            all == words(ids@),
            seeding(*rules, disabled@, none) == whitelist_seeded(
                start,
                all,
                provider@,
                words(white@),
                n as nat,
            ),
    {
        assert(all[n as int] == ids@[n as int]@);
        let ghost r0 = *rules;
        let ghost d0 = disabled@;
        step_whitelist(rules, &mut disabled, ids[n].as_str(), provider, white);
        assert(seeding(*rules, disabled@, none) == whitelist_step(
            seeding(r0, d0, none),
            all[n as int],
            provider@,
            words(white@),
        ));
    }
    assert(rules@.seeded.len() == rules.seeded@.len());
    assert(words(disabled@).len() == disabled@.len());
    let summary = if disabled.len() == 0 {
        None
    } else {
        let mut text = concat3("🧩 ", label, "模型默认规则: 默认只启用 [");
        text.append(join(white, ", ").as_str());
        text.append("]；默认禁用 ");
        text.append(decimal_u64(disabled.len() as u64).as_str());
        text.append(" 个 [");
        text.append(join(&disabled, ", ").as_str());
        text.append("]");
        Some(text)
    };
    SeedOutcome { changed: rules.seeded.len() != before, summary }
}

/// Gives the models of the default provider's list their default rules.
pub fn seed_workbuddy_defaults(rules: &mut ModelRules, ids: &Vec<String>) -> (out: SeedOutcome)
    ensures
        ({
            let s = whitelist_seeded(
                old(rules)@,
                words(ids@),
                "workbuddy"@,
                workbuddy_white(),
                ids@.len(),
            );
            &&& final(rules)@ == s.rules
            &&& out.changed == (s.rules.seeded.len() != old(rules)@.seeded.len())
            &&& text_view(out.summary) == whitelist_summary(s, "WorkBuddy"@, workbuddy_white())
        }),
{
    let mut white: Vec<String> = Vec::new();
    white.push("hy3".to_owned());
    white.push("hy4-preview-f".to_owned());
    white.push("deepseek-v4.1-flash".to_owned());
    assert(words(white@) =~= workbuddy_white());
    seed_default_enabled(rules, "workbuddy", "WorkBuddy", &white, ids)
}

/// Gives the models of a Qoder list their default rules.
pub fn seed_qoder_defaults(rules: &mut ModelRules, ids: &Vec<String>) -> (out: SeedOutcome)
    ensures
        ({
            let s = whitelist_seeded(
                old(rules)@,
                words(ids@),
                "qoder"@,
                qoder_white(),
                ids@.len(),
            );
            &&& final(rules)@ == s.rules
            &&& out.changed == (s.rules.seeded.len() != old(rules)@.seeded.len())
            &&& text_view(out.summary) == whitelist_summary(s, "Qoder"@, qoder_white())
        }),
{
    let mut white: Vec<String> = Vec::new();
    white.push("Qwen3.8-Flash".to_owned());
    assert(words(white@) =~= qoder_white());
    seed_default_enabled(rules, "qoder", "Qoder", &white, ids)
}

} // verus!
