//! Software updates: which version is newer, where an installer may come from, which asset of a
//! release is the installer, and under which name it is kept.
use vstd::prelude::*;
use crate::js::texts;
use crate::json::{field, seen, text_or_empty, text_in, text_view, Json, JsonValue, Object};
use crate::number::number_as_u64;
use crate::text::{
    blank, chars_of, concat, contains, decimal, digits_value, ends, ends_with, holds_part,
    is_digit, js_trim, js_trimmed, lemma_digits_grow, lemma_numeral_digits, lowered, same, text_of,
    to_lower, trim, trim_back, trim_front, trimmed,
};

verus! {

/// The repository whose releases are offered.
pub const DEFAULT_REPO: &'static str = "aimod-cc/agent2api";

/// Where releases are asked for.
pub const GITHUB_API: &'static str = "https://api.github.com";

/// An installer that is larger is not kept.
pub const MAX_INSTALLER_BYTES: u64 = 629145600;

/// Why an update failed, with the HTTP status it is answered with.
pub struct UpdateError {
    pub message: String,
    pub status_code: i32,
}

/// A failure as the gateway answers it.
pub struct GatewayError {
    pub status_code: i32,
    pub message: String,
}

impl UpdateError {
    /// A failure on the other side.
    pub fn new(message: &str) -> (out: UpdateError)
        ensures
            out.message@ == message@,
            out.status_code == 502,
    {
        UpdateError { message: message.to_owned(), status_code: 502 }
    }

    pub fn with_status(status_code: i32, message: &str) -> (out: UpdateError)
        ensures
            out.message@ == message@,
            out.status_code == status_code,
    {
        UpdateError { message: message.to_owned(), status_code }
    }

    /// The same failure, as the gateway answers it.
    pub fn to_gateway_error(&self) -> (out: GatewayError)
        ensures
            out.message@ == self.message@,
            out.status_code == self.status_code,
    {
        GatewayError { status_code: self.status_code, message: self.message.clone() }
    }

    /// What is shown of it.
    pub fn text(&self) -> (out: String)
        ensures
            out@ == self.message@,
    {
        self.message.clone()
    }
}

// ─── Versions ────────────────────────────────────────────────

/// How many digits a text starts with.
pub open spec fn digit_run(text: Seq<char>) -> nat
    decreases text.len(),
{
    if text.len() > 0 && is_digit(text[0]) {
        1 + digit_run(text.skip(1))
    } else {
        0
    }
}

/// The number that a text starts with, where it fits 64 bits.
pub open spec fn leading_number(text: Seq<char>) -> Option<u64> {
    let v = digits_value(text.take(digit_run(text) as int));
    if digit_run(text) > 0 && v <= u64::MAX {
        Some(v as u64)
    } else {
        None
    }
}

/// What follows the number that a text starts with.
pub open spec fn behind_number(text: Seq<char>) -> Seq<char> {
    text.skip(digit_run(text) as int)
}

/// Three numbers with dots between them; what follows does not matter.
pub open spec fn three_numbers(text: Seq<char>) -> Option<(u64, u64, u64)> {
    let second = behind_number(text);
    let third = behind_number(second.skip(1));
    if leading_number(text) is Some && second.len() > 0 && second[0] == '.' && leading_number(
        second.skip(1),
    ) is Some && third.len() > 0 && third[0] == '.' && leading_number(third.skip(1)) is Some {
        Some(
            (
                leading_number(text)->0,
                leading_number(second.skip(1))->0,
                leading_number(third.skip(1))->0,
            ),
        )
    } else {
        None
    }
}

/// A text without the letter in front of a version.
pub open spec fn without_v(text: Seq<char>) -> Seq<char> {
    if text.len() > 0 && (text[0] == 'v' || text[0] == 'V') {
        text.skip(1)
    } else {
        text
    }
}

/// The version that a text gives.
pub open spec fn version_in(text: Seq<char>) -> Option<(u64, u64, u64)> {
    three_numbers(without_v(trimmed(text)))
}

/// 1 where `a` is newer, -1 where `b` is, 0 where neither is.
pub open spec fn newer(a: (u64, u64, u64), b: (u64, u64, u64)) -> i32 {
    if a.0 != b.0 {
        if a.0 > b.0 { 1i32 } else { (-1i32) as i32 }
    } else if a.1 != b.1 {
        if a.1 > b.1 { 1i32 } else { (-1i32) as i32 }
    } else if a.2 != b.2 {
        if a.2 > b.2 { 1i32 } else { (-1i32) as i32 }
    } else {
        0i32
    }
}

/// Versions are ordered: none is newer than itself, of two different ones exactly one is newer,
/// and what is newer than a newer one is newer.
pub proof fn versions_are_ordered(a: (u64, u64, u64), b: (u64, u64, u64), c: (u64, u64, u64))
    ensures
        newer(a, b) == -newer(b, a),
        newer(a, b) == 0 <==> a == b,
        newer(a, b) == 1 && newer(b, c) == 1 ==> newer(a, c) == 1,
{
}

proof fn lemma_run(digits: Seq<char>, rest: Seq<char>)
    requires
        forall|i: int| 0 <= i < digits.len() ==> is_digit(#[trigger] digits[i]),
        rest.len() > 0 ==> !is_digit(rest[0]),
    ensures
        digit_run(digits + rest) == digits.len(),
        (digits + rest).take(digits.len() as int) == digits,
        behind_number(digits + rest) == rest,
    decreases digits.len(),
{
    let text = digits + rest;
    assert(text.take(digits.len() as int) =~= digits);
    assert(text.skip(digits.len() as int) =~= rest);
    if digits.len() == 0 {
        assert(text =~= rest);
    } else {
        assert(text[0] == digits[0]);
        assert(text.skip(1) =~= digits.skip(1) + rest);
        lemma_run(digits.skip(1), rest);
    }
}

/// A version that is written out, with or without the letter in front and with or without a
/// suffix, is read back.
pub proof fn written_version_reads_back(v: (u64, u64, u64), suffix: Seq<char>)
    requires
        suffix.len() > 0 ==> !is_digit(suffix[0]) && !crate::text::white(suffix.last()),
    ensures
        ({
            let text = decimal(v.0 as int) + (seq!['.'] + (decimal(v.1 as int) + (seq!['.'] + (
            decimal(v.2 as int) + suffix))));
            &&& version_in(text) == Some(v)
            &&& version_in(seq!['v'] + text) == Some(v)
            &&& version_in(seq!['V'] + text) == Some(v)
        }),
{
    let a = decimal(v.0 as int);
    let b = decimal(v.1 as int);
    let c = decimal(v.2 as int);
    lemma_numeral_digits(v.0 as nat);
    lemma_numeral_digits(v.1 as nat);
    lemma_numeral_digits(v.2 as nat);
    let third = c + suffix;
    let second = b + (seq!['.'] + third);
    let text = a + (seq!['.'] + second);
    lemma_run(c, suffix);
    lemma_run(b, seq!['.'] + third);
    lemma_run(a, seq!['.'] + second);
    assert((seq!['.'] + third).skip(1) =~= third);
    assert((seq!['.'] + second).skip(1) =~= second);
    assert(is_digit(text[0])) by {
        assert(text[0] == a[0]);
    }
    assert(!crate::text::white(text.last())) by {
        if suffix.len() > 0 {
            assert(text.last() == suffix.last());
        } else {
            assert(text.last() == c.last());
            assert(is_digit(c[c.len() - 1]));
        }
    }
    assert(trimmed(text) == text);
    assert(three_numbers(text) == Some(v));
    let small = seq!['v'] + text;
    let large = seq!['V'] + text;
    assert(small.skip(1) =~= text);
    assert(large.skip(1) =~= text);
    assert(small.last() == text.last());
    assert(large.last() == text.last());
    assert(trimmed(small) == small);
    assert(trimmed(large) == large);
}

/// The number at a position, and the position behind it.
fn number_at(chars: &Vec<char>, from: usize) -> (r: Option<(u64, usize)>)
    requires
        from <= chars@.len(),
    ensures
        match r {
            Some((v, to)) => {
                &&& leading_number(chars@.skip(from as int)) == Some(v)
                &&& to == from + digit_run(chars@.skip(from as int))
                &&& to <= chars@.len()
            },
            None => leading_number(chars@.skip(from as int)) is None,
        },
{
    let ghost text = chars@.skip(from as int);
    let mut to: usize = from;
    while to < chars.len() && '0' <= chars[to] && chars[to] <= '9'
        invariant
            from <= to <= chars@.len(),
            text == chars@.skip(from as int),
            forall|k: int| 0 <= k < to - from ==> is_digit(#[trigger] text[k]),
        decreases chars@.len() - to,
    {
        assert(text[to - from] == chars@[to as int]);
        to = to + 1;
    }
    let ghost digits = text.take(to - from);
    proof {
        assert(text =~= digits + text.skip(to - from));
        assert(text.skip(to - from).len() > 0 ==> text.skip(to - from)[0] == chars@[to as int]);
        lemma_run(digits, text.skip(to - from));
    }
    if to == from {
        return None;
    }
    let mut value: u64 = 0;
    let mut i: usize = from;
    while i < to
        invariant
            from <= i <= to <= chars@.len(),
            text == chars@.skip(from as int),
            digits == text.take(to - from),
            digit_run(text) == to - from,
            to > from,
            forall|k: int| 0 <= k < digits.len() ==> is_digit(#[trigger] digits[k]),
            value == digits_value(digits.take(i - from)),
        decreases to - i,
    {
        let c = chars[i];
        assert(digits[i - from] == c);
        let d: u64 = (c as u32 - 48) as u64;
        assert(digits.take(i - from + 1).drop_last() =~= digits.take(i - from));
        assert(digits.take(i - from + 1).last() == c);
        if value > (u64::MAX - d) / 10 {
            assert(digits_value(digits.take(i - from + 1)) > u64::MAX);
            proof {
                lemma_digits_grow(digits, i - from + 1);
            }
            return None;
        }
        value = value * 10 + d;
        i = i + 1;
    }
    assert(digits.take(digits.len() as int) =~= digits);
    Some((value, to))
}

/// [`version_in`].
pub fn parse_version(text: &str) -> (r: Option<[u64; 3]>)
    ensures
        match version_in(text@) {
            Some(v) => r is Some && r->0@ == seq![v.0, v.1, v.2],
            None => r is None,
        },
{
    let chars = chars_of(trim(text).as_str());
    let from: usize = if chars.len() > 0 && (chars[0] == 'v' || chars[0] == 'V') { 1 } else { 0 };
    let ghost body = without_v(chars@);
    assert(chars@.skip(from as int) =~= body);
    let (major, to) = match number_at(&chars, from) {
        Some(p) => p,
        None => return None,
    };
    assert(chars@.skip(to as int) =~= behind_number(body));
    if to >= chars.len() || chars[to] != '.' {
        return None;
    }
    let ghost second = behind_number(body).skip(1);
    assert(chars@.skip(to + 1) =~= second);
    let (minor, to) = match number_at(&chars, to + 1) {
        Some(p) => p,
        None => return None,
    };
    assert(chars@.skip(to as int) =~= behind_number(second));
    if to >= chars.len() || chars[to] != '.' {
        return None;
    }
    let ghost third = behind_number(second).skip(1);
    assert(chars@.skip(to + 1) =~= third);
    let (patch, _) = match number_at(&chars, to + 1) {
        Some(p) => p,
        None => return None,
    };
    let out = [major, minor, patch];
    assert(out@ =~= seq![major, minor, patch]);
    Some(out)
}

/// Which of two versions is newer, where both texts give one.
pub fn compare_versions(a: &str, b: &str) -> (r: Option<i32>)
    ensures
        r == match (version_in(a@), version_in(b@)) {
            (Some(x), Some(y)) => Some(newer(x, y)),
            _ => None,
        },
{
    match (parse_version(a), parse_version(b)) {
        (Some(x), Some(y)) => {
            for i in 0..3usize
                invariant
                    forall|k: int| 0 <= k < i ==> x@[k] == y@[k],
                    version_in(a@) == Some((x@[0], x@[1], x@[2])),
                    version_in(b@) == Some((y@[0], y@[1], y@[2])),
            {
                if x[i] > y[i] {
                    return Some(1);
                }
                if x[i] < y[i] {
                    return Some(-1);
                }
            }
            Some(0)
        },
        _ => None,
    }
}

// ─── Addresses ───────────────────────────────────────────────

/// What counts of an address.
pub struct ParsedUrl {
    pub scheme: String,
    pub host: Option<String>,
    /// The whole address in its normal form.
    pub text: String,
}

/// The plain value of a [`ParsedUrl`].
pub struct UrlView {
    pub scheme: Seq<char>,
    pub host: Option<Seq<char>>,
    pub text: Seq<char>,
}

impl View for ParsedUrl {
    type V = UrlView;

    open spec fn view(&self) -> UrlView {
        UrlView { scheme: self.scheme@, host: text_view(self.host), text: self.text@ }
    }
}

/// Why a text is no address.
#[verifier::external_type_specification]
#[verifier::external_body]
pub struct ExParseError(url::ParseError);

/// The address that a text gives by the rules of `url::Url::parse`.
pub uninterp spec fn url_of_text(text: Seq<char>) -> Option<UrlView>;

/// `url::Url::parse`, with the scheme, the host and the serialisation of what it returns. Whether
/// it succeeds and what it returns depend on the text alone.
#[verifier::external_body]
fn parse_url(text: &str) -> (r: Result<ParsedUrl, url::ParseError>)
    ensures
        match r {
            Ok(u) => url_of_text(text@) == Some(u@),
            Err(_) => url_of_text(text@) is None,
        },
{
    let u = url::Url::parse(text)?;
    let host = match u.host_str() {
        Some(h) => Some(h.to_string()),
        None => None,
    };
    Ok(ParsedUrl { scheme: u.scheme().to_string(), host, text: u.as_str().to_string() })
}

/// The hosts that installers may come from.
pub open spec fn allowed_hosts() -> Seq<Seq<char>> {
    seq![
        "github.com"@,
        "www.github.com"@,
        "objects.githubusercontent.com"@,
        "codeload.github.com"@,
    ]
}

pub open spec fn allowed_host(host: Seq<char>) -> bool {
    allowed_hosts().contains(host) || ends(host, ".githubusercontent.com"@)
}

/// The host of an address as it is compared.
pub open spec fn host_of(u: UrlView) -> Seq<char> {
    lowered(
        match u.host {
            Some(h) => h,
            None => Seq::empty(),
        },
    )
}

/// Why an address is refused: the message, where it is.
pub open spec fn address_refused(u: Option<UrlView>) -> Option<Seq<char>> {
    match u {
        None => Some("下载地址不是合法 URL"@),
        Some(v) => if v.scheme != "https"@ {
            Some("下载地址必须是 https"@)
        } else if !allowed_host(host_of(v)) {
            Some("下载地址域名不在允许列表内: "@ + host_of(v))
        } else {
            None
        },
    }
}

fn is_allowed_host(host: &str) -> (r: bool)
    ensures
        r == allowed_host(host@),
{
    let ghost all = allowed_hosts();
    assert(all[0] == "github.com"@);
    assert(all[1] == "www.github.com"@);
    assert(all[2] == "objects.githubusercontent.com"@);
    assert(all[3] == "codeload.github.com"@);
    if same(host, "github.com") || same(host, "www.github.com") || same(
        host,
        "objects.githubusercontent.com",
    ) || same(host, "codeload.github.com") {
        return true;
    }
    ends_with(host, ".githubusercontent.com")
}

/// Decides on an address that was parsed, or was not one.
pub fn check_address(u: Option<ParsedUrl>) -> (r: Result<ParsedUrl, UpdateError>)
    ensures
        ({
            let given = match u {
                Some(v) => Some(v@),
                None => None,
            };
            match r {
                Ok(v) => address_refused(given) is None && given == Some(v@),
                Err(e) => address_refused(given) == Some(e.message@) && e.status_code == 400,
            }
        }),
{
    let v = match u {
        Some(v) => v,
        None => return Err(UpdateError::with_status(400, "下载地址不是合法 URL")),
    };
    if !same(v.scheme.as_str(), "https") {
        return Err(UpdateError::with_status(400, "下载地址必须是 https"));
    }
    proof {
        reveal_strlit("");
        assert(""@ =~= Seq::<char>::empty());
    }
    let host = match &v.host {
        Some(h) => to_lower(h.as_str()),
        None => to_lower(""),
    };
    if !is_allowed_host(host.as_str()) {
        return Err(
            UpdateError::with_status(
                400,
                concat("下载地址域名不在允许列表内: ", host.as_str()).as_str(),
            ),
        );
    }
    Ok(v)
}

/// Lets an address through where an installer may be fetched from it: a valid one, with `https`,
/// on an allowed host.
pub fn assert_downloadable(text: &str) -> (r: Result<ParsedUrl, UpdateError>)
    ensures
        match r {
            Ok(v) => address_refused(url_of_text(text@)) is None && url_of_text(text@) == Some(v@),
            Err(e) => address_refused(url_of_text(text@)) == Some(e.message@) && e.status_code
                == 400,
        },
{
    match parse_url(text) {
        Ok(u) => check_address(Some(u)),
        Err(_) => check_address(None),
    }
}

// ─── Assets ──────────────────────────────────────────────────

/// The name of an asset as it is compared.
pub open spec fn asset_name(item: Json) -> Seq<char> {
    lowered(text_or_empty(field(item, "name"@)))
}

pub open spec fn is_program(item: Json) -> bool {
    ends(asset_name(item), ".exe"@)
}

pub open spec fn is_setup(item: Json) -> bool {
    is_program(item) && (holds_part(asset_name(item), "setup"@) || holds_part(
        asset_name(item),
        "install"@,
    ))
}

/// The first program of a list, or the first that sets up.
pub open spec fn first_asset(list: Seq<Json>, setup: bool) -> Option<Json>
    decreases list.len(),
{
    if list.len() == 0 {
        None
    } else if if setup { is_setup(list[0]) } else { is_program(list[0]) } {
        Some(list[0])
    } else {
        first_asset(list.skip(1), setup)
    }
}

/// The installer among the assets of a release: a program that sets up before any other program.
pub open spec fn installer_in(list: Seq<Json>) -> Option<Json> {
    match first_asset(list, true) {
        Some(a) => Some(a),
        None => first_asset(list, false),
    }
}

pub open spec fn natural_or_zero(v: Option<Json>) -> Json {
    Json::Num(
        crate::number::NumberView::PosInt(
            match v {
                Some(Json::Num(n)) => match number_as_u64(n) {
                    Some(k) => k,
                    None => 0u64,
                },
                _ => 0u64,
            },
        ),
    )
}

/// What counts of an installer.
pub open spec fn installer_json(item: Json) -> Json {
    Json::Obj(
        seq![
            ("name"@, Json::Str(text_or_empty(field(item, "name"@)))),
            ("size"@, natural_or_zero(field(item, "size"@))),
            ("url"@, Json::Str(text_or_empty(field(item, "browser_download_url"@)))),
        ],
    )
}

fn natural_in(v: Option<&JsonValue>) -> (out: JsonValue)
    ensures
        out@ == natural_or_zero(seen(v)),
{
    let n: u64 = match v {
        Some(JsonValue::Num(n)) => match n.as_u64() {
            Some(k) => k,
            None => 0,
        },
        _ => 0,
    };
    JsonValue::natural(n)
}

fn program(item: &JsonValue, setup: bool) -> (r: bool)
    ensures
        r == if setup { is_setup(item@) } else { is_program(item@) },
{
    let name = to_lower(text_in(item.get("name")).as_str());
    ends_with(name.as_str(), ".exe") && (!setup || contains(name.as_str(), "setup") || contains(
        name.as_str(),
        "install",
    ))
}

fn find_asset(list: &Vec<JsonValue>, setup: bool) -> (r: Option<usize>)
    ensures
        match r {
            Some(i) => i < list@.len() && first_asset(crate::json::list_view(*list), setup) == Some(
                list@[i as int]@,
            ),
            None => first_asset(crate::json::list_view(*list), setup) is None,
        },
{
    let ghost all = crate::json::list_view(*list);
    assert(all.skip(0) =~= all);
    for i in 0..list.len()
        invariant
            all == crate::json::list_view(*list),
            first_asset(all, setup) == first_asset(all.skip(i as int), setup),
    {
        assert(all.skip(i as int)[0] == list@[i as int]@);
        assert(all.skip(i as int).skip(1) =~= all.skip(i + 1));
        if program(&list[i], setup) {
            return Some(i);
        }
    }
    None
}

/// What counts of the installer among some assets, where there is one.
pub fn pick_installer(assets: Option<&JsonValue>) -> (r: Option<JsonValue>)
    ensures
        match r {
            Some(v) => assets is Some && assets->0@ is Arr && installer_in(assets->0@->Arr_0)
                is Some && v@ == installer_json(installer_in(assets->0@->Arr_0)->0),
            None => !(assets is Some && assets->0@ is Arr && installer_in(assets->0@->Arr_0)
                is Some),
        },
{
    let list = match assets {
        Some(JsonValue::Arr(items)) => items,
        _ => return None,
    };
    let at: usize = match find_asset(list, true) {
        Some(i) => i,
        None => match find_asset(list, false) {
            Some(i) => i,
            None => return None,
        },
    };
    let chosen = &list[at];
    let mut o = Object::new();
    o.push("name", JsonValue::Str(text_in(chosen.get("name"))));
    o.push("size", natural_in(chosen.get("size")));
    o.push("url", JsonValue::Str(text_in(chosen.get("browser_download_url"))));
    assert(o@ =~= installer_json(chosen@)->Obj_0);
    Some(JsonValue::Obj(o))
}

// ─── File names ──────────────────────────────────────────────

pub open spec fn separator(c: char) -> bool {
    c == '/' || c == '\\'
}

/// Characters that have no place in a file name.
pub open spec fn unsafe_char(c: char) -> bool {
    separator(c) || c == ':' || c == '*' || c == '?' || c == '"' || c == '<' || c == '>' || c == '|'
}

/// What follows the last separator.
pub open spec fn base_name(name: Seq<char>) -> Seq<char>
    decreases name.len(),
{
    if name.len() == 0 || separator(name.last()) {
        Seq::empty()
    } else {
        base_name(name.drop_last()).push(name.last())
    }
}

/// A name with an underscore in place of each character that has no place in it.
pub open spec fn cleaned(name: Seq<char>) -> Seq<char> {
    name.map_values(|c: char| if unsafe_char(c) { '_' } else { c })
}

/// The name under which an installer is kept.
pub open spec fn safe_name(name: Seq<char>) -> Seq<char> {
    let t = js_trimmed(cleaned(base_name(name)));
    if t.len() > 0 {
        t
    } else {
        "workbuddy-update.exe"@
    }
}

proof fn lemma_trim_keeps(text: Seq<char>)
    requires
        forall|i: int| 0 <= i < text.len() ==> !unsafe_char(#[trigger] text[i]),
    ensures
        forall|i: int|
            0 <= i < js_trimmed(text).len() ==> !unsafe_char(#[trigger] js_trimmed(text)[i]),
{
    lemma_trim_front_keeps(text);
    lemma_trim_back_keeps(trim_front(text, true));
}

proof fn lemma_trim_front_keeps(text: Seq<char>)
    requires
        forall|i: int| 0 <= i < text.len() ==> !unsafe_char(#[trigger] text[i]),
    ensures
        forall|i: int|
            0 <= i < trim_front(text, true).len() ==> !unsafe_char(
                #[trigger] trim_front(text, true)[i],
            ),
    decreases text.len(),
{
    if text.len() > 0 && blank(text[0], true) {
        lemma_trim_front_keeps(text.drop_first());
        assert(trim_front(text, true) == trim_front(text.drop_first(), true));
    } else {
        assert(trim_front(text, true) == text);
    }
}

proof fn lemma_trim_back_keeps(text: Seq<char>)
    requires
        forall|i: int| 0 <= i < text.len() ==> !unsafe_char(#[trigger] text[i]),
    ensures
        forall|i: int|
            0 <= i < trim_back(text, true).len() ==> !unsafe_char(
                #[trigger] trim_back(text, true)[i],
            ),
    decreases text.len(),
{
    if text.len() > 0 && blank(text.last(), true) {
        lemma_trim_back_keeps(text.drop_last());
        assert(trim_back(text, true) == trim_back(text.drop_last(), true));
    } else {
        assert(trim_back(text, true) == text);
    }
}

/// A kept name is never empty and holds neither a separator nor another character that has no
/// place in a file name: it cannot lead out of the directory it is kept in.
pub proof fn safe_names_are_safe(name: Seq<char>)
    ensures
        safe_name(name).len() > 0,
        forall|i: int| 0 <= i < safe_name(name).len() ==> !unsafe_char(#[trigger] safe_name(name)[i]),
{
    lemma_trim_keeps(cleaned(base_name(name)));
    reveal_strlit("workbuddy-update.exe");
}

proof fn lemma_base_name(name: Seq<char>, from: int)
    requires
        0 <= from <= name.len(),
        from == 0 || separator(name[from - 1]),
        forall|i: int| from <= i < name.len() ==> !separator(#[trigger] name[i]),
    ensures
        base_name(name) == name.skip(from),
    decreases name.len(),
{
    if name.len() > from {
        let rest = name.drop_last();
        lemma_base_name(rest, from);
        assert(rest.skip(from).push(name.last()) =~= name.skip(from));
    } else {
        assert(name.skip(from) =~= Seq::empty());
        if name.len() > 0 {
            assert(name.last() == name[from - 1]);
        }
    }
}

fn is_unsafe_char(c: char) -> (r: bool)
    ensures
        r == unsafe_char(c),
{
    c == '/' || c == '\\' || c == ':' || c == '*' || c == '?' || c == '"' || c == '<' || c == '>'
        || c == '|'
}

/// [`safe_name`].
pub fn safe_file_name(name: &str) -> (out: String)
    ensures
        out@ == safe_name(name@),
{
    let chars = chars_of(name);
    let mut from: usize = chars.len();
    while from > 0 && chars[from - 1] != '/' && chars[from - 1] != '\\'
        invariant
            from <= chars@.len(),
            forall|i: int| from <= i < chars@.len() ==> !separator(#[trigger] chars@[i]),
        decreases from,
    {
        from = from - 1;
    }
    proof {
        lemma_base_name(chars@, from as int);
    }
    let ghost base = base_name(chars@);
    let mut clean: Vec<char> = Vec::new();
    assert(clean@ =~= cleaned(base).take(0));
    for i in from..chars.len()
        invariant
            from <= i,
            from <= chars@.len(),
            base == chars@.skip(from as int),
            clean@ == cleaned(base).take(i - from),
    {
        let c = chars[i];
        assert(base[i - from] == c);
        clean.push(if is_unsafe_char(c) { '_' } else { c });
        assert(clean@ =~= cleaned(base).take(i - from + 1));
    }
    assert(cleaned(base).take(base.len() as int) =~= cleaned(base));
    let t = js_trim(text_of(&clean).as_str());
    if t.as_str().is_empty() {
        "workbuddy-update.exe".to_owned()
    } else {
        t
    }
}

} // verus!
