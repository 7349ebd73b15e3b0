//! JSON values, with objects as lists of named entries in the order in which they were added.
use vstd::prelude::*;
use crate::number::{finite, int_number, number_as_i64, Double, Number, NumberView};
use crate::text::{same, trim, trimmed};

verus! {

/// A JSON value.
pub enum JsonValue {
    Null,
    Bool(bool),
    Num(Number),
    Str(String),
    Arr(Vec<JsonValue>),
    Obj(Object),
}

/// The entries of a JSON object. Where a key occurs twice, its last entry counts.
pub struct Object {
    pub entries: Vec<(String, JsonValue)>,
}

/// The plain value of a [`JsonValue`].
#[verifier::ext_equal]
pub enum Json {
    Null,
    Bool(bool),
    Num(NumberView),
    Str(Seq<char>),
    Arr(Seq<Json>),
    Obj(Seq<(Seq<char>, Json)>),
}

/// The plain value of an [`Object`].
pub type Fields = Seq<(Seq<char>, Json)>;

pub open spec fn value_view(v: JsonValue) -> Json
    decreases v,
{
    match v {
        JsonValue::Null => Json::Null,
        JsonValue::Bool(b) => Json::Bool(b),
        JsonValue::Num(n) => Json::Num(n@),
        JsonValue::Str(s) => Json::Str(s@),
        JsonValue::Arr(items) => Json::Arr(list_view(items)),
        JsonValue::Obj(o) => Json::Obj(object_view(o)),
    }
}

pub open spec fn list_view(items: Vec<JsonValue>) -> Seq<Json>
    decreases items,
{
    Seq::new(
        items@.len(),
        |i: int|
            if 0 <= i < items@.len() {
                value_view(items@[i])
            } else {
                Json::Null
            },
    )
}

pub open spec fn object_view(o: Object) -> Fields
    decreases o,
{
    Seq::new(
        o.entries@.len(),
        |i: int|
            if 0 <= i < o.entries@.len() {
                (o.entries@[i].0@, value_view(o.entries@[i].1))
            } else {
                (Seq::empty(), Json::Null)
            },
    )
}

impl View for JsonValue {
    type V = Json;

    open spec fn view(&self) -> Json {
        value_view(*self)
    }
}

impl View for Object {
    type V = Fields;

    open spec fn view(&self) -> Fields {
        object_view(*self)
    }
}

/// The plain value of an optional reference.
pub open spec fn seen(v: Option<&JsonValue>) -> Option<Json> {
    match v {
        Some(x) => Some(x@),
        None => None,
    }
}

// ─── Entries ─────────────────────────────────────────────────

/// What an object holds under a key.
pub open spec fn find(o: Fields, key: Seq<char>) -> Option<Json>
    decreases o.len(),
{
    if o.len() == 0 {
        None
    } else if o.last().0 == key {
        Some(o.last().1)
    } else {
        find(o.drop_last(), key)
    }
}

/// The entry that counts for `key` holds `value`; all others stay.
pub open spec fn replace(o: Fields, key: Seq<char>, value: Json) -> Fields
    decreases o.len(),
{
    if o.len() == 0 {
        o
    } else if o.last().0 == key {
        o.drop_last().push((key, value))
    } else {
        replace(o.drop_last(), key, value).push(o.last())
    }
}

/// Sets a key: in its place where the object has it, at the end where it has not.
pub open spec fn put(o: Fields, key: Seq<char>, value: Json) -> Fields {
    if find(o, key) is Some {
        replace(o, key, value)
    } else {
        o.push((key, value))
    }
}

/// Takes a key away.
pub open spec fn without(o: Fields, key: Seq<char>) -> Fields
    decreases o.len(),
{
    if o.len() == 0 {
        o
    } else if o.last().0 == key {
        without(o.drop_last(), key)
    } else {
        without(o.drop_last(), key).push(o.last())
    }
}

/// What a value holds under a key: nothing, where it is no object.
pub open spec fn field(v: Json, key: Seq<char>) -> Option<Json> {
    match v {
        Json::Obj(o) => find(o, key),
        _ => None,
    }
}

/// Setting a key changes what is found under that key and under no other.
pub broadcast proof fn find_of_put(o: Fields, key: Seq<char>, value: Json, other: Seq<char>)
    ensures
        #[trigger] find(put(o, key, value), other) == if other == key {
            Some(value)
        } else {
            find(o, other)
        },
{
    if find(o, key) is Some {
        lemma_find_of_replace(o, key, value, other);
    } else {
        assert(o.push((key, value)).drop_last() =~= o);
    }
}

proof fn lemma_find_of_replace(o: Fields, key: Seq<char>, value: Json, other: Seq<char>)
    requires
        find(o, key) is Some,
    ensures
        find(replace(o, key, value), other) == if other == key {
            Some(value)
        } else {
            find(o, other)
        },
    decreases o.len(),
{
    if o.last().0 == key {
        assert(o.drop_last().push((key, value)).drop_last() =~= o.drop_last());
    } else {
        lemma_find_of_replace(o.drop_last(), key, value, other);
        assert(replace(o.drop_last(), key, value).push(o.last()).drop_last() =~= replace(
            o.drop_last(),
            key,
            value,
        ));
    }
}

/// Taking a key away leaves nothing under it and all else as it was.
pub broadcast proof fn find_of_without(o: Fields, key: Seq<char>, other: Seq<char>)
    ensures
        #[trigger] find(without(o, key), other) == if other == key {
            None
        } else {
            find(o, other)
        },
    decreases o.len(),
{
    if o.len() > 0 {
        find_of_without(o.drop_last(), key, other);
        if o.last().0 != key {
            assert(without(o.drop_last(), key).push(o.last()).drop_last() =~= without(
                o.drop_last(),
                key,
            ));
        }
    }
}

pub proof fn lemma_find_at(o: Fields, key: Seq<char>, at: int)
    requires
        0 <= at < o.len(),
        o[at].0 == key,
        forall|k: int| at < k < o.len() ==> (#[trigger] o[k]).0 != key,
    ensures
        find(o, key) == Some(o[at].1),
        forall|value: Json| #[trigger] replace(o, key, value) == o.update(at, (key, value)),
    decreases o.len(),
{
    if at == o.len() - 1 {
        assert forall|value: Json| #[trigger]
            replace(o, key, value) == o.update(at, (key, value)) by {
            assert(o.drop_last().push((key, value)) =~= o.update(at, (key, value)));
        }
    } else {
        lemma_find_at(o.drop_last(), key, at);
        assert forall|value: Json| #[trigger]
            replace(o, key, value) == o.update(at, (key, value)) by {
            assert(replace(o.drop_last(), key, value) == o.drop_last().update(at, (key, value)));
            assert(o.drop_last().update(at, (key, value)).push(o.last()) =~= o.update(
                at,
                (key, value),
            ));
        }
    }
}

pub proof fn lemma_find_none(o: Fields, key: Seq<char>)
    requires
        forall|k: int| 0 <= k < o.len() ==> (#[trigger] o[k]).0 != key,
    ensures
        find(o, key) is None,
    decreases o.len(),
{
    if o.len() > 0 {
        lemma_find_none(o.drop_last(), key);
    }
}

proof fn lemma_without_push(o: Fields, n: int, key: Seq<char>)
    requires
        0 <= n < o.len(),
    ensures
        without(o.take(n + 1), key) == if o[n].0 == key {
            without(o.take(n), key)
        } else {
            without(o.take(n), key).push(o[n])
        },
{
    assert(o.take(n + 1).drop_last() =~= o.take(n));
}

/// An object with one more entry at its end.
pub proof fn lemma_object_push(before: Object, after: Object)
    requires
        after.entries@.len() == before.entries@.len() + 1,
        after.entries@.drop_last() == before.entries@,
    ensures
        after@ == before@.push((after.entries@.last().0@, after.entries@.last().1@)),
{
    assert forall|i: int| 0 <= i < before.entries@.len() implies after.entries@[i]
        == #[trigger] before.entries@[i] by {
        assert(after.entries@.drop_last()[i] == before.entries@[i]);
    }
    assert(after@ =~= before@.push((after.entries@.last().0@, after.entries@.last().1@)));
}

impl Object {
    pub fn new() -> (out: Object)
        ensures
            out@ == Seq::<(Seq<char>, Json)>::empty(),
    {
        let out = Object { entries: Vec::new() };
        assert(out@ =~= Seq::<(Seq<char>, Json)>::empty());
        out
    }

    pub fn len(&self) -> (n: usize)
        ensures
            n == self@.len(),
    {
        self.entries.len()
    }

    fn position(&self, key: &str) -> (at: Option<usize>)
        ensures
            match at {
                Some(i) => i < self.entries@.len() && self.entries@[i as int].0@ == key@ && find(
                    self@,
                    key@,
                ) == Some(self.entries@[i as int].1@) && forall|value: Json| #[trigger]
                    replace(self@, key@, value) == self@.update(i as int, (key@, value)),
                None => find(self@, key@) is None,
            },
    {
        let mut i: usize = self.entries.len();
        while i > 0
            invariant
                i <= self.entries@.len(),
                forall|k: int| i <= k < self.entries@.len() ==> (#[trigger] self.entries@[k]).0@ != key@,
            decreases i,
        {
            if same(self.entries[i - 1].0.as_str(), key) {
                proof {
                    assert forall|k: int| i - 1 < k < self@.len() implies (#[trigger] self@[k]).0
                        != key@ by {
                        assert(self.entries@[k].0@ != key@);
                    }
                    lemma_find_at(self@, key@, i - 1);
                }
                return Some(i - 1);
            }
            i = i - 1;
        }
        proof {
            assert forall|k: int| 0 <= k < self@.len() implies (#[trigger] self@[k]).0 != key@ by {
                assert(self.entries@[k].0@ != key@);
            }
            lemma_find_none(self@, key@);
        }
        None
    }

    /// What stands under `key`.
    pub fn get(&self, key: &str) -> (r: Option<&JsonValue>)
        ensures
            seen(r) == find(self@, key@),
    {
        match self.position(key) {
            Some(i) => Some(&self.entries[i].1),
            None => None,
        }
    }

    /// Sets `key`.
    pub fn insert(&mut self, key: &str, value: JsonValue)
        ensures
            final(self)@ == put(old(self)@, key@, value@),
    {
        let ghost before = *self;
        match self.position(key) {
            Some(i) => {
                self.entries.set(i, (key.to_owned(), value));
                assert(self@ =~= before@.update(i as int, (key@, value@)));
            },
            None => {
                self.entries.push((key.to_owned(), value));
                assert(self.entries@.drop_last() =~= before.entries@);
                proof {
                    lemma_object_push(before, *self);
                }
            },
        }
    }

    /// Adds an entry at the end.
    pub fn push(&mut self, key: &str, value: JsonValue)
        ensures
            final(self)@ == old(self)@.push((key@, value@)),
    {
        let ghost before = *self;
        self.entries.push((key.to_owned(), value));
        assert(self.entries@.drop_last() =~= before.entries@);
        proof {
            lemma_object_push(before, *self);
        }
    }

    /// Takes `key` away.
    pub fn remove(&mut self, key: &str)
        ensures
            final(self)@ == without(old(self)@, key@),
    {
        let mut kept = Object::new();
        for i in 0..self.entries.len()
            invariant
                kept@ == without(self@.take(i as int), key@),
        {
            proof {
                lemma_without_push(self@, i as int, key@);
            }
            if !same(self.entries[i].0.as_str(), key) {
                kept.push(self.entries[i].0.as_str(), self.entries[i].1.dup());
            }
        }
        assert(self@.take(self@.len() as int) =~= self@);
        *self = kept;
    }

    /// The same entries again.
    pub fn dup(&self) -> (out: Object)
        ensures
            out@ == self@,
        decreases self,
    {
        let mut entries: Vec<(String, JsonValue)> = Vec::new();
        for i in 0..self.entries.len()
            invariant
                entries@.len() == i,
                forall|k: int|
                    0 <= k < i ==> (#[trigger] entries@[k]).0@ == self.entries@[k].0@ && value_view(
                        entries@[k].1,
                    ) == value_view(self.entries@[k].1),
        {
            entries.push((self.entries[i].0.clone(), self.entries[i].1.dup()));
        }
        let out = Object { entries };
        assert(out@ =~= self@);
        out
    }

    /// Whether two objects hold the same entries in the same order.
    pub fn same(&self, other: &Object) -> (r: bool)
        ensures
            r == (self@ == other@),
        decreases self,
    {
        if self.entries.len() != other.entries.len() {
            assert(self@.len() != other@.len());
            return false;
        }
        for i in 0..self.entries.len()
            invariant
                self.entries@.len() == other.entries@.len(),
                forall|k: int| 0 <= k < i ==> #[trigger] self@[k] == other@[k],
        {
            if !same(self.entries[i].0.as_str(), other.entries[i].0.as_str())
                || !self.entries[i].1.same(&other.entries[i].1) {
                assert(self@[i as int] != other@[i as int]);
                return false;
            }
            assert(self@[i as int] == other@[i as int]);
        }
        assert(self@ =~= other@);
        true
    }
}

// ─── Values ──────────────────────────────────────────────────

/// The same values again.
pub fn dup_list(items: &Vec<JsonValue>) -> (out: Vec<JsonValue>)
    ensures
        list_view(out) == list_view(*items),
    decreases items,
{
    let mut out: Vec<JsonValue> = Vec::new();
    for i in 0..items.len()
        invariant
            out@.len() == i,
            forall|k: int| 0 <= k < i ==> value_view(#[trigger] out@[k]) == value_view(items@[k]),
    {
        out.push(items[i].dup());
    }
    assert(list_view(out) =~= list_view(*items));
    out
}

/// Whether two lists hold the same values.
pub fn same_list(a: &Vec<JsonValue>, b: &Vec<JsonValue>) -> (r: bool)
    ensures
        r == (list_view(*a) == list_view(*b)),
    decreases a,
{
    if a.len() != b.len() {
        assert(list_view(*a).len() != list_view(*b).len());
        return false;
    }
    for i in 0..a.len()
        invariant
            a@.len() == b@.len(),
            forall|k: int| 0 <= k < i ==> #[trigger] list_view(*a)[k] == list_view(*b)[k],
    {
        if !a[i].same(&b[i]) {
            assert(list_view(*a)[i as int] != list_view(*b)[i as int]);
            return false;
        }
        assert(list_view(*a)[i as int] == list_view(*b)[i as int]);
    }
    assert(list_view(*a) =~= list_view(*b));
    true
}

/// Adding a value at the end of a list.
pub proof fn lemma_list_push(before: Vec<JsonValue>, after: Vec<JsonValue>)
    requires
        after@.len() == before@.len() + 1,
        after@.drop_last() == before@,
    ensures
        list_view(after) == list_view(before).push(after@.last()@),
{
    assert forall|i: int| 0 <= i < before@.len() implies after@[i] == #[trigger] before@[i] by {
        assert(after@.drop_last()[i] == before@[i]);
    }
    assert(list_view(after) =~= list_view(before).push(after@.last()@));
}

/// Adds a value at the end of a list.
pub fn push_value(items: &mut Vec<JsonValue>, value: JsonValue)
    ensures
        list_view(*final(items)) == list_view(*old(items)).push(value@),
        final(items)@ == old(items)@.push(value),
{
    let ghost before = *items;
    items.push(value);
    assert(items@.drop_last() =~= before@);
    proof {
        lemma_list_push(before, *items);
    }
}

/// The text of an optional value: empty where it is no text.
pub open spec fn text_or_empty(v: Option<Json>) -> Seq<char> {
    match v {
        Some(Json::Str(s)) => s,
        _ => Seq::empty(),
    }
}

/// A text, where the value is one.
pub open spec fn str_of(v: Option<Json>) -> Option<Seq<char>> {
    match v {
        Some(Json::Str(s)) => Some(s),
        _ => None,
    }
}

/// The plain value of an optional text.
pub open spec fn text_seen(v: Option<&str>) -> Option<Seq<char>> {
    match v {
        Some(s) => Some(s@),
        None => None,
    }
}

/// The plain value of an optional owned text.
pub open spec fn text_view(v: Option<String>) -> Option<Seq<char>> {
    match v {
        Some(s) => Some(s@),
        None => None,
    }
}

/// The JSON value of an integer.
pub open spec fn json_int(n: int) -> Json {
    Json::Num(int_number(n))
}

impl JsonValue {
    /// The same value again.
    pub fn dup(&self) -> (out: JsonValue)
        ensures
            out@ == self@,
        decreases self,
    {
        match self {
            JsonValue::Null => JsonValue::Null,
            JsonValue::Bool(b) => JsonValue::Bool(*b),
            JsonValue::Num(n) => JsonValue::Num(n.dup()),
            JsonValue::Str(s) => JsonValue::Str(s.clone()),
            JsonValue::Arr(items) => JsonValue::Arr(dup_list(items)),
            JsonValue::Obj(o) => JsonValue::Obj(o.dup()),
        }
    }

    /// Whether two values are the same, the order of entries taken into account.
    pub fn same(&self, other: &JsonValue) -> (r: bool)
        ensures
            r == (self@ == other@),
        decreases self,
    {
        match (self, other) {
            (JsonValue::Null, JsonValue::Null) => true,
            (JsonValue::Bool(a), JsonValue::Bool(b)) => *a == *b,
            (JsonValue::Num(a), JsonValue::Num(b)) => a.same(b),
            (JsonValue::Str(a), JsonValue::Str(b)) => same(a.as_str(), b.as_str()),
            (JsonValue::Arr(a), JsonValue::Arr(b)) => same_list(a, b),
            (JsonValue::Obj(a), JsonValue::Obj(b)) => a.same(b),
            _ => false,
        }
    }

    /// The text value of `text`.
    pub fn text(text: &str) -> (out: JsonValue)
        ensures
            out@ == Json::Str(text@),
    {
        JsonValue::Str(text.to_owned())
    }

    /// The number value of `n`.
    pub fn integer(n: i64) -> (out: JsonValue)
        ensures
            out@ == json_int(n as int),
    {
        JsonValue::Num(Number::from_i64(n))
    }

    /// The number value of a natural number.
    pub fn natural(n: u64) -> (out: JsonValue)
        ensures
            out@ == json_int(n as int),
    {
        JsonValue::Num(Number::PosInt(n))
    }

    /// What stands under `key`, where the value is an object.
    pub fn get(&self, key: &str) -> (r: Option<&JsonValue>)
        ensures
            seen(r) == field(self@, key@),
    {
        match self {
            JsonValue::Obj(o) => o.get(key),
            _ => None,
        }
    }

    pub fn as_str(&self) -> (r: Option<&str>)
        ensures
            text_seen(r) == str_of(Some(self@)),
    {
        match self {
            JsonValue::Str(s) => Some(s.as_str()),
            _ => None,
        }
    }

    pub fn as_i64(&self) -> (r: Option<i64>)
        ensures
            r == match self@ {
                Json::Num(n) => number_as_i64(n),
                _ => None,
            },
    {
        match self {
            JsonValue::Num(n) => n.as_i64(),
            _ => None,
        }
    }

    pub fn is_null(&self) -> (r: bool)
        ensures
            r == (self@ == Json::Null),
    {
        match self {
            JsonValue::Null => true,
            _ => false,
        }
    }
}

/// [`text_or_empty`].
pub fn text_in(v: Option<&JsonValue>) -> (out: String)
    ensures
        out@ == text_or_empty(seen(v)),
{
    match v {
        Some(JsonValue::Str(s)) => s.clone(),
        _ => {
            let out = String::new();
            assert(out@ =~= Seq::empty());
            out
        },
    }
}

/// A copy of what is there, or null.
pub fn dup_or_null(v: Option<&JsonValue>) -> (out: JsonValue)
    ensures
        out@ == or_null(seen(v)),
{
    match v {
        Some(x) => x.dup(),
        None => JsonValue::Null,
    }
}

/// What is there, or null.
pub open spec fn or_null(v: Option<Json>) -> Json {
    match v {
        Some(x) => x,
        None => Json::Null,
    }
}

// ─── Outside calls ───────────────────────────────────────────

/// The JSON value that a text denotes, or why it denotes none, as `serde_json` reads it.
pub uninterp spec fn json_of_text(text: Seq<char>) -> Result<Json, Seq<char>>;

/// The compact JSON text of a value, as `serde_json` writes it.
pub uninterp spec fn text_of_json(value: Json) -> Seq<char>;

/// The finite double that a text denotes, with its shortest decimal text.
pub uninterp spec fn double_of_text(text: Seq<char>) -> Option<(u64, Seq<char>)>;

/// The indented JSON text of a value, as `serde_json` writes it.
pub uninterp spec fn pretty_text_of_json(value: Json) -> Seq<char>;

/// How deep lists and objects can be nested in a text that is read.
pub const DEEPEST: u8 = 127;

/// A number in the form in which it is read: a negative integer is below zero, and a double has
/// its shortest text.
pub open spec fn as_read(n: NumberView) -> bool {
    match n {
        NumberView::PosInt(_) => true,
        NumberView::NegInt(k) => k < 0,
        NumberView::Float(bits, text) => double_of_text(text) == Some((bits, text)),
    }
}

/// A value that a text can give: with numbers in the form in which they are read, no key twice in
/// an object, and at most `depth` lists and objects inside each other.
pub open spec fn readable(v: Json, depth: nat) -> bool
    decreases v,
{
    match v {
        Json::Num(n) => as_read(n),
        Json::Arr(items) => depth > 0 && forall|i: int|
            0 <= i < items.len() ==> readable(#[trigger] items[i], (depth - 1) as nat),
        Json::Obj(o) => depth > 0 && (forall|i: int|
            0 <= i < o.len() ==> readable((#[trigger] o[i]).1, (depth - 1) as nat)) && (forall|
            i: int,
            j: int,
        |
            0 <= i < j < o.len() ==> (#[trigger] o[i]).0 != (#[trigger] o[j]).0),
        _ => true,
    }
}

/// A text without a line break.
pub open spec fn one_line(text: Seq<char>) -> bool {
    forall|i: int| 0 <= i < text.len() ==> #[trigger] text[i] != '\n'
}

/// A text between braces.
pub open spec fn in_braces(text: Seq<char>) -> bool {
    text.len() >= 2 && text[0] == '{' && text.last() == '}'
}

/// A text denotes a value.
pub open spec fn gives(text: Seq<char>, value: Json) -> bool {
    json_of_text(text) == Ok::<Json, Seq<char>>(value)
}

/// `serde_json`'s own value type.
#[verifier::external_type_specification]
#[verifier::external_body]
pub struct ExValue(serde_json::Value);

/// The library's form of the number in a `serde_json::Value`, by the kind of number it is.
#[verifier::external_body]
fn number_from_outside(n: &serde_json::Value) -> (out: Number)
{
    match (n.as_u64(), n.as_i64(), n.as_f64()) {
        (Some(k), _, _) => Number::PosInt(k),
        (_, Some(k), _) => Number::NegInt(k),
        (_, _, x) => Number::Float(
            Double { bits: x.unwrap_or_default().to_bits(), text: n.to_string() },
        ),
    }
}

/// The library's form of a `serde_json::Value`, variant by variant.
#[verifier::external_body]
fn from_outside(value: serde_json::Value) -> (out: JsonValue)
{
    match value {
        serde_json::Value::Null => JsonValue::Null,
        serde_json::Value::Bool(b) => JsonValue::Bool(b),
        serde_json::Value::Number(_) => JsonValue::Num(number_from_outside(&value)),
        serde_json::Value::String(s) => JsonValue::Str(s),
        serde_json::Value::Array(items) => JsonValue::Arr(items.into_iter().map(from_outside).collect()),
        serde_json::Value::Object(o) => JsonValue::Obj(
            Object { entries: o.into_iter().map(|e| (e.0, from_outside(e.1))).collect() },
        ),
    }
}

/// `serde_json::from_str` into a JSON value: the result is a function of the text alone, and has the
/// form that such a text can give.
#[verifier::external_body]
pub(crate) fn parse_json(text: &str) -> (r: Result<JsonValue, String>)
    ensures
        match r {
            Ok(v) => gives(text@, v@) && readable(v@, DEEPEST as nat),
            Err(e) => json_of_text(text@) == Err::<Json, Seq<char>>(e@),
        },
{
    match serde_json::from_str::<serde_json::Value>(text) {
        Ok(v) => Ok(from_outside(v)),
        Err(e) => Err(e.to_string()),
    }
}

/// The `serde_json::Value` of a number, by the kind of number it is.
#[verifier::external_body]
fn number_to_outside(n: &Number) -> (out: serde_json::Value)
{
    match n {
        Number::PosInt(k) => serde_json::Value::from(*k),
        Number::NegInt(k) => serde_json::Value::from(*k),
        Number::Float(d) => d.text.parse().map(serde_json::Value::Number).unwrap_or_default(),
    }
}

/// The `serde_json::Value` of a value, variant by variant.
#[verifier::external_body]
fn to_outside(value: &JsonValue) -> (out: serde_json::Value)
{
    match value {
        JsonValue::Null => serde_json::Value::Null,
        JsonValue::Bool(b) => serde_json::Value::Bool(*b),
        JsonValue::Num(n) => number_to_outside(n),
        JsonValue::Str(s) => serde_json::Value::String(s.clone()),
        JsonValue::Arr(items) => serde_json::Value::Array(items.iter().map(to_outside).collect()),
        JsonValue::Obj(o) => serde_json::Value::Object(
            o.entries.iter().map(|e| (e.0.clone(), to_outside(&e.1))).collect(),
        ),
    }
}

/// `serde_json::Value`'s `to_string`: the result is a function of the value alone, it is a single
/// line, that of an object stands in braces, and a value that a text can give is read back from it.
#[verifier::external_body]
pub(crate) fn render_json(value: &JsonValue) -> (out: String)
    ensures
        out@ == text_of_json(value@),
        one_line(out@),
        value@ is Obj ==> in_braces(out@),
        readable(value@, DEEPEST as nat) ==> gives(out@, value@),
{
    to_outside(value).to_string()
}

/// `serde_json::Value`'s alternate form, which is what `serde_json::to_string_pretty` writes: the
/// result is a function of the value alone, and a value that a text can give is read back from it.
#[verifier::external_body]
pub(crate) fn render_json_pretty(value: &JsonValue) -> (out: String)
    ensures
        out@ == pretty_text_of_json(value@),
        readable(value@, DEEPEST as nat) ==> gives(out@, value@),
{
    format!("{:#}", to_outside(value))
}

impl JsonValue {
    /// The value that a text denotes, or why it denotes none.
    pub fn from_text(text: &str) -> (r: Result<JsonValue, String>)
        ensures
            match r {
                Ok(v) => gives(text@, v@) && readable(v@, DEEPEST as nat),
                Err(e) => json_of_text(text@) == Err::<Json, Seq<char>>(e@),
            },
    {
        parse_json(text)
    }

    /// The text of the value, from which it is read back, where it has a form that a text can give.
    pub fn to_text(&self) -> (out: String)
        ensures
            out@ == text_of_json(self@),
            readable(self@, DEEPEST as nat) ==> gives(out@, self@),
    {
        render_json(self)
    }
}

/// `str::parse` to a double, kept where `serde_json::Number::from_f64` takes it, that is where it
/// is finite: the result is a function of the text alone, and comes with the shortest text that
/// denotes it.
#[verifier::external_body]
pub(crate) fn parse_double(text: &str) -> (r: Option<Double>)
    ensures
        match r {
            Some(d) => double_of_text(text@) == Some((d.bits, d.text@)) && finite(d.bits)
                && as_read(NumberView::Float(d.bits, d.text@)),
            None => double_of_text(text@) is None,
        },
{
    let number = text.parse().ok().and_then(serde_json::Number::from_f64)?;
    Some(Double { bits: number.as_f64()?.to_bits(), text: number.to_string() })
}

/// The number that a value is read as: its own, or the one that its text denotes.
pub open spec fn number_of(v: Option<Json>) -> Option<NumberView> {
    match v {
        Some(Json::Num(n)) => Some(n),
        Some(Json::Str(s)) => match double_of_text(trimmed(s)) {
            Some(d) => Some(NumberView::Float(d.0, d.1)),
            None => None,
        },
        _ => None,
    }
}

/// The plain value of an optional number.
pub open spec fn number_view(n: Option<Number>) -> Option<NumberView> {
    match n {
        Some(x) => Some(x@),
        None => None,
    }
}

/// [`number_of`].
pub fn read_number(v: Option<&JsonValue>) -> (r: Option<Number>)
    ensures
        number_view(r) == number_of(seen(v)),
{
    match v {
        Some(JsonValue::Num(n)) => Some(n.dup()),
        Some(JsonValue::Str(s)) => match parse_double(trim(s.as_str()).as_str()) {
            Some(d) => Some(Number::Float(d)),
            None => None,
        },
        _ => None,
    }
}

} // verus!
