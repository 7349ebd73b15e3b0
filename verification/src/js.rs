//! Loose reading of JSON values: what counts as true, `x || y`, `x ?? y`, `String(x)`, `Number(x)`.
use vstd::prelude::*;
use crate::json::{
    double_of_text, find, json_int, number_of, parse_double, read_number, render_json, seen,
    text_of_json, text_view, Fields, Json, JsonValue, Object,
};
use crate::number::{
    double_to_i64, integral, parts_of_double, significand, whole, Number, NumberView, EXACT_BELOW,
};
use crate::text::{decimal, decimal_i64, decimal_u64, last_chars, tail};

verus! {

/// The number is not zero.
pub open spec fn number_nonzero(n: NumberView) -> bool {
    match n {
        NumberView::PosInt(k) => k != 0,
        NumberView::NegInt(k) => k != 0,
        NumberView::Float(bits, _) => significand(bits) != 0,
    }
}

/// The value counts as true.
pub open spec fn truthy(v: Json) -> bool {
    match v {
        Json::Null => false,
        Json::Bool(b) => b,
        Json::Num(n) => number_nonzero(n),
        Json::Str(s) => s.len() > 0,
        _ => true,
    }
}

/// `v || fallback`.
pub open spec fn or_falsy(v: Option<Json>, fallback: Json) -> Json {
    match v {
        Some(x) => if truthy(x) {
            x
        } else {
            fallback
        },
        None => fallback,
    }
}

/// `v ?? fallback`.
pub open spec fn or_nullish(v: Option<Json>, fallback: Json) -> Json {
    match v {
        Some(Json::Null) => fallback,
        Some(x) => x,
        None => fallback,
    }
}

/// `String(v)`: a text as it is, any other value as its JSON text.
pub open spec fn js_text(v: Json) -> Seq<char> {
    match v {
        Json::Str(s) => s,
        _ => text_of_json(v),
    }
}

/// A text that is not empty.
pub open spec fn filled_text(v: Option<Json>) -> Option<Seq<char>> {
    match v {
        Some(Json::Str(s)) => if s.len() > 0 {
            Some(s)
        } else {
            None
        },
        _ => None,
    }
}

/// The first that is there.
pub open spec fn either<T>(a: Option<T>, b: Option<T>) -> Option<T> {
    match a {
        Some(_) => a,
        None => b,
    }
}

/// The entries of an object; none where the value is no object.
pub open spec fn fields_of(v: Option<Json>) -> Fields {
    match v {
        Some(Json::Obj(o)) => o,
        _ => Seq::empty(),
    }
}

/// A number as JSON, integers without a fraction where a double holds them exactly.
pub open spec fn plain_number(n: NumberView) -> Json {
    match n {
        NumberView::PosInt(k) => if k < EXACT_BELOW {
            Json::Num(n)
        } else {
            wide_number(k as int)
        },
        NumberView::NegInt(k) => if -(EXACT_BELOW as int) < k {
            json_int(k as int)
        } else {
            wide_number(k as int)
        },
        NumberView::Float(bits, _) => if integral(bits) && whole(bits) < EXACT_BELOW {
            json_int(double_to_i64(bits))
        } else {
            Json::Num(n)
        },
    }
}

/// A number in the form of a double, whatever form it has.
pub open spec fn double_number(n: NumberView) -> Json {
    match n {
        NumberView::PosInt(k) => wide_number(k as int),
        NumberView::NegInt(k) => wide_number(k as int),
        NumberView::Float(_, _) => Json::Num(n),
    }
}

/// An integer as the double nearest to it.
pub open spec fn wide_number(n: int) -> Json {
    match double_of_text(decimal(n)) {
        Some(d) => Json::Num(NumberView::Float(d.0, d.1)),
        None => Json::Null,
    }
}

/// `Number(v) || fallback`.
pub open spec fn number_or_else(v: Option<Json>, fallback: Json) -> Json {
    match number_of(v) {
        Some(n) => if number_nonzero(n) {
            plain_number(n)
        } else {
            fallback
        },
        None => fallback,
    }
}

/// Decides [`number_nonzero`].
pub fn is_nonzero(n: &Number) -> (r: bool)
    ensures
        r == number_nonzero(n@),
{
    match n {
        Number::PosInt(k) => *k != 0,
        Number::NegInt(k) => *k != 0,
        Number::Float(d) => parts_of_double(d.bits).0 != 0,
    }
}

/// Decides [`truthy`].
pub fn js_truthy(v: &JsonValue) -> (r: bool)
    ensures
        r == truthy(v@),
{
    match v {
        JsonValue::Null => false,
        JsonValue::Bool(b) => *b,
        JsonValue::Num(n) => is_nonzero(n),
        JsonValue::Str(s) => !s.as_str().is_empty(),
        _ => true,
    }
}

/// [`or_falsy`].
pub fn value_or(v: Option<&JsonValue>, fallback: JsonValue) -> (out: JsonValue)
    ensures
        out@ == or_falsy(seen(v), fallback@),
{
    match v {
        Some(x) => if js_truthy(x) {
            x.dup()
        } else {
            fallback
        },
        None => fallback,
    }
}

/// [`or_nullish`].
pub fn value_or_nullish(v: Option<&JsonValue>, fallback: JsonValue) -> (out: JsonValue)
    ensures
        out@ == or_nullish(seen(v), fallback@),
{
    match v {
        Some(x) => if x.is_null() {
            fallback
        } else {
            x.dup()
        },
        None => fallback,
    }
}

/// [`js_text`].
pub fn js_string(v: &JsonValue) -> (out: String)
    ensures
        out@ == js_text(v@),
{
    match v {
        JsonValue::Str(s) => s.clone(),
        _ => render_json(v),
    }
}

/// [`filled_text`].
pub fn optional_text(v: Option<&JsonValue>) -> (r: Option<String>)
    ensures
        text_view(r) == filled_text(seen(v)),
{
    match v {
        Some(JsonValue::Str(s)) => if s.as_str().is_empty() {
            None
        } else {
            Some(s.clone())
        },
        _ => None,
    }
}

/// [`fields_of`].
pub fn object_or_empty(v: Option<&JsonValue>) -> (out: Object)
    ensures
        out@ == fields_of(seen(v)),
{
    match v {
        Some(JsonValue::Obj(o)) => o.dup(),
        _ => Object::new(),
    }
}

fn wide_value(numeral: &str) -> (out: JsonValue)
    ensures
        out@ == match double_of_text(numeral@) {
            Some(d) => Json::Num(NumberView::Float(d.0, d.1)),
            None => Json::Null,
        },
{
    match parse_double(numeral) {
        Some(d) => JsonValue::Num(Number::Float(d)),
        None => JsonValue::Null,
    }
}

/// [`plain_number`].
pub fn json_number(n: &Number) -> (out: JsonValue)
    ensures
        out@ == plain_number(n@),
{
    match n {
        Number::PosInt(k) => if *k < EXACT_BELOW {
            JsonValue::Num(n.dup())
        } else {
            wide_value(decimal_u64(*k).as_str())
        },
        Number::NegInt(k) => if -(EXACT_BELOW as i64) < *k {
            JsonValue::integer(*k)
        } else {
            wide_value(decimal_i64(*k).as_str())
        },
        Number::Float(d) => {
            let (_m, is_integral, small) = parts_of_double(d.bits);
            if is_integral && small {
                JsonValue::integer(n.to_i64())
            } else {
                JsonValue::Num(n.dup())
            }
        },
    }
}

/// [`double_number`].
pub fn double_value(n: &Number) -> (out: JsonValue)
    ensures
        out@ == double_number(n@),
{
    match n {
        Number::PosInt(k) => wide_value(decimal_u64(*k).as_str()),
        Number::NegInt(k) => wide_value(decimal_i64(*k).as_str()),
        Number::Float(_) => JsonValue::Num(n.dup()),
    }
}

/// [`number_or_else`].
pub fn number_or(v: Option<&JsonValue>, fallback: JsonValue) -> (out: JsonValue)
    ensures
        out@ == number_or_else(seen(v), fallback@),
{
    match read_number(v) {
        Some(n) => if is_nonzero(&n) {
            json_number(&n)
        } else {
            fallback
        },
        None => fallback,
    }
}

/// The first key under which `a` holds a filled text, else the first under which `b` does.
pub open spec fn first_token(a: Fields, b: Fields, keys: Seq<Seq<char>>) -> Seq<char> {
    match either(first_filled(a, keys), first_filled(b, keys)) {
        Some(s) => s,
        None => Seq::empty(),
    }
}

/// The filled text under the first of `keys` that has one.
pub open spec fn first_filled(o: Fields, keys: Seq<Seq<char>>) -> Option<Seq<char>>
    decreases keys.len(),
{
    if keys.len() == 0 {
        None
    } else {
        either(filled_text(find(o, keys[0])), first_filled(o, keys.drop_first()))
    }
}

/// The plain values of a list of texts.
pub open spec fn texts(items: Seq<&str>) -> Seq<Seq<char>> {
    items.map_values(|s: &str| s@)
}

fn filled_under(o: &Object, keys: &Vec<&str>) -> (r: Option<String>)
    ensures
        text_view(r) == first_filled(o@, texts(keys@)),
{
    let ghost names = texts(keys@);
    assert(names.skip(0) =~= names);
    for i in 0..keys.len()
        invariant
            names == texts(keys@),
            first_filled(o@, names) == first_filled(o@, names.skip(i as int)),
    {
        let hit = optional_text(o.get(keys[i]));
        assert(names.skip(i as int)[0] == keys@[i as int]@);
        assert(names.skip(i as int).drop_first() =~= names.skip(i + 1));
        if hit.is_some() {
            return hit;
        }
    }
    None
}

/// [`first_token`].
pub fn pick_token(a: &Object, b: &Object, keys: &Vec<&str>) -> (out: String)
    ensures
        out@ == first_token(a@, b@, texts(keys@)),
{
    match filled_under(a, keys) {
        Some(s) => s,
        None => match filled_under(b, keys) {
            Some(s) => s,
            None => {
                let out = String::new();
                assert(out@ =~= Seq::empty());
                out
            },
        },
    }
}

/// The last four characters of a token.
pub fn token_tail_of(token: &str) -> (out: String)
    ensures
        out@ == tail(token@, 4),
{
    last_chars(token, 4)
}

} // verus!
