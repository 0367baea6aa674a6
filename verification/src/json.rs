//! JSON values of `serde_json`, and what is known of the calls that make them.

use vstd::prelude::*;

use crate::number;

verus! {

/// `serde_json::Number`, carried as it is.
#[verifier::external_type_specification]
#[verifier::external_body]
pub struct ExNumber(serde_json::Number);

/// `serde_json::Value`, a tree of JSON values.
#[verifier::external_type_specification]
#[verifier::external_body]
pub struct ExValue(serde_json::Value);

/// `serde_json::Error`, carried as it is.
#[verifier::external_type_specification]
#[verifier::external_body]
pub struct ExError(serde_json::Error);

/// What a JSON value holds. A number is held as its text.
pub ghost enum Json {
    Null,
    Bool(bool),
    Num(Seq<char>),
    Text(Seq<char>),
    Array(Seq<Json>),
    Object(Map<Seq<char>, Json>),
}

/// The text of a JSON number, as its `Display` writes it.
pub uninterp spec fn number_text(n: serde_json::Number) -> Seq<char>;

/// What a `serde_json::Value` holds.
pub uninterp spec fn json_of(v: serde_json::Value) -> Json;

/// The compact JSON text of a value.
pub uninterp spec fn json_text(j: Json) -> Seq<char>;

/// What a JSON text stands for, or `None` if it is no JSON text.
pub uninterp spec fn json_parse(text: Seq<char>) -> Option<Json>;

/// What each value of a row holds.
pub open spec fn items_of(s: Seq<serde_json::Value>) -> Seq<Json> {
    s.map_values(|v: serde_json::Value| json_of(v))
}

/// The JSON number that stands for an integer.
pub open spec fn int_json(n: int) -> Json {
    Json::Num(number::signed_decimal(n))
}

/// Whether every number in a value is an integer of 64 bits, and arrays and
/// objects nest at most `depth` deep.
pub open spec fn integral_within(j: Json, depth: nat) -> bool
    decreases depth,
{
    match j {
        Json::Null | Json::Bool(_) | Json::Text(_) => true,
        Json::Num(t) => exists|n: i64| t == #[trigger] number::signed_decimal(n as int),
        Json::Array(s) => depth > 0 && forall|i: int|
            0 <= i < s.len() ==> #[trigger] integral_within(s[i], (depth - 1) as nat),
        Json::Object(m) => depth > 0 && forall|k: Seq<char>|
            m.dom().contains(k) ==> #[trigger] integral_within(m[k], (depth - 1) as nat),
    }
}

/// `Number::clone` gives a number with the same text.
pub assume_specification [ <serde_json::Number as Clone>::clone ](n: &serde_json::Number) -> (r:
    serde_json::Number)
    ensures
        number_text(r) == number_text(*n),
;

/// `Value::Null` is the null of JSON.
#[verifier::external_body]
pub(crate) fn null_value() -> (v: serde_json::Value)
    ensures
        json_of(v) == Json::Null,
{
    serde_json::Value::Null
}

/// `Value::Bool` holds the given truth value.
#[verifier::external_body]
pub(crate) fn bool_value(b: bool) -> (v: serde_json::Value)
    ensures
        json_of(v) == Json::Bool(b),
{
    serde_json::Value::Bool(b)
}

/// `Value::from` of an `i64` holds the integer's decimal text.
#[verifier::external_body]
pub(crate) fn int_value(n: i64) -> (v: serde_json::Value)
    ensures
        json_of(v) == int_json(n as int),
{
    serde_json::Value::from(n)
}

/// `Value::Number` holds the given number.
#[verifier::external_body]
pub(crate) fn number_value(n: serde_json::Number) -> (v: serde_json::Value)
    ensures
        json_of(v) == Json::Num(number_text(n)),
{
    serde_json::Value::Number(n)
}

/// `Value::String` holds the given text.
#[verifier::external_body]
pub(crate) fn text_value(s: String) -> (v: serde_json::Value)
    ensures
        json_of(v) == Json::Text(s@),
{
    serde_json::Value::String(s)
}

/// `Value::Array` holds the given values in their order.
#[verifier::external_body]
pub(crate) fn array_value(items: Vec<serde_json::Value>) -> (v: serde_json::Value)
    ensures
        json_of(v) == Json::Array(items_of(items@)),
{
    serde_json::Value::Array(items)
}

/// `Value::Object` around `Map::new` is the object without entries.
#[verifier::external_body]
pub(crate) fn object_value() -> (v: serde_json::Value)
    ensures
        json_of(v) == Json::Object(Map::empty()),
{
    serde_json::Value::Object(serde_json::Map::new())
}

/// Assigning through `IndexMut` with a key of an object: the entry of that key
/// becomes the given value, every other entry stays. On a value that is neither
/// an object nor null the call panics.
#[verifier::external_body]
pub(crate) fn put(object: &mut serde_json::Value, key: &str, value: serde_json::Value)
    requires
        json_of(*old(object)) is Object,
    ensures
        json_of(*final(object)) == Json::Object(
            json_of(*old(object))->Object_0.insert(key@, json_of(value)),
        ),
{
    object[key] = value;
}

/// `to_string` of a value: the compact text depends on what the value holds
/// alone, since objects list their entries by key. Control characters are
/// escaped in it, so that it is one line, and it is never empty.
#[verifier::external_body]
pub(crate) fn render(v: &serde_json::Value) -> (s: String)
    ensures
        s@ == json_text(json_of(*v)),
        !s@.contains('\n'),
        s@.len() > 0,
{
    v.to_string()
}

/// `serde_json::from_str` into a `Value`: what comes out depends on the text
/// alone. The text of a value whose numbers are integers of 64 bits is read back
/// as that value, if it nests less than 128 deep, which is where the parser
/// stops. What other texts stand for is left to the name.
#[verifier::external_body]
pub(crate) fn parse(text: &str) -> (r: Result<serde_json::Value, serde_json::Error>)
    ensures
        match r {
            Ok(v) => json_parse(text@) == Some(json_of(v)),
            Err(_) => json_parse(text@) is None,
        },
        forall|j: Json|
            integral_within(j, 127) && text@ == #[trigger] json_text(j) ==> r is Ok && json_of(
                r->Ok_0,
            ) == j,
{
    serde_json::from_str(text)
}

} // verus!
