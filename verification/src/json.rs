//! Schema documents. A schema fragment is a `serde_json::Value`; this module
//! gives it a mathematical model and states, for each accessor the validators
//! call, what it returns in terms of that model.
use crate::double::{Double, DoubleView};
use serde_json::Value;
use vstd::prelude::*;

verus! {

/// `serde_json::Value`, taken as it is: what a value holds is known through
/// [`json_model`] alone, and through what is stated below of the functions
/// that read it.
#[verifier::external_type_specification]
#[verifier::external_body]
pub struct ExValue(Value);

/// A JSON document as a mathematical value.
pub ghost enum Json {
    Null,
    Bool(bool),
    Number(JsonNumber),
    String(Seq<char>),
    Array(Seq<Json>),
    /// The members in the order in which the object yields them.
    Object(Seq<JsonMember>),
}

/// One member of a JSON object.
pub ghost struct JsonMember {
    pub key: Seq<char>,
    pub value: Json,
}

/// A JSON number: its integer value where it was written as an integer, and
/// the bits of the double-precision number nearest to it.
pub ghost struct JsonNumber {
    pub integer: Option<int>,
    pub bits: u64,
}

/// What `Display` writes for the double with these bits.
pub uninterp spec fn shown_double(bits: u64) -> Seq<char>;

/// What `Debug` writes for the double with these bits.
pub uninterp spec fn debug_double(bits: u64) -> Seq<char>;

/// The double with these bits, with the two texts that the standard library
/// writes for it.
pub open spec fn rendered(bits: u64) -> DoubleView {
    DoubleView { bits, shown: shown_double(bits), debug: debug_double(bits) }
}

/// The document that a `serde_json::Value` holds.
pub uninterp spec fn json_model(v: Value) -> Json;

/// The text that `serde_json` serialises a document to.
pub uninterp spec fn json_text(j: Json) -> Seq<char>;

/// The value of the first member of `members` whose key is `key`.
pub open spec fn member_of(members: Seq<JsonMember>, key: Seq<char>) -> Option<Json>
    decreases members.len(),
{
    if members.len() == 0 {
        None
    } else if members[0].key == key {
        Some(members[0].value)
    } else {
        member_of(members.drop_first(), key)
    }
}

/// How deep arrays and objects are nested in `j`: nought for a value that is
/// neither, and one more than the deepest item or member for the others.
pub open spec fn nesting(j: Json) -> nat
    decreases j, 0int,
{
    match j {
        Json::Array(items) => 1 + deepest_item(items, items.len() as int),
        Json::Object(members) => 1 + deepest_member(members, members.len() as int),
        _ => 0,
    }
}

/// The nesting of the deepest of the first `upto` items.
pub open spec fn deepest_item(items: Seq<Json>, upto: int) -> nat
    decreases items, upto,
{
    if 0 < upto <= items.len() {
        let before = deepest_item(items, upto - 1);
        let last = nesting(items[upto - 1]);
        if before < last {
            last
        } else {
            before
        }
    } else {
        0
    }
}

/// The nesting of the deepest of the values of the first `upto` members.
pub open spec fn deepest_member(members: Seq<JsonMember>, upto: int) -> nat
    decreases members, upto,
{
    if 0 < upto <= members.len() {
        let before = deepest_member(members, upto - 1);
        let last = nesting(members[upto - 1].value);
        if before < last {
            last
        } else {
            before
        }
    } else {
        0
    }
}

/// No value among the first `upto` members is nested deeper than the
/// deepest of them.
pub proof fn lemma_deepest_member(members: Seq<JsonMember>, upto: int, i: int)
    requires
        0 <= i < upto <= members.len(),
    ensures
        nesting(members[i].value) <= deepest_member(members, upto),
    decreases upto,
{
    if i < upto - 1 {
        lemma_deepest_member(members, upto - 1, i);
    }
}

/// The value that an object holds under a key is the value of one of its
/// members.
pub proof fn lemma_member_at(members: Seq<JsonMember>, key: Seq<char>)
    ensures
        member_of(members, key) matches Some(value) ==> exists|i: int|
            0 <= i < members.len() && (#[trigger] members[i]).value == value,
    decreases members.len(),
{
    if members.len() > 0 {
        if members[0].key == key {
            assert(members[0].value == member_of(members, key).unwrap());
        } else {
            let rest = members.drop_first();
            lemma_member_at(rest, key);
            match member_of(rest, key) {
                Some(value) => {
                    let i = choose|i: int|
                        0 <= i < rest.len() && (#[trigger] rest[i]).value == value;
                    assert(members[i + 1] == rest[i]);
                },
                None => {},
            }
        }
    }
}

/// The value that an object holds under a key is nested less deep than the
/// object.
pub proof fn lemma_member_nesting(members: Seq<JsonMember>, key: Seq<char>)
    ensures
        member_of(members, key) matches Some(value) ==> nesting(value) < nesting(
            Json::Object(members),
        ),
{
    lemma_member_at(members, key);
    match member_of(members, key) {
        Some(value) => {
            let i = choose|i: int|
                0 <= i < members.len() && (#[trigger] members[i]).value == value;
            lemma_deepest_member(members, members.len() as int, i);
        },
        None => {},
    }
}

/// The value under `key` where `j` is an object that has such a member.
pub open spec fn lookup(j: Json, key: Seq<char>) -> Option<Json> {
    match j {
        Json::Object(members) => member_of(members, key),
        _ => None,
    }
}

/// Whether no two members of `members` share a key.
pub open spec fn distinct_keys(members: Seq<JsonMember>) -> bool {
    forall|i: int, j: int|
        0 <= i < j < members.len() ==> (#[trigger] members[i]).key != (#[trigger] members[j]).key
}

/// The text of `j` where it is a string.
pub open spec fn as_text(j: Json) -> Option<Seq<char>> {
    match j {
        Json::String(s) => Some(s),
        _ => None,
    }
}

/// The integer that `j` holds where it is a number written as an integer
/// that a signed sixty-four-bit integer can hold.
pub open spec fn as_integer(j: Json) -> Option<i64> {
    match j {
        Json::Number(n) => match n.integer {
            Some(i) => if i64::MIN <= i <= i64::MAX {
                Some(i as i64)
            } else {
                None
            },
            None => None,
        },
        _ => None,
    }
}

/// The double that stands for `j` in comparisons: that of a number written
/// with a fraction or an exponent, or as an integer that a signed
/// sixty-four-bit integer can hold.
pub open spec fn as_double(j: Json) -> Option<DoubleView> {
    match j {
        Json::Number(n) => match n.integer {
            Some(i) => if i64::MIN <= i <= i64::MAX {
                Some(rendered(n.bits))
            } else {
                None
            },
            None => Some(rendered(n.bits)),
        },
        _ => None,
    }
}

/// `Value::get` with a string key: the member of that name where the value
/// is an object that has one, nothing otherwise.
#[verifier::external_body]
pub(crate) fn get<'a>(v: &'a Value, key: &str) -> (r: Option<&'a Value>)
    ensures
        match lookup(json_model(*v), key@) {
            Some(j) => r is Some && json_model(*r.unwrap()) == j,
            None => r is None,
        },
{
    v.get(key)
}

/// `Value::as_object` followed by `Map::iter`: the members of an object, each
/// key once, in the order in which the map yields them; nothing for any other
/// value.
#[verifier::external_body]
pub(crate) fn members<'a>(v: &'a Value) -> (r: Option<Vec<(&'a String, &'a Value)>>)
    ensures
        match json_model(*v) {
            Json::Object(ms) => {
                &&& r is Some
                &&& r.unwrap()@.len() == ms.len()
                &&& distinct_keys(ms)
                &&& forall|i: int|
                    0 <= i < ms.len() ==> {
                        &&& (#[trigger] r.unwrap()@[i]).0@ == ms[i].key
                        &&& json_model(*r.unwrap()@[i].1) == ms[i].value
                    }
            },
            _ => r is None,
        },
{
    v.as_object().map(|m| m.iter().collect())
}

/// `Value::as_f64`, with the bits of the result and the texts that `Display`
/// and `Debug` write for it: the double nearest to a number, nothing for any
/// other value.
#[verifier::external_body]
pub(crate) fn double_of(v: &Value) -> (r: Option<Double>)
    ensures
        match json_model(*v) {
            Json::Number(n) => r is Some && r.unwrap()@ == (DoubleView {
                bits: n.bits,
                shown: shown_double(n.bits),
                debug: debug_double(n.bits),
            }),
            _ => r is None,
        },
{
    v.as_f64().map(
        |x| Double { bits: x.to_bits(), shown: x.to_string(), debug: format!("{:#?}", x) },
    )
}

/// `Value::to_string`: the compact serialisation of the document.
#[verifier::external_body]
pub(crate) fn text_of(v: &Value) -> (r: String)
    ensures
        r@ == json_text(json_model(*v)),
{
    v.to_string()
}

/// `Value::as_str`: the text of a string, nothing for any other value.
pub assume_specification[ Value::as_str ](v: &Value) -> (r: Option<&str>)
    ensures
        match json_model(*v) {
            Json::String(s) => r is Some && r.unwrap()@ == s,
            _ => r is None,
        },
;

/// `Value::as_bool`: the boolean, nothing for any other value.
pub assume_specification[ Value::as_bool ](v: &Value) -> (r: Option<bool>)
    ensures
        match json_model(*v) {
            Json::Bool(b) => r == Some(b),
            _ => r is None,
        },
;

/// `Value::as_i64`: the integer of a number that was written as an integer
/// and that sixty-four bits with a sign hold, nothing for any other value.
pub assume_specification[ Value::as_i64 ](v: &Value) -> (r: Option<i64>)
    ensures
        r == as_integer(json_model(*v)),
;

/// `Value::is_i64`: whether `as_i64` gives an integer.
pub assume_specification[ Value::is_i64 ](v: &Value) -> (r: bool)
    ensures
        r == as_integer(json_model(*v)).is_some(),
;

/// `Value::is_f64`: whether the value is a number that was not written as an
/// integer.
pub assume_specification[ Value::is_f64 ](v: &Value) -> (r: bool)
    ensures
        r == (json_model(*v) matches Json::Number(n) && n.integer is None),
;

/// `Value::is_null`: whether the value is `null`.
pub assume_specification[ Value::is_null ](v: &Value) -> (r: bool)
    ensures
        r == (json_model(*v) is Null),
;

/// `Value::is_object`: whether the value is an object.
pub assume_specification[ Value::is_object ](v: &Value) -> (r: bool)
    ensures
        r == (json_model(*v) is Object),
;

/// `Value::is_number`: whether the value is a number.
pub assume_specification[ Value::is_number ](v: &Value) -> (r: bool)
    ensures
        r == (json_model(*v) is Number),
;

/// `Value::as_array`: the items of an array, in order, nothing for any other
/// value.
pub assume_specification[ Value::as_array ](v: &Value) -> (r: Option<&Vec<Value>>)
    ensures
        match json_model(*v) {
            Json::Array(items) => {
                &&& r is Some
                &&& r.unwrap()@.len() == items.len()
                &&& forall|i: int|
                    0 <= i < items.len() ==> json_model(#[trigger] r.unwrap()@[i]) == items[i]
            },
            _ => r is None,
        },
;

/// `Value::clone`: a value that holds the same document.
pub assume_specification[ <Value as Clone>::clone ](v: &Value) -> (r: Value)
    ensures
        json_model(r) == json_model(*v),
;

/// The size that `j` holds under `key`: an integer from zero upwards that
/// the machine can hold as a size.
pub open spec fn size_bound(j: Json, key: Seq<char>) -> Option<usize> {
    match lookup(j, key) {
        Some(v) => match as_integer(v) {
            Some(n) => if 0 <= n <= usize::MAX {
                Some(n as usize)
            } else {
                None
            },
            None => None,
        },
        None => None,
    }
}

/// The size that a schema holds under `key`.
pub fn size_of(schema: &Value, key: &str) -> (r: Option<usize>)
    ensures
        r == size_bound(json_model(*schema), key@),
{
    let n = get(schema, key)?.as_i64()?;
    if n >= 0 && n as u64 <= usize::MAX as u64 {
        Some(n as usize)
    } else {
        None
    }
}

/// The text that `j` holds under `key`.
pub open spec fn text_under(j: Json, key: Seq<char>) -> Option<Seq<char>> {
    match lookup(j, key) {
        Some(v) => as_text(v),
        None => None,
    }
}

/// The text that a schema holds under `key`.
pub fn text_at<'a>(schema: &'a Value, key: &str) -> (r: Option<&'a str>)
    ensures
        match text_under(json_model(*schema), key@) {
            Some(t) => r is Some && r.unwrap()@ == t,
            None => r is None,
        },
{
    get(schema, key)?.as_str()
}

/// The double that stands for what `j` holds under `key`.
pub open spec fn double_under(j: Json, key: Seq<char>) -> Option<DoubleView> {
    match lookup(j, key) {
        Some(v) => as_double(v),
        None => None,
    }
}

/// The double that stands for what a schema holds under `key`.
pub fn double_at(schema: &Value, key: &str) -> (r: Option<Double>)
    ensures
        match double_under(json_model(*schema), key@) {
            Some(d) => r is Some && r.unwrap()@ == d,
            None => r is None,
        },
{
    get_number(get(schema, key)?)
}

/// The double that stands for the number `v` in comparisons, where it has
/// one.
pub fn get_number(v: &Value) -> (r: Option<Double>)
    ensures
        match as_double(json_model(*v)) {
            Some(d) => r is Some && r.unwrap()@ == d,
            None => r is None,
        },
{
    if v.is_i64() || v.is_f64() {
        double_of(v)
    } else {
        None
    }
}

} // verus!
