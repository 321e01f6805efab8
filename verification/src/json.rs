//! JSON documents: a model of what they hold, and the calls that read and write them.

use serde_json::Value;
use vstd::prelude::*;

verus! {

// ---------------------------------------------------------------- model

/// What a JSON document holds. Numbers other than those of 64 unsigned bits are not told apart.
#[verifier::ext_equal]
pub enum Json {
    Null,
    Bool(bool),
    Num(u64),
    OtherNum,
    Str(Seq<char>),
    Arr(Seq<Json>),
    Obj(Map<Seq<char>, Json>),
}

/// A value of `serde_json`.
#[verifier::external_type_specification]
#[verifier::external_body]
pub struct ExValue(Value);

/// What a value of `serde_json` holds.
pub uninterp spec fn json_of(v: Value) -> Json;

/// What a text holds when it is read as JSON, or the message of the parser's error.
pub uninterp spec fn json_in(text: Seq<char>) -> Result<Json, Seq<char>>;

/// The compact text of a document whose numbers are all told apart.
pub uninterp spec fn json_text(j: Json) -> Seq<char>;

/// A document nested at most `depth` deep, whose numbers are all told apart.
pub open spec fn plain(j: Json, depth: nat) -> bool
    decreases depth,
{
    match j {
        Json::OtherNum => false,
        Json::Arr(items) => depth > 0 && forall|i: int|
            0 <= i < items.len() ==> plain(#[trigger] items[i], (depth - 1) as nat),
        Json::Obj(fields) => depth > 0 && forall|k: Seq<char>| #[trigger]
            fields.dom().contains(k) ==> plain(fields[k], (depth - 1) as nat),
        _ => true,
    }
}

/// An object without fields.
pub open spec fn no_fields() -> Map<Seq<char>, Json> {
    Map::empty()
}

/// The field of an object, if `j` is one and has it.
pub open spec fn field(j: Json, key: Seq<char>) -> Option<Json> {
    match j {
        Json::Obj(m) => if m.dom().contains(key) {
            Some(m[key])
        } else {
            None
        },
        _ => None,
    }
}

// ---------------------------------------------------------------- reading

/// `serde_json::from_str` into a `Value`: the document, or the message of its error. A string
/// that stands directly under the outermost object is shorter than the whole text, for its
/// quotes are in the text too.
#[verifier::external_body]
pub(crate) fn parse(text: &str) -> (r: Result<Value, String>)
    ensures
        match r {
            Ok(v) => json_in(text@) == Ok::<Json, Seq<char>>(json_of(v)),
            Err(e) => json_in(text@) == Err::<Json, Seq<char>>(e@),
        },
        r matches Ok(v) ==> forall|key: Seq<char>| #[trigger]
            field(json_of(v), key) matches Some(Json::Str(s)) ==> s.len() < text@.len(),
{
    serde_json::from_str::<Value>(text).map_err(|e| e.to_string())
}

/// `Value::get` with a string: the field of an object.
#[verifier::external_body]
pub(crate) fn get<'a>(v: &'a Value, key: &str) -> (r: Option<&'a Value>)
    ensures
        match r {
            Some(x) => field(json_of(*v), key@) == Some(json_of(*x)),
            None => field(json_of(*v), key@) is None,
        },
{
    v.get(key)
}

/// `Value::as_array`: the items of an array.
pub assume_specification[ Value::as_array ](v: &Value) -> (r: Option<&Vec<Value>>)
    ensures
        match r {
            Some(items) => json_of(*v) == Json::Arr(items@.map_values(|x: Value| json_of(x))),
            None => !(json_of(*v) is Arr),
        },
;

/// `Value::as_str`: the characters of a string.
pub assume_specification[ Value::as_str ](v: &Value) -> (r: Option<&str>)
    ensures
        match r {
            Some(s) => json_of(*v) == Json::Str(s@),
            None => !(json_of(*v) is Str),
        },
;

/// `Value::as_u64`: a number of 64 unsigned bits.
pub assume_specification[ Value::as_u64 ](v: &Value) -> (r: Option<u64>)
    ensures
        match r {
            Some(n) => json_of(*v) == Json::Num(n),
            None => !(json_of(*v) is Num),
        },
;

/// `Value::is_object`.
pub assume_specification[ Value::is_object ](v: &Value) -> (r: bool)
    ensures
        r == (json_of(*v) is Obj),
;

/// `Value::is_null`.
pub assume_specification[ Value::is_null ](v: &Value) -> (r: bool)
    ensures
        r == (json_of(*v) is Null),
;

/// `Value::as_object`, its fields handed out: each field of the object once. Their order is left
/// open.
#[verifier::external_body]
pub(crate) fn entries<'a>(v: &'a Value) -> (r: Option<Vec<(String, &'a Value)>>)
    ensures
        match r {
            Some(list) => {
                &&& json_of(*v) is Obj
                &&& forall|i: int|
                    0 <= i < list@.len() ==> #[trigger] field(json_of(*v), list@[i].0@) == Some(
                        json_of(*list@[i].1),
                    )
                &&& forall|key: Seq<char>| #[trigger]
                    field(json_of(*v), key) is Some ==> exists|i: int|
                        0 <= i < list@.len() && #[trigger] list@[i].0@ == key
                &&& forall|i: int, j: int|
                    0 <= i < j < list@.len() ==> #[trigger] list@[i].0@ != #[trigger] list@[j].0@
            },
            None => !(json_of(*v) is Obj),
        },
{
    v.as_object().map(|m| m.iter().map(|(k, x)| (k.clone(), x)).collect())
}

// ---------------------------------------------------------------- writing

/// `Value::Object` of an empty map.
#[verifier::external_body]
pub(crate) fn object() -> (r: Value)
    ensures
        json_of(r) == Json::Obj(no_fields()),
{
    Value::Object(serde_json::Map::new())
}

/// `Value`'s assignment through an index: gives an object's field a value. On anything but an
/// object or null it would panic.
#[verifier::external_body]
pub(crate) fn put(v: &mut Value, key: &str, item: Value)
    requires
        json_of(*old(v)) is Obj,
    ensures
        json_of(*final(v)) == Json::Obj(json_of(*old(v))->Obj_0.insert(key@, json_of(item))),
{
    v[key] = item;
}

/// `Value::from` of a text.
#[verifier::external_body]
pub(crate) fn text(s: &str) -> (r: Value)
    ensures
        json_of(r) == Json::Str(s@),
{
    Value::from(s)
}

/// `Value::from` of a number.
#[verifier::external_body]
pub(crate) fn number(n: u64) -> (r: Value)
    ensures
        json_of(r) == Json::Num(n),
{
    Value::from(n)
}

/// `Value::from` of a truth value.
#[verifier::external_body]
pub(crate) fn flag(b: bool) -> (r: Value)
    ensures
        json_of(r) == Json::Bool(b),
{
    Value::from(b)
}

/// `Value::from` of a list.
#[verifier::external_body]
pub(crate) fn list(items: Vec<Value>) -> (r: Value)
    ensures
        json_of(r) == Json::Arr(items@.map_values(|x: Value| json_of(x))),
{
    Value::from(items)
}

/// `Value::from` of an absent text is null.
#[verifier::external_body]
pub(crate) fn optional_text(s: Option<&str>) -> (r: Value)
    ensures
        json_of(r) == match s {
            Some(t) => Json::Str(t@),
            None => Json::Null,
        },
{
    Value::from(s)
}

/// `Value`'s `to_string`: the compact text of the document, which reads back as the document.
/// Nothing is said of one that is nested too deep for the parser, nor of one with numbers that are
/// not told apart. It is so for `serde_json` without its features `preserve_order`, `raw_value` and
/// `arbitrary_precision`.
#[verifier::external_body]
pub(crate) fn render(v: &Value) -> (r: String)
    ensures
        plain(json_of(*v), 100) ==> r@ == json_text(json_of(*v)),
        plain(json_of(*v), 100) ==> (json_in(r@) == Ok::<Json, Seq<char>>(json_of(*v))),
{
    v.to_string()
}

} // verus!
