//! Records in JSON documents: which values stand for the fields of a record.
//!
//! A record is an object, whose unknown fields are passed over, or an array that gives its fields
//! by position.

use serde_json::Value;
use vstd::prelude::*;

use crate::json::{field, json_of, Json};

verus! {

/// The value that a record has for its `i`th field, `key`.
pub open spec fn member_of(j: Json, i: int, key: Seq<char>) -> Option<Json> {
    match j {
        Json::Arr(items) => if 0 <= i < items.len() {
            Some(items[i])
        } else {
            None
        },
        _ => field(j, key),
    }
}

/// A document that can be a record of at most `n` fields.
pub open spec fn record_shape(j: Json, n: nat) -> bool {
    match j {
        Json::Obj(m) => true,
        Json::Arr(items) => items.len() <= n,
        _ => false,
    }
}

/// A field that must be there, and be a text.
pub open spec fn text_in(m: Option<Json>) -> Option<Seq<char>> {
    match m {
        Some(Json::Str(s)) => Some(s),
        _ => None,
    }
}

/// A text field that is empty when it is not there.
pub open spec fn text_or_empty_in(m: Option<Json>) -> Option<Seq<char>> {
    match m {
        None => Some(Seq::empty()),
        Some(Json::Str(s)) => Some(s),
        _ => None,
    }
}

/// A text field that may be null or not there.
pub open spec fn maybe_text_in(m: Option<Json>) -> Option<Option<Seq<char>>> {
    match m {
        None => Some(None),
        Some(Json::Null) => Some(None),
        Some(Json::Str(s)) => Some(Some(s)),
        _ => None,
    }
}

/// A field that must be there, and be a number.
pub open spec fn number_in(m: Option<Json>) -> Option<u64> {
    match m {
        Some(Json::Num(n)) => Some(n),
        _ => None,
    }
}

/// What `f` makes of every item, if it makes something of each.
pub open spec fn all_of<T>(items: Seq<Json>, f: spec_fn(Json) -> Option<T>) -> Option<Seq<T>>
    decreases items.len(),
{
    if items.len() == 0 {
        Some(Seq::empty())
    } else {
        match (all_of(items.drop_last(), f), f(items.last())) {
            (Some(rest), Some(x)) => Some(rest.push(x)),
            _ => None,
        }
    }
}

/// What `f` makes of every item of a list.
pub open spec fn list_of<T>(j: Json, f: spec_fn(Json) -> Option<T>) -> Option<Seq<T>> {
    match j {
        Json::Arr(items) => all_of(items, f),
        _ => None,
    }
}

/// One item of which `f` makes nothing spoils the list.
pub proof fn lemma_all_of_none<T>(items: Seq<Json>, f: spec_fn(Json) -> Option<T>, i: int)
    requires
        0 <= i < items.len(),
        f(items[i]) is None,
    ensures
        all_of(items, f) is None,
    decreases items.len(),
{
    if i < items.len() - 1 {
        lemma_all_of_none(items.drop_last(), f, i);
    }
}

/// One more item.
pub proof fn lemma_all_of_step<T>(items: Seq<Json>, f: spec_fn(Json) -> Option<T>, i: int)
    requires
        0 <= i < items.len(),
    ensures
        all_of(items.take(i + 1), f) == match (all_of(items.take(i), f), f(items[i])) {
            (Some(rest), Some(x)) => Some(rest.push(x)),
            _ => None,
        },
{
    assert(items.take(i + 1).drop_last() == items.take(i));
    assert(items.take(i + 1).last() == items[i]);
}

/// Whether a value can be a record of at most `n` fields.
pub(crate) fn is_record(v: &Value, n: usize) -> (r: bool)
    ensures
        r == record_shape(json_of(*v), n as nat),
{
    match v.as_array() {
        Some(items) => items.len() <= n,
        None => v.is_object(),
    }
}

/// The value of a record's `i`th field, `key`.
pub(crate) fn member<'a>(v: &'a Value, i: usize, key: &str) -> (r: Option<&'a Value>)
    ensures
        match r {
            Some(x) => member_of(json_of(*v), i as int, key@) == Some(json_of(*x)),
            None => member_of(json_of(*v), i as int, key@) is None,
        },
{
    match v.as_array() {
        Some(items) => if i < items.len() {
            Some(&items[i])
        } else {
            None
        },
        None => crate::json::get(v, key),
    }
}

/// What some value, or none, holds.
pub open spec fn held(m: Option<&Value>) -> Option<Json> {
    match m {
        Some(x) => Some(json_of(*x)),
        None => None,
    }
}

/// The characters of a text that may be absent.
pub open spec fn opt_view(s: Option<String>) -> Option<Seq<char>> {
    match s {
        Some(t) => Some(t@),
        None => None,
    }
}

/// A field that must be there, and be a text.
pub(crate) fn text_of(m: Option<&Value>) -> (r: Option<String>)
    ensures
        opt_view(r) == text_in(held(m)),
{
    match m {
        Some(v) => match v.as_str() {
            Some(s) => Some(s.to_owned()),
            None => None,
        },
        None => None,
    }
}

/// A text field that is empty when it is not there.
pub(crate) fn text_or_empty(m: Option<&Value>) -> (r: Option<String>)
    ensures
        opt_view(r) == text_or_empty_in(held(m)),
{
    match m {
        Some(v) => match v.as_str() {
            Some(s) => Some(s.to_owned()),
            None => None,
        },
        None => Some(String::new()),
    }
}

/// A text field that may be null or not there.
pub(crate) fn maybe_text(m: Option<&Value>) -> (r: Option<Option<String>>)
    ensures
        match r {
            Some(s) => maybe_text_in(held(m)) == Some(opt_view(s)),
            None => maybe_text_in(held(m)) is None,
        },
{
    match m {
        Some(v) => if v.is_null() {
            Some(None)
        } else {
            match v.as_str() {
                Some(s) => Some(Some(s.to_owned())),
                None => None,
            }
        },
        None => Some(None),
    }
}

/// A field that must be there, and be a number.
pub(crate) fn number_of(m: Option<&Value>) -> (r: Option<u64>)
    ensures
        r == number_in(held(m)),
{
    match m {
        Some(v) => v.as_u64(),
        None => None,
    }
}

// ---------------------------------------------------------------- laws

/// A list is read item by item: it comes out exactly when every item does, each in its place.
pub proof fn law_lists_are_read_item_by_item<T>(
    items: Seq<Json>,
    f: spec_fn(Json) -> Option<T>,
    out: Seq<T>,
)
    ensures
        list_of(Json::Arr(items), f) == Some(out) <==> out.len() == items.len() && forall|i: int|
            0 <= i < items.len() ==> f(#[trigger] items[i]) == Some(out[i]),
    decreases items.len(),
{
    if items.len() > 0 {
        let (rest, last) = (items.drop_last(), items.last());
        if out.len() > 0 {
            let front = out.drop_last();
            law_lists_are_read_item_by_item(rest, f, front);
            assert(front.push(out.last()) == out);
            if list_of(Json::Arr(items), f) == Some(out) {
                let got = all_of(rest, f)->0;
                assert(got.push(f(last)->0) == out);
                assert(got == front);
                assert forall|i: int| 0 <= i < items.len() implies f(#[trigger] items[i]) == Some(
                    out[i],
                ) by {
                    if i < rest.len() {
                        assert(rest[i] == items[i]);
                    }
                }
            }
            if out.len() == items.len() && forall|i: int|
                0 <= i < items.len() ==> f(#[trigger] items[i]) == Some(out[i]) {
                assert forall|i: int| 0 <= i < rest.len() implies f(#[trigger] rest[i]) == Some(
                    front[i],
                ) by {
                    assert(rest[i] == items[i]);
                }
                assert(f(items[items.len() - 1]) == Some(out[items.len() - 1]));
            }
        } else if list_of(Json::Arr(items), f) == Some(out) {
            assert(all_of(rest, f)->0.push(f(last)->0).len() > 0);
        }
    } else if list_of(Json::Arr(items), f) != Some(out) {
        assert(out != Seq::<T>::empty());
        assert(out.len() != 0) by {
            if out.len() == 0 {
                assert(out == Seq::<T>::empty());
            }
        }
    }
}

} // verus!
