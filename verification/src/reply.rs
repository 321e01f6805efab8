//! The JSON answers that the shell's endpoints have in common.

use serde_json::Value;
use vstd::prelude::*;

use crate::json::{flag, json_in, json_of, json_text, no_fields, object, plain, put, render, text, Json};

verus! {

/// The answer of an endpoint that has nothing to add.
pub open spec fn ok_text() -> Seq<char> {
    "{\"ok\":true}"@
}

/// The answer of an endpoint that failed.
pub open spec fn error_doc(e: Seq<char>) -> Json {
    Json::Obj(no_fields().insert("ok"@, Json::Bool(false)).insert("error"@, Json::Str(e)))
}

/// `r` is the text of the document `j`, and reads back as it.
pub open spec fn writes(r: Seq<char>, j: Json) -> bool {
    r == json_text(j) && json_in(r) == Ok::<Json, Seq<char>>(j)
}

/// A value that holds nothing nested.
pub open spec fn scalar(j: Json) -> bool {
    !(j is OtherNum) && !(j is Arr) && !(j is Obj)
}

/// An object whose fields are scalars is plain.
pub proof fn lemma_flat(m: Map<Seq<char>, Json>, depth: nat)
    requires
        depth > 0,
        forall|k: Seq<char>| #[trigger] m.dom().contains(k) ==> scalar(m[k]),
    ensures
        plain(Json::Obj(m), depth),
{
    assert forall|k: Seq<char>| #[trigger] m.dom().contains(k) implies plain(
        m[k],
        (depth - 1) as nat,
    ) by {
        assert(scalar(m[k]));
    }
}

/// The answer of an endpoint that has nothing to add.
pub fn ok_body() -> (r: String)
    ensures
        r@ == ok_text(),
{
    "{\"ok\":true}".to_owned()
}

/// The answer of an endpoint that failed, with what it says.
pub fn error_reply(e: &str) -> (r: String)
    ensures
        writes(r@, error_doc(e@)),
{
    let mut v: Value = object();
    put(&mut v, "ok", flag(false));
    put(&mut v, "error", text(e));
    proof {
        lemma_flat(json_of(v)->Obj_0, 100);
    }
    render(&v)
}

/// Joins two texts.
pub fn join(a: &str, b: &str) -> (r: String)
    ensures
        r@ == a@ + b@,
{
    let mut s: String = a.to_owned();
    s.append(b);
    s
}

/// The answer of an endpoint that failed says so, and why.
pub proof fn law_failures_say_why(e: Seq<char>)
    ensures
        error_doc(e) matches Json::Obj(m) && m["ok"@] == Json::Bool(false) && m["error"@]
            == Json::Str(e),
{
    reveal_strlit("ok");
    reveal_strlit("error");
    assert("ok"@.len() == 2 && "error"@.len() == 5);
}

/// An answer that writes a document is its text, and gives the document to whoever reads it.
pub proof fn law_answers_read_back(r: Seq<char>, j: Json)
    requires
        writes(r, j),
    ensures
        r == json_text(j),
        json_in(r) == Ok::<Json, Seq<char>>(j),
{
}

} // verus!
