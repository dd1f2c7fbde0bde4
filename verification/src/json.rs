//! JSON documents as the library reads them: parsed by serde_json, then
//! walked by verified code.

use vstd::prelude::*;

use crate::text::str_eq;

verus! {

/// `serde_json::Value`, a parsed JSON document; opaque here.
#[verifier::external_type_specification]
#[verifier::external_body]
pub struct ExJsonValue(serde_json::Value);

/// A JSON document. Numbers keep their text; an object's members come in
/// the order serde_json keeps them, one per key.
#[derive(Debug)]
pub enum Json {
    Null,
    Bool(bool),
    Num(String),
    Str(String),
    Array(Vec<Json>),
    Object(Vec<(String, Json)>),
}

/// What `serde_json::from_str::<Value>` makes of `text`, as a `Json`, or
/// `None` when `text` is not one JSON document.
pub uninterp spec fn json_doc(text: Seq<char>) -> Option<Json>;

/// `serde_json::Value` as a `Json`, variant for variant. This is the
/// conversion half of `parse_json`, which alone calls it.
#[verifier::external_body]
fn json_of(value: serde_json::Value) -> Json {
    match value {
        serde_json::Value::Null => Json::Null,
        serde_json::Value::Bool(b) => Json::Bool(b),
        serde_json::Value::Number(n) => Json::Num(n.to_string()),
        serde_json::Value::String(s) => Json::Str(s),
        serde_json::Value::Array(a) => Json::Array(a.into_iter().map(json_of).collect()),
        serde_json::Value::Object(m) => Json::Object(
            m.into_iter().map(|(k, v)| (k, json_of(v))).collect(),
        ),
    }
}

/// `serde_json::from_str::<Value>`: the document in `text`, converted to a
/// `Json`, or `None` when `text` does not parse. The result is named
/// `json_doc`, a function of the text alone.
#[verifier::external_body]
pub(crate) fn parse_json(text: &str) -> (r: Option<Json>)
    ensures
        r == json_doc(text@),
{
    serde_json::from_str::<serde_json::Value>(text).ok().map(json_of)
}

/// The node a reference points at, if any.
pub open spec fn node(j: Option<&Json>) -> Option<Json> {
    match j {
        Some(x) => Some(*x),
        None => None,
    }
}

/// The value of the first of the first `n` members named `key`.
pub open spec fn first_member(ms: Seq<(String, Json)>, key: Seq<char>, n: int) -> Option<Json>
    decreases n,
{
    if n <= 0 {
        None
    } else {
        match first_member(ms, key, n - 1) {
            Some(v) => Some(v),
            None => if ms[n - 1].0@ == key {
                Some(ms[n - 1].1)
            } else {
                None
            },
        }
    }
}

/// The member named `key` of an object (`Value::get` with a string key):
/// `None` for anything that is not an object with that member.
pub open spec fn member(j: Option<Json>, key: Seq<char>) -> Option<Json> {
    match j {
        Some(Json::Object(ms)) => first_member(ms@, key, ms@.len() as int),
        _ => None,
    }
}

/// The first element of an array, `None` for anything else.
pub open spec fn first_elem(j: Option<Json>) -> Option<Json> {
    match j {
        Some(Json::Array(a)) => if a@.len() > 0 {
            Some(a@[0])
        } else {
            None
        },
        _ => None,
    }
}

/// The text of a JSON string (`Value::as_str`), `None` for anything else.
pub open spec fn text_of(j: Option<Json>) -> Option<Seq<char>> {
    match j {
        Some(Json::Str(s)) => Some(s@),
        _ => None,
    }
}

/// The value of a JSON boolean (`Value::as_bool`), `None` for anything else.
pub open spec fn flag_of(j: Option<Json>) -> Option<bool> {
    match j {
        Some(Json::Bool(b)) => Some(b),
        _ => None,
    }
}

proof fn lemma_first_member_stable(ms: Seq<(String, Json)>, key: Seq<char>, k: int, n: int)
    requires
        0 <= k <= n,
        first_member(ms, key, k) is Some,
    ensures
        first_member(ms, key, n) == first_member(ms, key, k),
    decreases n - k,
{
    if k < n {
        lemma_first_member_stable(ms, key, k, n - 1);
    }
}

/// The member named `key` of `j`, when `j` is an object that has one.
pub fn member_of<'a>(j: Option<&'a Json>, key: &str) -> (r: Option<&'a Json>)
    ensures
        node(r) == member(node(j), key@),
{
    let x = match j {
        Some(x) => x,
        None => return None,
    };
    match x {
        Json::Object(ms) => {
            assert(member(node(j), key@) == first_member(ms@, key@, ms@.len() as int));
            let mut i: usize = 0;
            while i < ms.len()
                invariant
                    i <= ms@.len(),
                    first_member(ms@, key@, i as int) is None,
                    member(node(j), key@) == first_member(ms@, key@, ms@.len() as int),
                decreases ms.len() - i,
            {
                if str_eq(ms[i].0.as_str(), key) {
                    assert(first_member(ms@, key@, i + 1) == Some(ms@[i as int].1));
                    proof {
                        lemma_first_member_stable(ms@, key@, i + 1, ms@.len() as int);
                    }
                    return Some(&ms[i].1);
                }
                i = i + 1;
            }
            None
        },
        _ => None,
    }
}

/// The first element of `j`, when `j` is a non-empty array.
pub fn first_of<'a>(j: Option<&'a Json>) -> (r: Option<&'a Json>)
    ensures
        node(r) == first_elem(node(j)),
{
    match j {
        Some(Json::Array(a)) => if a.len() > 0 {
            Some(&a[0])
        } else {
            None
        },
        _ => None,
    }
}

/// The text of `j`, when `j` is a JSON string.
pub fn text_in(j: Option<&Json>) -> (r: Option<String>)
    ensures
        r.deep_view() == text_of(node(j)),
{
    match j {
        Some(Json::Str(s)) => Some(s.clone()),
        _ => None,
    }
}

/// The value of `j`, when `j` is a JSON boolean.
pub fn flag_in(j: Option<&Json>) -> (r: Option<bool>)
    ensures
        r == flag_of(node(j)),
{
    match j {
        Some(Json::Bool(b)) => Some(*b),
        _ => None,
    }
}

} // verus!
