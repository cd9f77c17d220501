//! JSON documents as the cluster's tools print them.
//!
//! A document is read by `serde_json`; what it holds is handed on as a value
//! of this module, which the rest of the library reads.

use vstd::prelude::*;

verus! {

/// `serde_json::Value`, seen only on its way into a `Json`.
#[verifier::external_type_specification]
#[verifier::external_body]
pub struct ExValue(serde_json::Value);

/// A JSON value.
pub enum Json {
    Null,
    Bool(bool),
    /// A number, as its text.
    Number(String),
    Text(String),
    List(Vec<Json>),
    /// The members of an object, in the order in which the document was
    /// walked.
    Object(Vec<(String, Json)>),
}

/// The JSON value that the bytes hold, where they hold one.
pub uninterp spec fn json_document(bytes: Seq<u8>) -> Option<Json>;

/// The same value outside `serde_json`: one variant for one, numbers as their
/// text, the members of an object in the order in which `serde_json` walks
/// them.
#[verifier::external_body]
fn from_value(v: &serde_json::Value) -> Json {
    match v {
        serde_json::Value::Null => Json::Null,
        serde_json::Value::Bool(b) => Json::Bool(*b),
        serde_json::Value::Number(n) => Json::Number(n.to_string()),
        serde_json::Value::String(s) => Json::Text(s.clone()),
        serde_json::Value::Array(a) => Json::List(a.iter().map(from_value).collect()),
        serde_json::Value::Object(o) => Json::Object(
            o.iter().map(|(k, v)| (k.clone(), from_value(v))).collect(),
        ),
    }
}

/// `serde_json::from_slice`: the JSON value that the bytes hold, or nothing
/// where they hold none. The value depends on the bytes alone.
#[verifier::external_body]
fn read_value(bytes: &[u8]) -> (r: Option<Json>)
    ensures
        r == json_document(bytes@),
{
    match serde_json::from_slice::<serde_json::Value>(bytes) {
        Ok(v) => Some(from_value(&v)),
        Err(_) => None,
    }
}

/// The value that the bytes hold; `Null` where they hold none.
pub open spec fn document_or_null(bytes: Seq<u8>) -> Json {
    match json_document(bytes) {
        Some(doc) => doc,
        None => Json::Null,
    }
}

/// Reads a JSON document; bytes that hold none give `Null`.
pub fn parse(bytes: &[u8]) -> (doc: Json)
    ensures
        doc == document_or_null(bytes@),
{
    match read_value(bytes) {
        Some(doc) => doc,
        None => Json::Null,
    }
}

/// The value behind a reference, where there is one.
pub open spec fn held(j: Option<&Json>) -> Option<Json> {
    match j {
        Some(v) => Some(*v),
        None => None,
    }
}

/// The first of the members that is called `key`.
pub open spec fn first_called(members: Seq<(String, Json)>, key: Seq<char>) -> Option<Json>
    decreases members.len(),
{
    if members.len() == 0 {
        None
    } else if members[0].0@ == key {
        Some(members[0].1)
    } else {
        first_called(members.skip(1), key)
    }
}

/// The member of an object that is called `key`. Anything but an object has
/// no members.
pub open spec fn member(j: Option<Json>, key: Seq<char>) -> Option<Json> {
    match j {
        Some(Json::Object(members)) => first_called(members@, key),
        _ => None,
    }
}

/// The text of a value that is a text.
pub open spec fn text_in(j: Option<Json>) -> Option<Seq<char>> {
    match j {
        Some(Json::Text(s)) => Some(s@),
        _ => None,
    }
}

/// The items of a value that is a list.
pub open spec fn items_in(j: Option<Json>) -> Option<Seq<Json>> {
    match j {
        Some(Json::List(items)) => Some(items@),
        _ => None,
    }
}

/// The names of the members of a value that is an object, in order.
pub open spec fn names_in(j: Option<Json>) -> Option<Seq<Seq<char>>> {
    match j {
        Some(Json::Object(members)) => Some(
            Seq::new(members@.len(), |i: int| members@[i].0@),
        ),
        _ => None,
    }
}

/// The member of an object that is called `key`.
pub fn get<'a>(j: Option<&'a Json>, key: &str) -> (r: Option<&'a Json>)
    ensures
        held(r) == member(held(j), key@),
{
    match j {
        Some(Json::Object(members)) => {
            let wanted = key.to_owned();
            let mut i: usize = 0;
            assert(members@.skip(0) =~= members@);
            while i < members.len()
                invariant
                    i <= members@.len(),
                    wanted@ == key@,
                    held(j) == Some(Json::Object(*members)),
                    first_called(members@, key@) == first_called(members@.skip(i as int), key@),
                decreases members@.len() - i,
            {
                proof {
                    assert(members@.skip(i as int)[0] == members@[i as int]);
                    assert(members@.skip(i as int).skip(1) =~= members@.skip(i + 1));
                }
                if members[i].0 == wanted {
                    return Some(&members[i].1);
                }
                i += 1;
            }
            assert(members@.skip(i as int).len() == 0);
            None
        },
        _ => None,
    }
}

/// The text of a value that is a text.
pub fn text<'a>(j: Option<&'a Json>) -> (r: Option<&'a String>)
    ensures
        match r {
            Some(s) => text_in(held(j)) == Some(s@),
            None => text_in(held(j)) is None,
        },
{
    match j {
        Some(Json::Text(s)) => Some(s),
        _ => None,
    }
}

/// The items of a value that is a list.
pub fn items<'a>(j: Option<&'a Json>) -> (r: Option<&'a Vec<Json>>)
    ensures
        match r {
            Some(v) => items_in(held(j)) == Some(v@),
            None => items_in(held(j)) is None,
        },
{
    match j {
        Some(Json::List(v)) => Some(v),
        _ => None,
    }
}

/// The names of the members of a value that is an object, in order.
pub fn names(j: Option<&Json>) -> (r: Option<Vec<Vec<char>>>)
    ensures
        match r {
            Some(v) => names_in(held(j)) == Some(crate::text::rows(v@)),
            None => names_in(held(j)) is None,
        },
{
    match j {
        Some(Json::Object(members)) => {
            let mut out: Vec<Vec<char>> = Vec::new();
            let mut i: usize = 0;
            while i < members.len()
                invariant
                    i <= members@.len(),
                    out@.len() == i,
                    forall|a: int| 0 <= a < i ==> (#[trigger] out@[a])@ == members@[a].0@,
                decreases members@.len() - i,
            {
                out.push(crate::text::chars_of(members[i].0.as_str()));
                i += 1;
            }
            assert(crate::text::rows(out@) =~= Seq::new(
                members@.len(),
                |i: int| members@[i].0@,
            ));
            Some(out)
        },
        _ => None,
    }
}

} // verus!
