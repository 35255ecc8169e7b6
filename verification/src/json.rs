//! JSON documents read with `serde_json`, held as plain values.
use vstd::prelude::*;

verus! {

#[verifier::external_type_specification]
#[verifier::external_body]
pub struct ExJsonValue(serde_json::Value);

/// A JSON document as plain values; a number is kept as its text.
#[derive(Debug)]
pub enum Json {
    Null,
    Bool(bool),
    Number(String),
    Str(String),
    Array(Vec<Json>),
    Object(Vec<(String, Json)>),
}

/// The document `serde_json` reads from a text, or `None` when the text is
/// not a JSON document.
pub uninterp spec fn parsed_json(text: Seq<char>) -> Option<Json>;

/// One `serde_json::Value` as a [`Json`], member for member.
#[verifier::external_body]
fn json_from_value(v: serde_json::Value) -> Json {
    match v {
        serde_json::Value::Null => Json::Null,
        serde_json::Value::Bool(b) => Json::Bool(b),
        serde_json::Value::Number(n) => Json::Number(n.to_string()),
        serde_json::Value::String(s) => Json::Str(s),
        serde_json::Value::Array(a) => Json::Array(a.into_iter().map(json_from_value).collect()),
        serde_json::Value::Object(m) => Json::Object(m.into_iter().map(|(k, x)| (k, json_from_value(x))).collect()),
    }
}

/// `serde_json::from_str` of a `serde_json::Value`, converted member for
/// member: the result is the document the text holds, `None` when the text
/// is not JSON. The contract names that result ([`parsed_json`]) and says
/// nothing more of it.
#[verifier::external_body]
pub(crate) fn parse_json(text: &str) -> (r: Option<Json>)
    ensures
        r == parsed_json(text@),
{
    serde_json::from_str::<serde_json::Value>(text).ok().map(json_from_value)
}

/// The value of the first member named `key`.
pub open spec fn first_member(m: Seq<(String, Json)>, key: Seq<char>) -> Option<Json>
    decreases m.len(),
{
    if m.len() == 0 {
        None
    } else if m[0].0@ == key {
        Some(m[0].1)
    } else {
        first_member(m.drop_first(), key)
    }
}

/// `Value::get` with a string key: the member of an object, if any.
pub open spec fn spec_get(v: Json, key: Seq<char>) -> Option<Json> {
    match v {
        Json::Object(m) => first_member(m@, key),
        _ => None,
    }
}

/// `Value::as_str`.
pub open spec fn spec_as_str(v: Json) -> Option<Seq<char>> {
    match v {
        Json::Str(s) => Some(s@),
        _ => None,
    }
}

/// The text of member `key`, when the value is an object whose member
/// `key` is a string.
pub open spec fn str_field(v: Json, key: Seq<char>) -> Option<Seq<char>> {
    match spec_get(v, key) {
        Some(x) => spec_as_str(x),
        None => None,
    }
}

/// The member named `key` of an object.
pub fn json_get<'a>(v: &'a Json, key: &str) -> (r: Option<&'a Json>)
    ensures
        match r {
            Some(x) => spec_get(*v, key@) == Some(*x),
            None => spec_get(*v, key@) is None,
        },
{
    match v {
        Json::Object(m) => {
            let mut i: usize = 0;
            assert(m@.skip(0) == m@);
            assert(spec_get(*v, key@) == first_member(m@, key@));
            while i < m.len()
                invariant
                    0 <= i <= m@.len(),
                    spec_get(*v, key@) == first_member(m@, key@),
                    first_member(m@, key@) == first_member(m@.skip(i as int), key@),
                decreases m@.len() - i,
            {
                assert(m@.skip(i as int)[0] == m@[i as int]);
                assert(m@.skip(i as int).drop_first() == m@.skip(i + 1));
                if crate::text::str_eq(m[i].0.as_str(), key) {
                    assert(first_member(m@.skip(i as int), key@) == Some(m@[i as int].1));
                    return Some(&m[i].1);
                }
                i = i + 1;
            }
            None
        },
        _ => None,
    }
}

/// The text of a string value.
pub fn json_as_str(v: &Json) -> (r: Option<&str>)
    ensures
        match r {
            Some(s) => spec_as_str(*v) == Some(s@),
            None => spec_as_str(*v) is None,
        },
{
    match v {
        Json::Str(s) => Some(s.as_str()),
        _ => None,
    }
}

/// The text of member `key`, if it is a string.
pub fn json_str_field<'a>(v: &'a Json, key: &str) -> (r: Option<&'a str>)
    ensures
        match r {
            Some(s) => str_field(*v, key@) == Some(s@),
            None => str_field(*v, key@) is None,
        },
{
    match json_get(v, key) {
        Some(x) => json_as_str(x),
        None => None,
    }
}

} // verus!
