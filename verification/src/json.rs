//! JSON documents as values of this library, so that verified code can look
//! into them. Reading the text is `serde_json`'s work; what this library
//! relies on is stated at `read_json` and believed, not proved.

use vstd::prelude::*;
use vstd::string::StringExecFns;

verus! {

/// A JSON value. A number is kept as the fact that it is one.
#[derive(Debug, PartialEq, Eq)]
pub enum Json {
    Null,
    Bool(bool),
    Number,
    Text(String),
    Array(Vec<Json>),
    Object(Vec<(String, Json)>),
}

/// `serde_json`'s own value, which only the two functions below handle.
#[verifier::external_type_specification]
#[verifier::external_body]
pub struct ExValue(serde_json::Value);

/// The JSON document that the text `json` holds, or `None` where it holds
/// none: each value of `serde_json` as the value of this library of the same
/// kind, an object as its members in the order of `serde_json`'s map.
pub uninterp spec fn json_value(json: Seq<char>) -> Option<Json>;

/// Turns a value of `serde_json` into the value of this library of the same
/// kind: one variant for one, strings and keys copied, the items of an array
/// and the members of an object (by `Map::iter`) turned in the same way.
#[verifier::external_body]
pub(crate) fn convert(value: &serde_json::Value) -> (doc: Json) {
    match value {
        serde_json::Value::Null => Json::Null,
        serde_json::Value::Bool(b) => Json::Bool(*b),
        serde_json::Value::Number(_) => Json::Number,
        serde_json::Value::String(s) => Json::Text(s.clone()),
        serde_json::Value::Array(items) => Json::Array(items.iter().map(convert).collect()),
        serde_json::Value::Object(members) => Json::Object(
            members.iter().map(|(key, value)| (key.clone(), convert(value))).collect(),
        ),
    }
}

/// Reads `json` with `serde_json::from_str` and turns the value into one of
/// this library.
///
/// Believed of it: the outcome is a function of `json` alone.
#[verifier::external_body]
pub(crate) fn read_json(json: &str) -> (r: Option<Json>)
    ensures
        r == json_value(json@),
{
    serde_json::from_str::<serde_json::Value>(json).ok().map(|value| convert(&value))
}

/// Whether member `i` of `members` is named `key`.
pub open spec fn named(members: Seq<(String, Json)>, key: Seq<char>, i: int) -> bool {
    0 <= i < members.len() && members[i].0@ == key
}

/// Whether `members` has a member named `key`.
pub open spec fn has_key(members: Seq<(String, Json)>, key: Seq<char>) -> bool {
    exists|i: int| named(members, key, i)
}

/// Whether `members` has a member named `key` whose value is no boolean.
pub open spec fn has_other_than_bool(members: Seq<(String, Json)>, key: Seq<char>) -> bool {
    exists|i: int| named(members, key, i) && !(members[i].1 is Bool)
}

/// The value of the first of `members` that is named `key`.
pub open spec fn member_at(members: Seq<(String, Json)>, key: Seq<char>) -> Option<Json>
    decreases members.len(),
{
    if members.len() == 0 {
        None
    } else if members[0].0@ == key {
        Some(members[0].1)
    } else {
        member_at(members.skip(1), key)
    }
}

/// The characters of `value`, if it is a string.
pub open spec fn text_in(value: Option<Json>) -> Option<Seq<char>> {
    match value {
        Some(Json::Text(text)) => Some(text@),
        _ => None,
    }
}

/// The string that is the value of the first of `members` named `key`, if
/// that value is a string.
pub fn member_text<'a>(members: &'a Vec<(String, Json)>, key: &str) -> (r: Option<&'a String>)
    ensures
        match r {
            Some(text) => text_in(member_at(members@, key@)) == Some(text@),
            None => text_in(member_at(members@, key@)) is None,
        },
{
    let word = String::from_str(key);
    let mut i: usize = 0;
    proof {
        assert(members@.skip(0) =~= members@);
    }
    while i < members.len()
        invariant
            i <= members@.len(),
            word@ == key@,
            member_at(members@, key@) == member_at(members@.skip(i as int), key@),
        decreases members@.len() - i,
    {
        proof {
            assert(members@.skip(i as int).skip(1) =~= members@.skip(i + 1));
        }
        if members[i].0 == word {
            return match &members[i].1 {
                Json::Text(text) => Some(text),
                _ => None,
            };
        }
        i = i + 1;
    }
    None
}

/// Whether `members` has a member named `key`.
pub fn has_member(members: &Vec<(String, Json)>, key: &str) -> (found: bool)
    ensures
        found == has_key(members@, key@),
{
    let word = String::from_str(key);
    let mut i: usize = 0;
    while i < members.len()
        invariant
            i <= members@.len(),
            word@ == key@,
            forall|k: int| 0 <= k < i ==> !named(members@, key@, k),
        decreases members@.len() - i,
    {
        if members[i].0 == word {
            assert(named(members@, key@, i as int));
            return true;
        }
        i = i + 1;
    }
    false
}

/// Whether `members` has a member named `key` whose value is no boolean.
pub fn has_no_bool(members: &Vec<(String, Json)>, key: &str) -> (found: bool)
    ensures
        found == has_other_than_bool(members@, key@),
{
    let word = String::from_str(key);
    let mut i: usize = 0;
    while i < members.len()
        invariant
            i <= members@.len(),
            word@ == key@,
            forall|k: int| 0 <= k < i ==> !(named(members@, key@, k) && !(members@[k].1 is Bool)),
        decreases members@.len() - i,
    {
        if members[i].0 == word {
            let boolean = match &members[i].1 {
                Json::Bool(_) => true,
                _ => false,
            };
            if !boolean {
                assert(named(members@, key@, i as int) && !(members@[i as int].1 is Bool));
                return true;
            }
        }
        i = i + 1;
    }
    false
}

} // verus!
