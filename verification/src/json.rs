//! JSON documents as the repository reads and writes them. Trees and
//! starlogs are stored as JSON text; `serde_json` parses and prints it, and
//! the rest of the library works on [`JsonValue`].

use crate::pairs::{keys_of, pairs_map};
use serde_json::Value;
use vstd::prelude::*;

verus! {

/// `serde_json::Error`, carried through as it comes.
#[verifier::external_type_specification]
#[verifier::external_body]
pub struct ExJsonError(serde_json::Error);

/// `serde_json::Value`, opaque until `unpack` takes it apart.
#[verifier::external_type_specification]
#[verifier::external_body]
pub struct ExJsonDocument(serde_json::Value);

/// `serde_json::Number`, carried through as it comes.
#[verifier::external_type_specification]
#[verifier::external_body]
pub struct ExJsonNumber(serde_json::Number);

/// A JSON value. An object lists its members in the order in which
/// `serde_json` hands them out.
#[derive(Debug, PartialEq)]
pub enum JsonValue {
    Null,
    Bool(bool),
    Number(serde_json::Number),
    Text(String),
    Array(Vec<JsonValue>),
    Object(Vec<(String, JsonValue)>),
}

/// The value that `serde_json::from_str` reads from `text`, `None` where it
/// rejects the text.
pub uninterp spec fn json_parsed(text: Seq<char>) -> Option<JsonValue>;

/// What a `serde_json::Value` holds, variant for variant.
pub uninterp spec fn json_content(document: serde_json::Value) -> JsonValue;

/// The text that `serde_json::to_string` prints for an object whose members
/// are the strings of `members`. An object of `serde_json` keeps its keys in
/// sorted order, so the text depends on the mapping alone.
pub uninterp spec fn json_object_text(members: Map<Seq<char>, Seq<char>>) -> Seq<char>;

/// The first member of `members` under `key`.
pub open spec fn find_member(members: Seq<(String, JsonValue)>, key: Seq<char>) -> Option<
    JsonValue,
>
    decreases members.len(),
{
    if members.len() == 0 {
        None
    } else if members[0].0@ == key {
        Some(members[0].1)
    } else {
        find_member(members.drop_first(), key)
    }
}

/// The mapping that the members of an object stand for, if each of them is a
/// string.
pub open spec fn text_members(members: Seq<(String, JsonValue)>) -> Option<
    Seq<(Seq<char>, Seq<char>)>,
>
    decreases members.len(),
{
    if members.len() == 0 {
        Some(Seq::empty())
    } else {
        match (text_members(members.drop_last()), members.last().1) {
            (Some(before), JsonValue::Text(s)) => Some(before.push((members.last().0@, s@))),
            _ => None,
        }
    }
}

impl JsonValue {
    /// The member under `key`, where this is an object that has one.
    pub open spec fn member(self, key: Seq<char>) -> Option<JsonValue> {
        match self {
            JsonValue::Object(members) => find_member(members@, key),
            _ => None,
        }
    }

    /// The characters of this value, where it is a string.
    pub open spec fn text(self) -> Option<Seq<char>> {
        match self {
            JsonValue::Text(s) => Some(s@),
            _ => None,
        }
    }

    /// The mapping from keys to strings that this value stands for, where it
    /// is a flat object with only strings for values.
    pub open spec fn string_map(self) -> Option<Map<Seq<char>, Seq<char>>> {
        match self {
            JsonValue::Object(members) => match text_members(members@) {
                Some(pairs) => Some(pairs_map(pairs)),
                None => None,
            },
            _ => None,
        }
    }

    /// The member under `key`, where this is an object that has one.
    pub fn get(&self, key: &str) -> (found: Option<&JsonValue>)
        ensures
            match found {
                Some(value) => self.member(key@) == Some(*value),
                None => self.member(key@) is None,
            },
    {
        match self {
            JsonValue::Object(members) => {
                let mut i: usize = 0;
                assert(members@.skip(0) == members@);
                while i < members.len()
                    invariant
                        i <= members.len(),
                        self.member(key@) == find_member(members@, key@),
                        find_member(members@, key@) == find_member(members@.skip(i as int), key@),
                    decreases members.len() - i,
                {
                    let ghost rest = members@.skip(i as int);
                    assert(rest[0] == members@[i as int]);
                    assert(rest.drop_first() == members@.skip(i + 1));
                    if crate::text::same_text(members[i].0.as_str(), key) {
                        return Some(&members[i].1);
                    }
                    i += 1;
                }
                None
            },
            _ => None,
        }
    }

    /// The characters of this value, where it is a string.
    pub fn as_text(&self) -> (found: Option<&String>)
        ensures
            match found {
                Some(s) => self.text() == Some(s@),
                None => self.text() is None,
            },
    {
        match self {
            JsonValue::Text(s) => Some(s),
            _ => None,
        }
    }
}

/// Calls `serde_json::from_str` for a `Value`. The contract names what it
/// reads: `Ok` holds the document that `json_parsed` gives for the text, and
/// an error comes where `json_parsed` gives none.
#[verifier::external_body]
fn document_from_str(text: &str) -> (r: Result<Value, serde_json::Error>)
    ensures
        match r {
            Ok(document) => json_parsed(text@) == Some(json_content(document)),
            Err(_) => json_parsed(text@) is None,
        },
{
    serde_json::from_str::<Value>(text)
}

/// Takes a `serde_json::Value` apart, variant for variant, moving what each
/// variant holds; arrays and objects keep the order in which `serde_json`
/// iterates them.
#[verifier::external_body]
fn unpack(document: Value) -> (value: JsonValue)
    ensures
        value == json_content(document),
{
    match document {
        Value::Null => JsonValue::Null,
        Value::Bool(b) => JsonValue::Bool(b),
        Value::Number(n) => JsonValue::Number(n),
        Value::String(s) => JsonValue::Text(s),
        Value::Array(items) => JsonValue::Array(items.into_iter().map(unpack).collect()),
        Value::Object(members) => JsonValue::Object(
            members.into_iter().map(|(k, v)| (k, unpack(v))).collect(),
        ),
    }
}

/// Calls `serde_json::to_string` on an object that holds each pair of
/// `pairs` as a key with a string value. The contract names the text and
/// says that `serde_json::from_str` reads it back as an object with the same
/// members: `serde_json` parses what it prints. The call succeeds: it writes
/// into a vector in memory, and an object whose keys and values are strings
/// gives the serializer nothing to refuse.
#[verifier::external_body]
pub(crate) fn object_to_string(pairs: &Vec<(String, String)>) -> (r: Result<
    String,
    serde_json::Error,
>)
    requires
        keys_of(pairs@.map_values(|p: (String, String)| (p.0@, p.1@))).no_duplicates(),
    ensures
        r is Ok,
        r matches Ok(text) ==> {
            let members = pairs_map(pairs@.map_values(|p: (String, String)| (p.0@, p.1@)));
            &&& text@ == json_object_text(members)
            &&& json_parsed(text@) is Some
            &&& json_parsed(text@)->0.string_map() == Some(members)
        },
{
    let members: serde_json::Map<String, Value> = pairs.iter().map(
        |p| (p.0.clone(), Value::String(p.1.clone())),
    ).collect();
    serde_json::to_string(&Value::Object(members))
}

/// Reads a JSON document. `None` where the text is not JSON.
pub fn parse(text: &str) -> (r: Option<JsonValue>)
    ensures
        r == json_parsed(text@),
{
    match document_from_str(text) {
        Ok(document) => Some(unpack(document)),
        Err(_) => None,
    }
}

} // verus!
