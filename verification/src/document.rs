//! Reading a document from JSON text. The text is parsed by `serde_json`; the
//! tree it gives is taken over, level by level, into a `JsonValue`.

use crate::json::{Json, JsonValue, Member};
use crate::trim::{trim, trimmed};
use vstd::prelude::*;

verus! {

/// `serde_json::Value`, the tree that the parser gives. What it holds is
/// known only through `document_of`.
#[verifier::external_type_specification]
#[verifier::external_body]
pub struct ExParsedValue(serde_json::Value);

/// `serde_json::Number`, a number of a parsed tree. What it holds is known
/// only through `number_text`.
#[verifier::external_type_specification]
#[verifier::external_body]
pub struct ExParsedNumber(serde_json::Number);

/// `serde_json::Map`, the members of an object of a parsed tree. What it
/// holds is known only through `members_of`.
#[verifier::external_type_specification]
#[verifier::external_body]
#[verifier::reject_recursive_types(K)]
#[verifier::reject_recursive_types(V)]
pub struct ExParsedMap<K, V>(serde_json::Map<K, V>);

/// `serde_json::Error`, what the parser gives in place of a tree. Nothing is
/// known of what it holds.
#[verifier::external_type_specification]
#[verifier::external_body]
pub struct ExParseFailure(serde_json::Error);

/// The document that `serde_json::from_str` reads from a text, if the text is
/// JSON.
pub uninterp spec fn parsed(text: Seq<char>) -> Option<Json>;

/// The document that a `serde_json::Value` holds.
pub uninterp spec fn document_of(tree: serde_json::Value) -> Json;

/// The text that `serde_json` prints for a number.
pub uninterp spec fn number_text(number: serde_json::Number) -> Seq<char>;

/// The members that a `serde_json::Map` holds, each with the document of its
/// value, in the order in which the map hands them out.
pub uninterp spec fn members_of(map: serde_json::Map<String, serde_json::Value>) -> Seq<Member>;

/// One level of a parsed tree: the variant of a `serde_json::Value` with what
/// it holds.
enum Node<'a> {
    Null,
    Bool(bool),
    Number(&'a serde_json::Number),
    String(&'a String),
    Array(&'a Vec<serde_json::Value>),
    Object(&'a serde_json::Map<String, serde_json::Value>),
}

impl<'a> Node<'a> {
    /// This level is the top level of a document: the same variant with the
    /// same content, each item of an array holding the item of the document
    /// at its place.
    spec fn shows(self, document: Json) -> bool {
        match self {
            Node::Null => document == Json::Null,
            Node::Bool(b) => document == Json::Bool(b),
            Node::Number(number) => document == Json::Number(number_text(*number)),
            Node::String(text) => document == Json::String(text@),
            Node::Array(items) => {
                &&& document is Array
                &&& document->Array_0.len() == items.len()
                &&& forall|i: int|
                    0 <= i < items.len() ==> document_of(#[trigger] items[i])
                        == document->Array_0[i]
            },
            Node::Object(map) => document == Json::Object(members_of(*map)),
        }
    }
}

/// `serde_json::from_str`, read as a `serde_json::Value`: the outcome depends
/// on the text alone, and is the value that holds the document of the text,
/// or an error when the text is not JSON.
#[verifier::external_body]
fn from_str(text: &str) -> (outcome: Result<serde_json::Value, serde_json::Error>)
    ensures
        match outcome {
            Ok(tree) => parsed(text@) == Some(document_of(tree)),
            Err(_) => parsed(text@) is None,
        },
{
    serde_json::from_str::<serde_json::Value>(text)
}

/// The variant of a `serde_json::Value` and what it holds, as the enum of
/// `serde_json` has it.
#[verifier::external_body]
fn inspect<'a>(tree: &'a serde_json::Value) -> (node: Node<'a>)
    ensures
        node.shows(document_of(*tree)),
{
    match tree {
        serde_json::Value::Null => Node::Null,
        serde_json::Value::Bool(b) => Node::Bool(*b),
        serde_json::Value::Number(number) => Node::Number(number),
        serde_json::Value::String(text) => Node::String(text),
        serde_json::Value::Array(items) => Node::Array(items),
        serde_json::Value::Object(map) => Node::Object(map),
    }
}

/// `to_string` of a `serde_json::Number`: the decimal text of the number,
/// which depends on the number alone.
#[verifier::external_body]
fn print_number(number: &serde_json::Number) -> (text: String)
    ensures
        text@ == number_text(*number),
{
    number.to_string()
}

/// `serde_json::Map::iter`, gathered: every member of the map, in the order
/// of the map, each key once.
#[verifier::external_body]
fn members<'a>(map: &'a serde_json::Map<String, serde_json::Value>) -> (pairs: Vec<
    (&'a String, &'a serde_json::Value),
>)
    ensures
        pairs.len() == members_of(*map).len(),
        forall|i: int|
            0 <= i < pairs.len() ==> #[trigger] members_of(*map)[i] == (Member {
                key: pairs[i].0@,
                value: document_of(*pairs[i].1),
            }),
        forall|i: int, j: int|
            0 <= i < j < pairs.len() ==> (#[trigger] pairs[i]).0@ != (#[trigger] pairs[j]).0@,
{
    map.iter().collect()
}

/// The message of a `serde_json::Error`, as its `to_string` gives it.
#[verifier::external_body]
fn describe(failure: &serde_json::Error) -> (message: String) {
    failure.to_string()
}

/// Takes a parsed tree over into a `JsonValue`.
fn import(tree: &serde_json::Value) -> (value: JsonValue)
    ensures
        value@ == document_of(*tree),
        value@.well_formed(),
    decreases document_of(*tree),
{
    let ghost document = document_of(*tree);
    match inspect(tree) {
        Node::Null => JsonValue::Null,
        Node::Bool(b) => JsonValue::Bool(b),
        Node::Number(number) => JsonValue::Number(print_number(number)),
        Node::String(text) => JsonValue::String(text.clone()),
        Node::Array(items) => {
            let mut values: Vec<JsonValue> = Vec::new();
            let mut i: usize = 0;
            while i < items.len()
                invariant
                    i <= items.len(),
                    document == document_of(*tree),
                    document is Array,
                    document->Array_0.len() == items.len(),
                    forall|j: int|
                        0 <= j < items.len() ==> document_of(#[trigger] items[j])
                            == document->Array_0[j],
                    values.len() == i,
                    forall|j: int|
                        0 <= j < i ==> (#[trigger] values[j])@ == document->Array_0[j]
                            && values[j]@.well_formed(),
                decreases items.len() - i,
            {
                let value = import(&items[i]);
                values.push(value);
                i += 1;
            }
            let value = JsonValue::Array(values);
            assert(value@->Array_0 =~= document->Array_0);
            value
        },
        Node::Object(map) => {
            let members = members(map);
            let mut values: Vec<(String, JsonValue)> = Vec::new();
            let mut i: usize = 0;
            while i < members.len()
                invariant
                    i <= members.len(),
                    document == document_of(*tree),
                    document is Object,
                    document->Object_0.len() == members.len(),
                    forall|j: int|
                        0 <= j < members.len() ==> #[trigger] document->Object_0[j] == (Member {
                            key: members[j].0@,
                            value: document_of(*members[j].1),
                        }),
                    forall|j: int, k: int|
                        0 <= j < k < members.len() ==> (#[trigger] members[j]).0@
                            != (#[trigger] members[k]).0@,
                    values.len() == i,
                    forall|j: int|
                        0 <= j < i ==> (#[trigger] values[j]).0@ == document->Object_0[j].key
                            && values[j].1@ == document->Object_0[j].value
                            && values[j].1@.well_formed(),
                decreases members.len() - i,
            {
                let key = members[i].0.clone();
                proof {
                    let shown = document->Object_0[i as int];
                    assert(shown.value == document_of(*members[i as int].1));
                    assert(decreases_to!(document => shown.value));
                }
                let value = import(members[i].1);
                values.push((key, value));
                i += 1;
            }
            let value = JsonValue::Object(values);
            assert(value@->Object_0 =~= document->Object_0);
            assert forall|j: int, k: int| 0 <= j < k < members.len() implies (#[trigger] document
                ->Object_0[j]).key != (#[trigger] document->Object_0[k]).key by {
                assert(members[j].0@ != members[k].0@);
            }
            value
        },
    }
}

/// Why a text could not be read as a document.
#[derive(Debug, PartialEq, Eq)]
pub struct ParseError {
    /// What the parser found wrong, and where.
    pub message: String,
}

impl Clone for ParseError {
    fn clone(&self) -> (copy: Self)
        ensures
            copy == *self,
    {
        ParseError { message: self.message.clone() }
    }
}

/// Reads a document from JSON text. White space at the two ends of the text
/// is left out before the text is parsed. The document that comes out is
/// well-formed.
pub fn parse_json_object(text: &str) -> (outcome: Result<JsonValue, ParseError>)
    ensures
        match outcome {
            Ok(value) => parsed(trimmed(text@)) == Some(value@) && value@.well_formed(),
            Err(_) => parsed(trimmed(text@)) is None,
        },
{
    match from_str(trim(text)) {
        Ok(tree) => Ok(import(&tree)),
        Err(failure) => Err(ParseError { message: describe(&failure) }),
    }
}

} // verus!
