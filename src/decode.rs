//! Reading formula text: JSON decoding by serde_json, then parsing and
//! rendering.

use vstd::prelude::*;
use vstd::string::*;
use serde_json::Value;
use crate::expr::{Expression, sql_of};
use crate::json::JsonValue;
use crate::parse::{ParseError, parse, parse_error, parses_to, lemma_parsed_sql_unique};

verus! {

/// One level of a decoded JSON document: a scalar, or a container whose
/// items are held as their own JSON text.
#[derive(Debug)]
pub enum JsonNode {
    Null,
    Bool(bool),
    Number,
    Str(String),
    /// The items, each as JSON text.
    Array(Vec<String>),
    /// The entries: each key, and its value as JSON text.
    Object(Vec<(String, String)>),
}

/// The top level of the JSON document that `text` holds, or `None` where it
/// is not JSON.
pub uninterp spec fn node_of(text: Seq<char>) -> Option<JsonNode>;

/// Relies on `serde_json::from_str`, which decodes JSON text into a
/// `serde_json::Value` or fails on text that is not JSON, and on the
/// `Display` of `serde_json::Value`, which writes a value back as JSON text.
/// The result depends on the text alone.
#[verifier::external_body]
fn decode_node(text: &str) -> (r: Option<JsonNode>)
    ensures
        r == node_of(text@),
{
    match serde_json::from_str::<Value>(text) {
        Ok(Value::Null) => Some(JsonNode::Null),
        Ok(Value::Bool(b)) => Some(JsonNode::Bool(b)),
        Ok(Value::Number(_)) => Some(JsonNode::Number),
        Ok(Value::String(s)) => Some(JsonNode::Str(s)),
        Ok(Value::Array(a)) => Some(JsonNode::Array(a.iter().map(|x| x.to_string()).collect())),
        Ok(Value::Object(m)) => Some(
            JsonNode::Object(m.iter().map(|(k, x)| (k.clone(), x.to_string())).collect()),
        ),
        Err(_) => None,
    }
}

/// `j` is the value that `text` decodes to, reading at most `depth` levels
/// of arrays and objects: its top level is `node_of(text)`, and each item
/// or entry value is what that item's text decodes to, one level less deep.
pub open spec fn decodes_to(text: Seq<char>, depth: nat, j: JsonValue) -> bool
    decreases depth,
{
    match node_of(text) {
        None => false,
        Some(JsonNode::Null) => j is Null,
        Some(JsonNode::Bool(b)) => j == JsonValue::Bool(b),
        Some(JsonNode::Number) => j is Number,
        Some(JsonNode::Str(s)) => j is Str && j->Str_0@ == s@,
        Some(JsonNode::Array(ts)) => {
            &&& depth > 0
            &&& j is Array
            &&& j->Array_0.len() == ts.len()
            &&& forall|i: int|
                0 <= i < ts.len() ==> decodes_to(
                    #[trigger] ts@[i]@,
                    (depth - 1) as nat,
                    j->Array_0@[i],
                )
        },
        Some(JsonNode::Object(es)) => {
            &&& depth > 0
            &&& j is Object
            &&& j->Object_0.len() == es.len()
            &&& forall|i: int|
                0 <= i < es.len() ==> j->Object_0@[i].0@ == (#[trigger] es@[i]).0@
                    && decodes_to(es@[i].1@, (depth - 1) as nat, j->Object_0@[i].1)
        },
    }
}

/// `text` is JSON whose nesting, read at most `depth` levels deep, fits.
pub open spec fn decodable(text: Seq<char>, depth: nat) -> bool
    decreases depth,
{
    match node_of(text) {
        None => false,
        Some(JsonNode::Array(ts)) => depth > 0 && forall|i: int|
            0 <= i < ts.len() ==> decodable(#[trigger] ts@[i]@, (depth - 1) as nat),
        Some(JsonNode::Object(es)) => depth > 0 && forall|i: int|
            0 <= i < es.len() ==> decodable((#[trigger] es@[i]).1@, (depth - 1) as nat),
        Some(_) => true,
    }
}

/// Decodes JSON text, reading at most `depth` levels of nesting.
fn decode_at(text: &str, depth: usize) -> (r: Result<JsonValue, ParseError>)
    ensures
        match r {
            Ok(j) => decodes_to(text@, depth as nat, j),
            Err(x) => x == ParseError::SyntaxError && !decodable(text@, depth as nat),
        },
    decreases depth,
{
    match decode_node(text) {
        None => Err(ParseError::SyntaxError),
        Some(JsonNode::Null) => Ok(JsonValue::Null),
        Some(JsonNode::Bool(b)) => Ok(JsonValue::Bool(b)),
        Some(JsonNode::Number) => Ok(JsonValue::Number),
        Some(JsonNode::Str(s)) => Ok(JsonValue::Str(s)),
        Some(JsonNode::Array(ts)) => {
            if depth == 0 {
                return Err(ParseError::SyntaxError);
            }
            let mut items: Vec<JsonValue> = Vec::new();
            let mut i: usize = 0;
            while i < ts.len()
                invariant
                    depth > 0,
                    node_of(text@) == Some(JsonNode::Array(ts)),
                    i <= ts.len(),
                    items.len() == i,
                    forall|m: int|
                        0 <= m < i ==> decodes_to(
                            #[trigger] ts@[m]@,
                            (depth - 1) as nat,
                            items@[m],
                        ),
                    forall|m: int|
                        0 <= m < i ==> decodable(#[trigger] ts@[m]@, (depth - 1) as nat),
                decreases ts.len() - i,
            {
                match decode_at(ts[i].as_str(), depth - 1) {
                    Ok(x) => items.push(x),
                    Err(x) => {
                        proof {
                            lemma_array_not_decodable(text@, depth as nat, ts, i as int);
                        }
                        return Err(x);
                    },
                }
                proof {
                    lemma_decodes_to_decodable(ts@[i as int]@, (depth - 1) as nat, items@[i as int]);
                }
                i = i + 1;
            }
            Ok(JsonValue::Array(items))
        },
        Some(JsonNode::Object(es)) => {
            if depth == 0 {
                return Err(ParseError::SyntaxError);
            }
            let mut entries: Vec<(String, JsonValue)> = Vec::new();
            let mut i: usize = 0;
            while i < es.len()
                invariant
                    depth > 0,
                    node_of(text@) == Some(JsonNode::Object(es)),
                    i <= es.len(),
                    entries.len() == i,
                    forall|m: int|
                        0 <= m < i ==> entries@[m].0@ == (#[trigger] es@[m]).0@
                            && decodes_to(es@[m].1@, (depth - 1) as nat, entries@[m].1),
                    forall|m: int|
                        0 <= m < i ==> decodable((#[trigger] es@[m]).1@, (depth - 1) as nat),
                decreases es.len() - i,
            {
                match decode_at(es[i].1.as_str(), depth - 1) {
                    Ok(x) => {
                        proof {
                            lemma_decodes_to_decodable(es@[i as int].1@, (depth - 1) as nat, x);
                        }
                        entries.push((es[i].0.clone(), x));
                    },
                    Err(x) => {
                        proof {
                            lemma_object_not_decodable(text@, depth as nat, es, i as int);
                        }
                        return Err(x);
                    },
                }
                i = i + 1;
            }
            Ok(JsonValue::Object(entries))
        },
    }
}

/// An array with an item that does not decode does not decode.
proof fn lemma_array_not_decodable(text: Seq<char>, depth: nat, ts: Vec<String>, i: int)
    requires
        node_of(text) == Some(JsonNode::Array(ts)),
        0 <= i < ts.len(),
        !decodable(ts@[i]@, (depth - 1) as nat),
    ensures
        !decodable(text, depth),
{
    match node_of(text) {
        Some(JsonNode::Array(us)) => {
            assert(us == ts);
            assert(us@[i]@ == ts@[i]@);
        },
        _ => {},
    }
}

/// An object with an entry value that does not decode does not decode.
proof fn lemma_object_not_decodable(
    text: Seq<char>,
    depth: nat,
    es: Vec<(String, String)>,
    i: int,
)
    requires
        node_of(text) == Some(JsonNode::Object(es)),
        0 <= i < es.len(),
        !decodable(es@[i].1@, (depth - 1) as nat),
    ensures
        !decodable(text, depth),
{
    match node_of(text) {
        Some(JsonNode::Object(fs)) => {
            assert(fs == es);
            assert(fs@[i].1@ == es@[i].1@);
        },
        _ => {},
    }
}

/// A text that decodes to some value is decodable.
proof fn lemma_decodes_to_decodable(text: Seq<char>, depth: nat, j: JsonValue)
    requires
        decodes_to(text, depth, j),
    ensures
        decodable(text, depth),
    decreases depth,
{
    match node_of(text) {
        Some(JsonNode::Array(ts)) => {
            assert forall|i: int| 0 <= i < ts.len() implies decodable(
                #[trigger] ts@[i]@,
                (depth - 1) as nat,
            ) by {
                lemma_decodes_to_decodable(ts@[i]@, (depth - 1) as nat, j->Array_0@[i]);
            }
        },
        Some(JsonNode::Object(es)) => {
            assert forall|i: int| 0 <= i < es.len() implies decodable(
                (#[trigger] es@[i]).1@,
                (depth - 1) as nat,
            ) by {
                lemma_decodes_to_decodable(es@[i].1@, (depth - 1) as nat, j->Object_0@[i].1);
            }
        },
        _ => {},
    }
}

/// Decodes JSON text into a [`JsonValue`], reading as many levels of
/// nesting as the text has characters (each level takes at least one);
/// `SyntaxError` where the text is not JSON.
pub fn decode(text: &str) -> (r: Result<JsonValue, ParseError>)
    ensures
        match r {
            Ok(j) => decodes_to(text@, text@.len(), j),
            Err(x) => x == ParseError::SyntaxError && !decodable(text@, text@.len()),
        },
{
    decode_at(text, text.unicode_len())
}

/// Parses a decoded value as a formula and renders it as SQL text.
///
/// Fails exactly where parsing fails; otherwise the text is that of the
/// tree the value stands for, which every such tree shares.
pub fn render_value(v: &JsonValue) -> (r: Result<String, ParseError>)
    ensures
        match r {
            Ok(s) => {
                &&& parse_error(*v) is None
                &&& exists|e: Expression| parses_to(*v, e)
                &&& forall|e: Expression| parses_to(*v, e) ==> s@ == sql_of(e)
            },
            Err(x) => parse_error(*v) == Some(x),
        },
{
    match parse(v) {
        Ok(e) => {
            let s = e.to_sql();
            assert(parses_to(*v, e));
            assert forall|e2: Expression| parses_to(*v, e2) implies s@ == sql_of(e2) by {
                lemma_parsed_sql_unique(*v, e, e2);
            }
            Ok(s)
        },
        Err(x) => Err(x),
    }
}

/// Translates JSON formula text into SQL text: decodes it, parses it and
/// renders it.
///
/// Text that does not decode fails with `SyntaxError`; otherwise the result
/// is that of [`render_value`] on the decoded value.
pub fn translate(text: &str) -> (r: Result<String, ParseError>)
    ensures
        !decodable(text@, text@.len()) ==> r == Err::<String, ParseError>(
            ParseError::SyntaxError,
        ),
        decodable(text@, text@.len()) ==> exists|j: JsonValue|
            {
                &&& decodes_to(text@, text@.len(), j)
                &&& match r {
                    Ok(s) => {
                        &&& parse_error(j) is None
                        &&& forall|e: Expression| parses_to(j, e) ==> s@ == sql_of(e)
                    },
                    Err(x) => parse_error(j) == Some(x),
                }
            },
{
    match decode(text) {
        Ok(j) => {
            proof {
                lemma_decodes_to_decodable(text@, text@.len(), j);
            }
            render_value(&j)
        },
        Err(x) => Err(x),
    }
}

} // verus!
