//! The text forms of a value tree, which `serde_json` writes.

use vstd::prelude::*;
use crate::value::{ResponseValue, Tree};

verus! {

#[verifier::external_type_specification]
#[verifier::external_body]
pub struct ExJsonValue(serde_json::Value);

/// The tree that a `serde_json::Value` holds: its members by key, its items
/// in order, each number by the text that is written for it.
pub uninterp spec fn json_tree(j: serde_json::Value) -> Tree;

/// The text that `serde_json::to_string_pretty` writes for a tree.
pub uninterp spec fn pretty_text(t: Tree) -> Seq<char>;

/// The text that `serde_json::to_string` writes for a tree.
pub uninterp spec fn compact_text(t: Tree) -> Seq<char>;

/// Builds the `serde_json::Value` with the same content, variant by variant.
/// `Map::insert` updates the value of a key that is already there, so the
/// members go in from the last to the first and, of two with one key, the
/// first one stays, as in the tree's model.
#[verifier::external_body]
pub(crate) fn to_json(v: &ResponseValue) -> (j: serde_json::Value)
    ensures
        json_tree(j) == v@,
{
    match v {
        ResponseValue::Null => serde_json::Value::Null,
        ResponseValue::Bool(b) => serde_json::Value::Bool(*b),
        ResponseValue::Number(n) => serde_json::Value::Number(n.clone()),
        ResponseValue::Text(s) => serde_json::Value::String(s.clone()),
        ResponseValue::Array(a) => serde_json::Value::Array(a.iter().map(to_json).collect()),
        ResponseValue::Object(o) => {
            let mut m = serde_json::Map::new();
            for (k, x) in o.iter().rev() {
                m.insert(k.clone(), to_json(x));
            }
            serde_json::Value::Object(m)
        },
    }
}

/// Reads a `serde_json::Value` into a tree with the same content, variant
/// by variant; the members come in the order of the map, each key once.
#[verifier::external_body]
pub(crate) fn from_json(j: &serde_json::Value) -> (v: ResponseValue)
    ensures
        v@ == json_tree(*j),
{
    match j {
        serde_json::Value::Null => ResponseValue::Null,
        serde_json::Value::Bool(b) => ResponseValue::Bool(*b),
        serde_json::Value::Number(n) => ResponseValue::Number(n.clone()),
        serde_json::Value::String(s) => ResponseValue::Text(s.clone()),
        serde_json::Value::Array(a) => ResponseValue::Array(a.iter().map(from_json).collect()),
        serde_json::Value::Object(o) => ResponseValue::Object(
            o.iter().map(|(k, x)| (k.clone(), from_json(x))).collect(),
        ),
    }
}

/// `serde_json::to_string_pretty` on a `Value`: the indented text. Writing a
/// `Value` into memory has no error to give, so the text is always there;
/// the contract gives it its name.
#[verifier::external_body]
pub(crate) fn json_pretty(j: &serde_json::Value) -> (text: String)
    ensures
        text@ == pretty_text(json_tree(*j)),
{
    serde_json::to_string_pretty(j).unwrap_or_default()
}

/// `serde_json::to_string` on a `Value`: the text on one line. Writing a
/// `Value` into memory has no error to give, so the text is always there;
/// the contract gives it its name.
#[verifier::external_body]
pub(crate) fn json_compact(j: &serde_json::Value) -> (text: String)
    ensures
        text@ == compact_text(json_tree(*j)),
{
    serde_json::to_string(j).unwrap_or_default()
}

impl ResponseValue {
    /// The indented text of the tree, members in the order of their keys.
    pub fn to_pretty_text(&self) -> (text: String)
        ensures
            text@ == pretty_text(self@),
    {
        let j = to_json(self);
        json_pretty(&j)
    }

    /// The text of the tree on one line, members in the order of their keys.
    pub fn to_compact_text(&self) -> (text: String)
        ensures
            text@ == compact_text(self@),
    {
        let j = to_json(self);
        json_compact(&j)
    }
}

} // verus!
