//! JSON document model for response-body traversal.
//!
//! Path assertions descend a parsed JSON document by object keys and coerce
//! the final node to an authored `AxValue`. The library models a document as a
//! `JsonNode` holding exactly what that traversal reads: object entries and
//! the scalar leaves. Array contents are never read by key and numbers
//! outside `i64` never coerce, so both collapse to bare variants.

use vstd::prelude::*;

verus! {

/// A parsed JSON document as the path traversal sees it.
///
/// `BigNum` stands for any number that does not fit `i64` (including
/// fractional numbers); `Arr` stands for any array. Neither is readable by
/// a path, so their contents are not kept.
#[derive(Debug)]
pub enum JsonNode {
    Null,
    Bool(bool),
    Int(i64),
    BigNum,
    Str(String),
    Arr,
    Obj(Vec<(String, JsonNode)>),
}

/// What parsing a text as JSON yields: failure, or the document's node
/// tree. The result depends on the text alone.
pub uninterp spec fn json_of(s: Seq<char>) -> Option<JsonNode>;

/// serde_json's document type, opaque to the library: values of it only
/// pass from the parse call into the conversion below.
#[verifier::external_type_specification]
#[verifier::external_body]
pub struct ExJsonValue(serde_json::Value);

/// Relies on serde_json::Value: each variant maps to the library's node,
/// one arm each; serde_json::Number::as_i64 tells numbers that fit `i64`
/// from the rest. Called only from `parse_json`.
#[verifier::external_body]
fn node_of_json(v: &serde_json::Value) -> JsonNode {
    match v {
        serde_json::Value::Null => JsonNode::Null,
        serde_json::Value::Bool(b) => JsonNode::Bool(*b),
        serde_json::Value::Number(n) => match n.as_i64() {
            Some(i) => JsonNode::Int(i),
            None => JsonNode::BigNum,
        },
        serde_json::Value::String(s) => JsonNode::Str(s.clone()),
        serde_json::Value::Array(_) => JsonNode::Arr,
        serde_json::Value::Object(m) => JsonNode::Obj(
            m.iter().map(|(k, w)| (k.clone(), node_of_json(w))).collect(),
        ),
    }
}

/// Relies on serde_json::from_str: parsing a text as a JSON document. A
/// parse error yields nothing.
#[verifier::external_body]
pub fn parse_json(s: &str) -> (r: Option<JsonNode>)
    ensures
        r == json_of(s@),
{
    match serde_json::from_str::<serde_json::Value>(s) {
        Ok(v) => Some(node_of_json(&v)),
        Err(_) => None,
    }
}

/// Object-key lookup: the first entry with the given key, if any.
pub open spec fn spec_obj_get(entries: Seq<(String, JsonNode)>, key: Seq<char>) -> Option<
    JsonNode,
>
    decreases entries.len(),
{
    if entries.len() == 0 {
        None
    } else if entries[0].0@ == key {
        Some(entries[0].1)
    } else {
        spec_obj_get(entries.skip(1), key)
    }
}

/// Descent from a node through a chain of object keys: each step looks the
/// key up in an object node; any other node ends the descent with nothing.
pub open spec fn spec_descend(node: JsonNode, keys: Seq<Seq<char>>) -> Option<JsonNode>
    decreases keys.len(),
{
    if keys.len() == 0 {
        Some(node)
    } else {
        match node {
            JsonNode::Obj(entries) => match spec_obj_get(entries@, keys[0]) {
                Some(child) => spec_descend(child, keys.skip(1)),
                None => None,
            },
            _ => None,
        }
    }
}

/// Coercion of a final JSON node to an authored value: strings, numbers
/// that fit `i64` and booleans coerce; null, arrays, objects and
/// out-of-range numbers do not.
pub open spec fn spec_coerce(node: JsonNode) -> Option<crate::value::AxValue> {
    match node {
        JsonNode::Str(s) => Some(crate::value::AxValue::String(s)),
        JsonNode::Int(n) => Some(crate::value::AxValue::Number(n)),
        JsonNode::Bool(b) => Some(crate::value::AxValue::Bool(b)),
        _ => None,
    }
}

impl JsonNode {
    /// Looks a key up among an object node's entries, per `spec_obj_get`.
    fn obj_get<'a>(entries: &'a Vec<(String, JsonNode)>, key: &Vec<char>) -> (r: Option<
        &'a JsonNode,
    >)
        ensures
            match r {
                Some(child) => spec_obj_get(entries@, key@) == Some(*child),
                None => spec_obj_get(entries@, key@) is None,
            },
    {
        let mut i: usize = 0;
        proof {
            assert(entries@.skip(0) =~= entries@);
        }
        while i < entries.len()
            invariant
                i <= entries@.len(),
                spec_obj_get(entries@, key@) == spec_obj_get(entries@.skip(i as int), key@),
            decreases entries@.len() - i,
        {
            let found = crate::strutil::chars_eq_str(key, entries[i].0.as_str());
            proof {
                assert(entries@.skip(i as int)[0] == entries@[i as int]);
            }
            if found {
                return Some(&entries[i].1);
            }
            proof {
                assert(entries@.skip(i as int).skip(1) =~= entries@.skip(i + 1));
            }
            i = i + 1;
        }
        proof {
            assert(entries@.skip(i as int).len() == 0);
        }
        None
    }

    /// Descends through a chain of object keys, per `spec_descend`.
    pub fn descend<'a>(&'a self, keys: &Vec<Vec<char>>) -> (r: Option<&'a JsonNode>)
        ensures
            match r {
                Some(node) => spec_descend(*self, keys@.map_values(|k: Vec<char>| k@)) == Some(
                    *node,
                ),
                None => spec_descend(*self, keys@.map_values(|k: Vec<char>| k@)) is None,
            },
    {
        let ghost gkeys = keys@.map_values(|k: Vec<char>| k@);
        let mut node: &JsonNode = self;
        let mut i: usize = 0;
        proof {
            assert(gkeys.skip(0) =~= gkeys);
        }
        while i < keys.len()
            invariant
                i <= keys@.len(),
                gkeys == keys@.map_values(|k: Vec<char>| k@),
                spec_descend(*self, gkeys) == spec_descend(*node, gkeys.skip(i as int)),
            decreases keys@.len() - i,
        {
            proof {
                assert(gkeys.skip(i as int)[0] == gkeys[i as int]);
                assert(gkeys[i as int] == keys@[i as int]@);
            }
            match node {
                JsonNode::Obj(entries) => {
                    match Self::obj_get(entries, &keys[i]) {
                        Some(child) => {
                            proof {
                                assert(gkeys.skip(i as int).skip(1) =~= gkeys.skip(i + 1));
                            }
                            node = child;
                        },
                        None => {
                            return None;
                        },
                    }
                },
                _ => {
                    return None;
                },
            }
            i = i + 1;
        }
        proof {
            assert(gkeys.skip(i as int).len() == 0);
        }
        Some(node)
    }

    /// Coerces a final node to an authored value, per `spec_coerce`.
    pub fn coerce(&self) -> (r: Option<crate::value::AxValue>)
        ensures
            r == spec_coerce(*self),
    {
        match self {
            JsonNode::Str(s) => Some(crate::value::AxValue::String(s.clone())),
            JsonNode::Int(n) => Some(crate::value::AxValue::Number(*n)),
            JsonNode::Bool(b) => Some(crate::value::AxValue::Bool(*b)),
            _ => None,
        }
    }
}

} // verus!
