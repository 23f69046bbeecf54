//! Reading YAML text into a plain document tree.
//!
//! The outside parser turns text into its own dynamic value; the wrappers
//! below convert that value piecewise into the crate's own `Node` tree, on
//! which all document checking is verified code.

use vstd::prelude::*;

verus! {

#[verifier::external_type_specification]
#[verifier::external_body]
pub struct ExValue(serde_yaml::Value);

/// A YAML document tree of plain values.  Mapping keys are strings;
/// numbers are carried as their canonical decimal rendering.
#[derive(Debug)]
pub enum Node {
    Null,
    Bool(bool),
    /// A number, as the decimal text the parser renders it to.
    Number(String),
    Str(String),
    Sequence(Vec<Node>),
    Mapping(Vec<(String, Node)>),
}

/// Why YAML text could not be turned into a `Node` tree.
#[derive(Debug, Clone)]
pub enum YamlError {
    /// The text is not well-formed YAML; the parser's message.
    Syntax(String),
    /// The document nests deeper than the layout format can need.
    TooDeep,
    /// A mapping key is not a string.
    NonStringKey,
    /// A value of a kind the layout format never uses (a tagged value).
    Unsupported,
    /// A field name the format does not know; the whole document is
    /// rejected.
    UnknownField(String),
    /// A required field is absent.
    MissingField(String),
    /// A field holds a value of the wrong kind; the field's name.
    BadType(String),
    /// A mapping binds the same name twice; the name.
    DuplicateKey(String),
    /// A number the coordinate grammar cannot read; the field's name.
    BadNumber(String),
    /// A coordinate beyond the declared limit; the field's name.
    OutOfRange(String),
}

/// Relies on `serde_yaml::from_str::<Value>`: parses YAML text into the
/// parser's dynamic value, or fails on malformed text with the parser's
/// message.
#[verifier::external_body]
fn yaml_from_str(s: &str) -> Result<serde_yaml::Value, String> {
    serde_yaml::from_str(s).map_err(|e| format!("{}", e))
}

/// Relies on `Value::is_null`.
#[verifier::external_body]
fn yaml_is_null(v: &serde_yaml::Value) -> bool {
    v.is_null()
}

/// Relies on `Value::as_bool`: the payload, if the value is a boolean.
#[verifier::external_body]
fn yaml_as_bool(v: &serde_yaml::Value) -> Option<bool> {
    v.as_bool()
}

/// Relies on `Value::as_str`: the payload, if the value is a string.
#[verifier::external_body]
fn yaml_as_str(v: &serde_yaml::Value) -> Option<String> {
    v.as_str().map(String::from)
}

/// Relies on `Value::Number` and `Display for Number`: the number's
/// canonical decimal rendering, if the value is a number.
#[verifier::external_body]
fn yaml_number_string(v: &serde_yaml::Value) -> Option<String> {
    match v {
        serde_yaml::Value::Number(n) => Some(format!("{}", n)),
        _ => None,
    }
}

/// Relies on `Value::as_sequence`: the elements, if the value is a
/// sequence.
#[verifier::external_body]
fn yaml_seq_items(v: &serde_yaml::Value) -> Option<Vec<serde_yaml::Value>> {
    v.as_sequence().map(|s| s.clone())
}

/// Relies on `Value::as_mapping`: the entries in document order, if the
/// value is a mapping.
#[verifier::external_body]
fn yaml_map_entries(v: &serde_yaml::Value) -> Option<Vec<(serde_yaml::Value, serde_yaml::Value)>> {
    v.as_mapping().map(|m| m.iter().map(|(k, val)| (k.clone(), val.clone())).collect())
}

/// The deepest nesting the layout format can need, with headroom.
pub const MAX_DOCUMENT_DEPTH: u32 = 16;

/// Converts a parsed value into the crate's own tree, down to the given
/// depth.
fn node_from_value(v: &serde_yaml::Value, fuel: u32) -> (r: Result<Node, YamlError>)
    decreases fuel,
{
    if fuel == 0 {
        return Err(YamlError::TooDeep);
    }
    if yaml_is_null(v) {
        return Ok(Node::Null);
    }
    match yaml_as_bool(v) {
        Some(b) => {
            return Ok(Node::Bool(b));
        },
        None => {},
    }
    match yaml_as_str(v) {
        Some(s) => {
            return Ok(Node::Str(s));
        },
        None => {},
    }
    match yaml_number_string(v) {
        Some(s) => {
            return Ok(Node::Number(s));
        },
        None => {},
    }
    match yaml_seq_items(v) {
        Some(items) => {
            let mut out: Vec<Node> = Vec::new();
            let mut i: usize = 0;
            while i < items.len()
                invariant
                    fuel >= 1,
                decreases items@.len() - i,
            {
                match node_from_value(&items[i], fuel - 1) {
                    Ok(n) => out.push(n),
                    Err(e) => {
                        return Err(e);
                    },
                }
                i += 1;
            }
            return Ok(Node::Sequence(out));
        },
        None => {},
    }
    match yaml_map_entries(v) {
        Some(entries) => {
            let mut out: Vec<(String, Node)> = Vec::new();
            let mut i: usize = 0;
            while i < entries.len()
                invariant
                    fuel >= 1,
                decreases entries@.len() - i,
            {
                let key = match yaml_as_str(&entries[i].0) {
                    Some(k) => k,
                    None => {
                        return Err(YamlError::NonStringKey);
                    },
                };
                match node_from_value(&entries[i].1, fuel - 1) {
                    Ok(n) => out.push((key, n)),
                    Err(e) => {
                        return Err(e);
                    },
                }
                i += 1;
            }
            return Ok(Node::Mapping(out));
        },
        None => {},
    }
    Err(YamlError::Unsupported)
}

/// Parses YAML text into the crate's own tree.  What the tree holds for
/// given text is decided by the outside parser; every check against the
/// layout format happens afterwards, on the tree.
pub fn parse_yaml(text: &str) -> (r: Result<Node, YamlError>) {
    match yaml_from_str(text) {
        Ok(v) => node_from_value(&v, MAX_DOCUMENT_DEPTH),
        Err(message) => Err(YamlError::Syntax(message)),
    }
}

} // verus!
