//! The YAML tree of a translation file, as parsed by `serde_yaml`.

use vstd::prelude::*;

verus! {

#[verifier::external_type_specification]
#[verifier::external_body]
pub struct ExYamlValue(serde_yaml::Value);

/// What translation loading reads of a YAML document.
#[derive(Debug)]
pub enum YamlValue {
    /// A mapping: each key as a string (`None` when the key is not a string),
    /// with its value, in document order.
    Mapping(Vec<(Option<String>, YamlValue)>),
    /// A string value.
    String(String),
    /// Any other value, as its debug text.
    Other(String),
}

/// The tree that `serde_yaml` parses from a document, or the text of its
/// error where the document is not valid YAML.
pub uninterp spec fn yaml_document(source: Seq<char>) -> Result<YamlValue, Seq<char>>;

/// Parses a YAML document.
///
/// Calls `serde_yaml::from_str` into a `serde_yaml::Value`, and on failure
/// `Display` of the `serde_yaml::Error`; the contract names the result: the
/// same document always gives the same tree, or the same error text.
#[verifier::external_body]
pub(crate) fn parse_yaml(source: &str) -> (r: Result<YamlValue, String>)
    ensures
        match yaml_document(source@) {
            Ok(t) => r matches Ok(v) && v == t,
            Err(m) => r matches Err(e) && e@ == m,
        },
{
    match serde_yaml::from_str::<serde_yaml::Value>(source) {
        Ok(v) => Ok(yaml_value_of(&v)),
        Err(e) => Err(e.to_string()),
    }
}

/// Converts a `serde_yaml::Value` one for one: a mapping's keys through
/// `Value::as_str`, a string as is, any other value as its `Debug` text.
#[verifier::external_body]
fn yaml_value_of(v: &serde_yaml::Value) -> YamlValue {
    match v {
        serde_yaml::Value::Mapping(m) => YamlValue::Mapping(
            m.iter().map(|(k, v)| (k.as_str().map(|s| s.to_owned()), yaml_value_of(v))).collect(),
        ),
        serde_yaml::Value::String(s) => YamlValue::String(s.clone()),
        other => YamlValue::Other(format!("{other:?}")),
    }
}

} // verus!
