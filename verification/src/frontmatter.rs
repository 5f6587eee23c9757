//! YAML above the body of a markdown file.

use gray_matter::engine::YAML;
use gray_matter::{Matter, Pod};
use vstd::prelude::*;

use crate::json::{Field, FieldView, Row};

verus! {

/// The YAML text that `serde_yaml` writes for a mapping, where it can be written.
pub uninterp spec fn mapping_yaml(row: Seq<(Seq<char>, FieldView)>) -> Option<Seq<char>>;

/// `serde_yaml::to_string` writes a value as YAML. The value is a mapping from the
/// keys of `row` to what stands under them, in order; whether it can be written, and
/// as what text, is a function of `row` alone.
#[verifier::external_body]
pub(crate) fn mapping_text(row: &Row) -> (yaml: Option<String>)
    ensures
        yaml.deep_view() == mapping_yaml(row.deep_view()),
{
    let value = |field: &Field| match field {
        Field::Null => serde_yaml::Value::Null,
        Field::Flag(b) => serde_yaml::Value::from(*b),
        Field::Count(n) => serde_yaml::Value::from(*n),
        Field::Text(t) => serde_yaml::Value::from(t.clone()),
        Field::Texts(ts) => serde_yaml::Value::from(ts.clone()),
    };
    let key = |k: &String| serde_yaml::Value::from(k.clone());
    let mapping: serde_yaml::Mapping = row.iter().map(|(k, f)| (key(k), value(f))).collect();
    serde_yaml::to_string(&mapping).ok()
}

/// The text that stands under `key` in the YAML at the head of `content`, as
/// `gray_matter` reads it; none where the head is missing or unreadable, or where
/// something else than text stands there.
pub uninterp spec fn head_text(content: Seq<char>, key: Seq<char>) -> Option<Seq<char>>;

/// `gray_matter::Matter::parse` reads the YAML at the head of a document. What text
/// stands under `key` there is a function of the document and the key.
#[verifier::external_body]
pub(crate) fn front_matter_text(content: &str, key: &str) -> (text: Option<String>)
    ensures
        text.deep_view() == head_text(content@, key@),
{
    let parsed = Matter::<YAML>::new().parse::<Pod>(content).ok()?;
    match parsed.data? {
        Pod::Hash(map) => match map.get(key)? {
            Pod::String(text) => Some(text.clone()),
            _ => None,
        },
        _ => None,
    }
}

} // verus!
