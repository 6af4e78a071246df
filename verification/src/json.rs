//! Reading and writing JSON text. Both are the JSON library's work; this
//! module converts between its values and the documents of this crate.

use vstd::prelude::*;
use crate::value::{JsonMap, JsonValue, Tree};

verus! {

/// The document that the JSON reader reads from a text: `null`, strings
/// and objects as such, any other value as the JSON text that the reader
/// writes for it; nothing where the text is not JSON.
pub uninterp spec fn json_document(content: Seq<char>) -> Option<Tree>;

/// A JSON value of the reader; nothing is known of its inside.
#[verifier::external_type_specification]
#[verifier::external_body]
pub struct ExJsonValue(serde_json::Value);

/// Converts a value of the JSON reader, variant by variant: `null`, a
/// string, an object entry by entry; any other value becomes the text that
/// `serde_json::Value::to_string` gives for it.
#[verifier::external_body]
fn value_of(value: serde_json::Value) -> JsonValue {
    match value {
        serde_json::Value::Null => JsonValue::Null,
        serde_json::Value::String(s) => JsonValue::Text(s),
        serde_json::Value::Object(m) => {
            let mut object = JsonMap::new();
            m.into_iter().for_each(|(k, v)| object.insert(k, value_of(v)));
            JsonValue::Object(object)
        },
        other => JsonValue::Literal(other.to_string()),
    }
}

/// Reads a document with `serde_json::from_str`.
#[verifier::external_body]
pub(crate) fn read_json(content: &str) -> (r: core::result::Result<JsonValue, serde_json::Error>)
    ensures
        match r {
            Ok(v) => json_document(content@) == Some(v@),
            Err(_) => json_document(content@) is None,
        },
{
    let value: serde_json::Value = serde_json::from_str(content)?;
    Ok(value_of(value))
}

/// The JSON text that the JSON library writes for a document: `null`, a
/// string and an object as such; a literal as the value that its text
/// reads as, or as a string where it reads as none.
pub uninterp spec fn json_text(document: Tree) -> Seq<char>;

/// Converts a document into a value of the JSON library, variant by
/// variant; the text of a literal is read with `serde_json::from_str`.
#[verifier::external_body]
fn json_value_of(value: &JsonValue) -> serde_json::Value {
    match value {
        JsonValue::Null => serde_json::Value::Null,
        JsonValue::Text(s) => serde_json::Value::String(s.clone()),
        JsonValue::Literal(text) => {
            serde_json::from_str(text).unwrap_or_else(|_| serde_json::Value::String(text.clone()))
        },
        JsonValue::Object(map) => serde_json::Value::Object(
            (0..map.len()).map(|i| (map.key_at(i).clone(), json_value_of(map.value_at(i)))).collect(),
        ),
    }
}

/// Writes a document as JSON text with `serde_json::Value::to_string`.
#[verifier::external_body]
pub(crate) fn write_json(value: &JsonValue) -> (r: String)
    ensures
        r@ == json_text(value@),
{
    json_value_of(value).to_string()
}

} // verus!
