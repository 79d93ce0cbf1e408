//! The export format: a JSON document holding either an array of message
//! records or one lone record.

use vstd::prelude::*;

verus! {

/// A JSON document by its top-level kind; the array's items and the lone
/// object are kept as JSON texts.
#[derive(Debug)]
pub enum JsonDocument {
    Array(Vec<String>),
    Object(String),
    Other,
}

/// The kind of a document (0 for an array, 1 for an object, 2 for any other
/// value) and the JSON texts of its records.
pub open spec fn document_view(d: JsonDocument) -> (nat, Seq<Seq<char>>) {
    match d {
        JsonDocument::Array(items) => (0, items@.map_values(|s: String| s@)),
        JsonDocument::Object(o) => (1, seq![o@]),
        JsonDocument::Other => (2, seq![]),
    }
}

/// What `serde_json` reads from `text` as a `Value`, by the view above, with
/// each item written back as JSON text; `None` when `text` is not JSON.
pub uninterp spec fn json_document(text: Seq<char>) -> Option<(nat, Seq<Seq<char>>)>;

/// Calls `serde_json::from_str::<Value>` and tells the value's kinds apart:
/// an array's items and a lone object are written back with
/// `Value::to_string`. The result is named, not spelled out.
#[verifier::external_body]
fn parse_json_document(text: &str) -> (r: Option<JsonDocument>)
    ensures
        match r {
            Some(d) => json_document(text@) == Some(document_view(d)),
            None => json_document(text@) is None,
        },
{
    match serde_json::from_str::<serde_json::Value>(text) {
        Ok(serde_json::Value::Array(items)) => Some(
            JsonDocument::Array(items.iter().map(|v| v.to_string()).collect()),
        ),
        Ok(serde_json::Value::Object(map)) => Some(
            JsonDocument::Object(serde_json::Value::Object(map).to_string()),
        ),
        Ok(_) => Some(JsonDocument::Other),
        Err(_) => None,
    }
}

/// Why an export file could not be read as records.
#[derive(Clone, Copy, Debug, PartialEq, Eq, Structural)]
pub enum ExportError {
    /// The file is not JSON.
    NotJson,
    /// The file holds JSON that is neither an array nor an object.
    NotArrayOrObject,
}

/// The records of an export document: an array's items, or a lone object as
/// the only record; any other document is refused.
pub open spec fn export_items(doc: Option<(nat, Seq<Seq<char>>)>) -> Result<
    Seq<Seq<char>>,
    ExportError,
> {
    match doc {
        None => Err(ExportError::NotJson),
        Some(d) => if d.0 == 2 {
            Err(ExportError::NotArrayOrObject)
        } else {
            Ok(d.1)
        },
    }
}

/// The views of a list of texts.
pub open spec fn texts_view(v: Seq<String>) -> Seq<Seq<char>> {
    v.map_values(|s: String| s@)
}

/// A lone object reads as an array holding that object alone.
pub proof fn lemma_object_is_one_record_array(object: Seq<char>)
    ensures
        export_items(Some((1, seq![object]))) == export_items(Some((0, seq![object]))),
        export_items(Some((1, seq![object]))) == Ok::<Seq<Seq<char>>, ExportError>(seq![object]),
{
}

/// The JSON texts of the records of one export file.
pub fn export_values(text: &str) -> (r: Result<Vec<String>, ExportError>)
    ensures
        match export_items(json_document(text@)) {
            Ok(items) => r matches Ok(v) && texts_view(v@) == items,
            Err(e) => r == Err::<Vec<String>, ExportError>(e),
        },
{
    match parse_json_document(text) {
        None => Err(ExportError::NotJson),
        Some(JsonDocument::Array(items)) => Ok(items),
        Some(JsonDocument::Object(o)) => {
            let mut v: Vec<String> = Vec::new();
            v.push(o);
            assert(texts_view(v@) =~= seq![v@[0]@]);
            Ok(v)
        },
        Some(JsonDocument::Other) => Err(ExportError::NotArrayOrObject),
    }
}

} // verus!
