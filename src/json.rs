//! The part of a parsed JSON document that the loader reads: whether the top
//! level is an object, and if so its entries in source order, each with its
//! key and, where the value is a JSON string, that string.

use vstd::prelude::*;

verus! {

#[verifier::external_type_specification]
#[verifier::external_body]
pub struct ExJsonError(serde_json::Error);

/// What one object entry is seen as: its key, and its value when that is a string.
pub type EntryView = (Seq<char>, Option<Seq<char>>);

/// One entry of a top-level JSON object.
pub struct JsonEntry {
    pub key: String,
    /// The value, when it is a JSON string; `None` for any other kind of value.
    pub text: Option<String>,
}

impl View for JsonEntry {
    type V = EntryView;

    open spec fn view(&self) -> EntryView {
        (self.key@, match self.text {
            Some(s) => Some(s@),
            None => None,
        })
    }
}

/// The top level of a JSON document.
pub enum JsonTop {
    /// An object, with its entries in the order the document lists them.
    Object(Vec<JsonEntry>),
    /// Any other kind of value.
    NotObject,
}

impl View for JsonTop {
    type V = Option<Seq<EntryView>>;

    open spec fn view(&self) -> Option<Seq<EntryView>> {
        match self {
            JsonTop::Object(entries) => Some(entries@.map_values(|e: JsonEntry| e@)),
            JsonTop::NotObject => None,
        }
    }
}

/// What serde_json makes of the given bytes: `None` when they are not one
/// well-formed JSON document, else the view of its top level.
pub uninterp spec fn json_document(bytes: Seq<u8>) -> Option<Option<Seq<EntryView>>>;

/// Relies on `serde_json::from_slice::<serde_json::Value>`, built with the
/// `preserve_order` feature: it either fails or yields a value that depends on
/// the bytes alone, whose object entries keep the order of the document.
#[verifier::external_body]
pub(crate) fn parse_json(bytes: &[u8]) -> (r: Result<JsonTop, serde_json::Error>)
    ensures
        match r {
            Ok(top) => json_document(bytes@) == Some(top@),
            Err(_) => json_document(bytes@) is None,
        },
{
    match serde_json::from_slice::<serde_json::Value>(bytes) {
        Ok(serde_json::Value::Object(m)) => Ok(JsonTop::Object(
            m.into_iter().map(|(key, v)| JsonEntry {
                key,
                text: match v {
                    serde_json::Value::String(s) => Some(s),
                    _ => None,
                },
            }).collect(),
        )),
        Ok(_) => Ok(JsonTop::NotObject),
        Err(e) => Err(e),
    }
}

} // verus!
