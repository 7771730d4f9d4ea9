//! JSON documents, through the `serde_json` crate: reading the string at a path, setting a
//! string under a key of an object, and writing a string as a JSON string literal.
use vstd::prelude::*;

use crate::strings::ostr;

verus! {

/// One step into a JSON value: the entry of an object under a key, or an element of an array.
#[derive(Debug, Clone)]
pub enum JsonStep {
    Key(String),
    Index(usize),
}

/// The meaning of a step.
pub enum JsonKey {
    Key(Seq<char>),
    Index(usize),
}

impl View for JsonStep {
    type V = JsonKey;

    open spec fn view(&self) -> JsonKey {
        match self {
            JsonStep::Key(k) => JsonKey::Key(k@),
            JsonStep::Index(i) => JsonKey::Index(*i),
        }
    }
}

/// The meaning of a path.
pub open spec fn path_view(p: Seq<JsonStep>) -> Seq<JsonKey> {
    Seq::new(p.len(), |i: int| p[i]@)
}

/// The string found by following `path` into the JSON document `body`: `None` when `body` is
/// not JSON, `Some(None)` when the path leads nowhere or to a value that is not a string.
pub uninterp spec fn json_string_at_spec(body: Seq<char>, path: Seq<JsonKey>) -> Option<
    Option<Seq<char>>,
>;

/// Follows `path` into the JSON document `body` and reads the string there.
/// Trusted: `serde_json::from_str::<serde_json::Value>` parses `body` (an error gives `None`);
/// `Value::get` with a key gives an object's entry and with a position an array's element (`None`
/// for a missing entry or a value of another kind; serde_json documents that it does not panic);
/// `Value::as_str` gives the text of a string value. Which text comes back is not stated beyond
/// naming it `json_string_at_spec`.
#[verifier::external_body]
pub(crate) fn json_string_at(body: &str, path: &[JsonStep]) -> (r: Option<Option<String>>)
    ensures
        r is None <==> json_string_at_spec(body@, path_view(path@)) is None,
        r matches Some(v) ==> json_string_at_spec(body@, path_view(path@)) == Some(ostr(v)),
{
    let value: serde_json::Value = match serde_json::from_str(body) {
        Ok(v) => v,
        Err(_) => return None,
    };
    let mut at = Some(&value);
    for step in path {
        at = match (at, step) {
            (Some(v), JsonStep::Key(k)) => v.get(k.as_str()),
            (Some(v), JsonStep::Index(i)) => v.get(*i),
            (None, _) => None,
        };
    }
    Some(at.and_then(serde_json::Value::as_str).map(String::from))
}

/// The JSON document `json` (`None`: no document, which counts as an empty object, as does a
/// text that is not JSON) with the string `value` stored under `key`, written out with
/// indentation; `None` when the document is JSON but neither an object nor `null`.
pub uninterp spec fn json_with_string_spec(json: Option<Seq<char>>, key: Seq<char>, value: Seq<char>) -> Option<
    Seq<char>,
>;

/// The JSON document `json` (`None`: no document) without the entry under `key`, written out
/// with indentation; a text that is not JSON counts as an empty object, and a value that is not
/// an object is written back unchanged.
pub uninterp spec fn json_without_key_spec(json: Option<Seq<char>>, key: Seq<char>) -> Seq<char>;

/// Stores `value` under `key` in a JSON document, keeping its other entries.
/// Trusted: the document is parsed with `serde_json::from_str::<serde_json::Value>` (no document
/// or a parse error gives an empty object); a value that is neither an object nor `null` gives
/// `None`, since serde_json's `IndexMut` panics on it; otherwise the string is stored with
/// `IndexMut` (which turns `null` into an empty object and replaces an entry with the same key);
/// `serde_json::to_string_pretty` writes the value (an error gives `None`). Reading
/// the written text back gives the stored string under `key`, since serde_json writes and parses
/// strings and objects losslessly. The text is otherwise not stated beyond naming it
/// `json_with_string_spec`.
#[verifier::external_body]
pub(crate) fn json_with_string(json: Option<&str>, key: &str, value: &str) -> (r: Option<String>)
    ensures
        r is None <==> json_with_string_spec(
            match json {
                Some(j) => Some(j@),
                None => None,
            },
            key@,
            value@,
        ) is None,
        r matches Some(t) ==> json_with_string_spec(
            match json {
                Some(j) => Some(j@),
                None => None,
            },
            key@,
            value@,
        ) == Some(t@),
        r matches Some(t) ==> json_string_at_spec(t@, seq![JsonKey::Key(key@)]) == Some(
            Some(value@),
        ),
{
    let mut doc: serde_json::Value = match json {
        Some(j) => serde_json::from_str(j).unwrap_or(serde_json::Value::Object(serde_json::Map::new())),
        None => serde_json::Value::Object(serde_json::Map::new()),
    };
    if !(doc.is_object() || doc.is_null()) {
        return None;
    }
    doc[key] = serde_json::Value::String(value.to_string());
    serde_json::to_string_pretty(&doc).ok()
}

/// Removes the entry under `key` from a JSON document, keeping the others.
/// Trusted: the document is parsed with `serde_json::from_str::<serde_json::Value>` (no document
/// or a parse error gives an empty object); from an object the entry is removed with
/// `Map::remove`; `serde_json::to_string_pretty` writes the value (an error gives an empty
/// text). The text is not stated beyond naming it `json_without_key_spec`.
#[verifier::external_body]
pub(crate) fn json_without_key(json: Option<&str>, key: &str) -> (r: String)
    ensures
        r@ == json_without_key_spec(
            match json {
                Some(j) => Some(j@),
                None => None,
            },
            key@,
        ),
{
    let mut doc: serde_json::Value = match json {
        Some(j) => serde_json::from_str(j).unwrap_or(serde_json::Value::Object(serde_json::Map::new())),
        None => serde_json::Value::Object(serde_json::Map::new()),
    };
    if let serde_json::Value::Object(m) = &mut doc {
        m.remove(key);
    }
    serde_json::to_string_pretty(&doc).unwrap_or_default()
}

/// `s` written as a JSON string literal: in double quotes, with escapes.
pub uninterp spec fn json_string_literal_spec(s: Seq<char>) -> Seq<char>;

/// Writes `s` as a JSON string literal.
/// Trusted: `serde_json::to_string` of a string slice, which writes it in double quotes with
/// `"`, `\` and control characters escaped (an error, which serde_json does not produce for a
/// string, gives an empty text). The text is not stated beyond naming it
/// `json_string_literal_spec`.
#[verifier::external_body]
pub(crate) fn json_string_literal(s: &str) -> (r: String)
    ensures
        r@ == json_string_literal_spec(s@),
{
    serde_json::to_string(s).unwrap_or_default()
}

} // verus!
