//! Reading and writing JSON.
use vstd::prelude::*;

use crate::sorting;
use crate::text;

verus! {

/// The error of the JSON parser.
#[verifier::external_type_specification]
#[verifier::external_body]
pub struct ExJsonError(serde_json::Error);

/// The text in the field `key` of the object that `json` writes: `None` if `json` is no JSON, and
/// `Some(None)` if it holds no text there.
pub uninterp spec fn json_text_field_of(json: Seq<char>, key: Seq<char>) -> Option<
    Option<Seq<char>>,
>;

/// The number in the field `key` of the object that `json` writes, as the bit pattern of a double:
/// `None` if `json` is no JSON, and `Some(None)` if it holds no number there.
pub uninterp spec fn json_number_field_of(json: Seq<char>, key: Seq<char>) -> Option<Option<u64>>;

/// Reads a text field with `serde_json::from_str`, `Value::get` and `Value::as_str`; the result is
/// named, not spelled out.
#[verifier::external_body]
pub(crate) fn json_text_field(json: &str, key: &str) -> (r: Result<
    Option<String>,
    serde_json::Error,
>)
    ensures
        match r {
            Ok(Some(s)) => json_text_field_of(json@, key@) == Some(Some(s@)),
            Ok(None) => json_text_field_of(json@, key@) == Some(None::<Seq<char>>),
            Err(_) => json_text_field_of(json@, key@) is None,
        },
{
    let value: serde_json::Value = serde_json::from_str(json)?;
    Ok(value.get(key).and_then(|v| v.as_str()).map(|s| s.to_string()))
}

/// Reads a number field with `serde_json::from_str`, `Value::get` and `Value::as_f64`; the result
/// is named, not spelled out.
#[verifier::external_body]
pub(crate) fn json_number_field(json: &str, key: &str) -> (r: Result<
    Option<u64>,
    serde_json::Error,
>)
    ensures
        match r {
            Ok(bits) => json_number_field_of(json@, key@) == Some(bits),
            Err(_) => json_number_field_of(json@, key@) is None,
        },
{
    let value: serde_json::Value = serde_json::from_str(json)?;
    Ok(value.get(key).and_then(|v| v.as_f64()).map(|x| x.to_bits()))
}

/// Whether the object that `json` writes has a field `key`; `None` if `json` is no JSON.
pub uninterp spec fn json_has_field_of(json: Seq<char>, key: Seq<char>) -> Option<bool>;

/// Looks for a field with `serde_json::from_str` and `Value::get`; the result is named, not
/// spelled out.
#[verifier::external_body]
pub(crate) fn json_has_field(json: &str, key: &str) -> (r: Result<bool, serde_json::Error>)
    ensures
        match r {
            Ok(b) => json_has_field_of(json@, key@) == Some(b),
            Err(_) => json_has_field_of(json@, key@) is None,
        },
{
    let value: serde_json::Value = serde_json::from_str(json)?;
    Ok(value.get(key).is_some())
}

/// A character within a JSON text.
pub open spec fn json_escaped(c: char) -> Seq<char> {
    if c == '"' || c == '\\' {
        seq!['\\', c]
    } else if c as u32 == 8 {
        seq!['\\', 'b']
    } else if c == '\t' {
        seq!['\\', 't']
    } else if c == '\n' {
        seq!['\\', 'n']
    } else if c as u32 == 12 {
        seq!['\\', 'f']
    } else if c == '\r' {
        seq!['\\', 'r']
    } else if (c as u32) < 32 {
        seq!['\\', 'u', '0', '0'] + seq![
            text::hex_char(c as nat / 16),
            text::hex_char(c as nat % 16),
        ]
    } else {
        seq![c]
    }
}

/// Characters within a JSON text.
pub open spec fn json_escaped_all(s: Seq<char>) -> Seq<char>
    decreases s.len(),
{
    if s.len() == 0 {
        Seq::empty()
    } else {
        json_escaped_all(s.drop_last()) + json_escaped(s.last())
    }
}

/// `s` as a JSON text: between quotation marks, with those, backslashes and control characters
/// escaped.
pub open spec fn json_quoted_of(s: Seq<char>) -> Seq<char> {
    seq!['"'] + json_escaped_all(s) + seq!['"']
}

/// Quotes a text with `serde_json::Value::from` and prints it: between quotation marks, with a
/// backslash before quotation marks and backslashes, the five control characters that have a
/// letter by that letter, the others by four lower-case hexadecimal digits, and all else as it is.
#[verifier::external_body]
pub(crate) fn json_quoted(s: &str) -> (r: String)
    ensures
        r@ == json_quoted_of(s@),
{
    serde_json::Value::from(s).to_string()
}

/// A field of a JSON object: its name, and its value as JSON.
#[derive(Debug, Clone, PartialEq, Eq)]
pub struct JsonField {
    pub name: String,
    pub value: String,
}

#[verifier::ext_equal]
pub struct JsonFieldView {
    pub name: Seq<char>,
    pub value: Seq<char>,
}

impl View for JsonField {
    type V = JsonFieldView;

    open spec fn view(&self) -> JsonFieldView {
        JsonFieldView { name: self.name@, value: self.value@ }
    }
}

/// The JSON object with these fields; `None` if a value is no JSON.
pub uninterp spec fn json_object_of(fields: Seq<JsonFieldView>) -> Option<Seq<char>>;

/// Prints an object with `serde_json::Map` and `serde_json::Value`; the result is named, not
/// spelled out.
#[verifier::external_body]
pub(crate) fn json_object(fields: &Vec<JsonField>) -> (r: Result<String, serde_json::Error>)
    ensures
        match r {
            Ok(s) => json_object_of(sorting::views(fields@)) == Some(s@),
            Err(_) => json_object_of(sorting::views(fields@)) is None,
        },
{
    let parse = |f: &JsonField| -> Result<(String, serde_json::Value), serde_json::Error> {
        Ok((f.name.clone(), serde_json::from_str(&f.value)?))
    };
    let map: Result<serde_json::Map<String, serde_json::Value>, serde_json::Error> = fields
        .iter()
        .map(parse)
        .collect();
    Ok(serde_json::Value::Object(map?).to_string())
}

/// What a value of JSON holds: numbers as they print, and the members of an object in its order.
pub enum JsonView {
    Null,
    Bool(bool),
    Number(Seq<char>),
    Text(Seq<char>),
    List(Seq<JsonView>),
    Object(Seq<(Seq<char>, JsonView)>),
}

/// A value of JSON.
#[verifier::external_type_specification]
#[verifier::external_body]
pub struct ExJsonValue(serde_json::Value);

/// What a value of JSON holds.
pub uninterp spec fn json_contents(v: serde_json::Value) -> JsonView;

/// What values of JSON hold.
pub open spec fn all_contents(values: Seq<serde_json::Value>) -> Seq<JsonView> {
    Seq::new(values.len(), |i: int| json_contents(values[i]))
}

/// Members with these names that hold these values.
pub open spec fn members(names: Seq<Seq<char>>, values: Seq<JsonView>) -> Seq<
    (Seq<char>, JsonView),
> {
    Seq::new(values.len(), |i: int| (names[i], values[i]))
}

/// The value that a text writes; `None` if it is no JSON.
pub uninterp spec fn json_tree_of(json: Seq<char>) -> Option<JsonView>;

/// Parses a text with `serde_json::from_str`; what the value holds is named, not spelled out.
#[verifier::external_body]
pub(crate) fn parse_json(json: &str) -> (r: Result<serde_json::Value, serde_json::Error>)
    ensures
        match r {
            Ok(v) => json_tree_of(json@) == Some(json_contents(v)),
            Err(_) => json_tree_of(json@) is None,
        },
{
    serde_json::from_str(json)
}

/// What a value with the contents `j` is printed as over several lines; `None` if it cannot be.
pub uninterp spec fn json_pretty_of(j: JsonView) -> Option<Seq<char>>;

/// Prints a value over several lines with `serde_json::to_string_pretty`; the result is named, not
/// spelled out.
#[verifier::external_body]
pub(crate) fn pretty_json(v: &serde_json::Value) -> (r: Result<String, serde_json::Error>)
    ensures
        match r {
            Ok(s) => json_pretty_of(json_contents(*v)) == Some(s@),
            Err(_) => json_pretty_of(json_contents(*v)) is None,
        },
{
    serde_json::to_string_pretty(v)
}

/// The parts of a value of JSON.
pub enum JsonParts {
    Text(String),
    List(Vec<serde_json::Value>),
    /// The names of the members, and their values in the same order.
    Object(Vec<String>, Vec<serde_json::Value>),
    /// Something that has no parts.
    Leaf,
}

/// A value with the contents `j` has these parts.
pub open spec fn are_parts(j: JsonView, parts: JsonParts) -> bool {
    match parts {
        JsonParts::Text(s) => j == JsonView::Text(s@),
        JsonParts::List(items) => j == JsonView::List(all_contents(items@)),
        JsonParts::Object(names, values) => names@.len() == values@.len() && j == JsonView::Object(
            members(sorting::views(names@), all_contents(values@)),
        ),
        JsonParts::Leaf => !(j is Text) && !(j is List) && !(j is Object),
    }
}

/// Copies the parts of a `serde_json::Value`: a text, the items of a list, or the names and values
/// of an object in its order.
#[verifier::external_body]
pub(crate) fn parts_of(v: &serde_json::Value) -> (r: JsonParts)
    ensures
        are_parts(json_contents(*v), r),
{
    match v {
        serde_json::Value::String(s) => JsonParts::Text(s.clone()),
        serde_json::Value::Array(items) => JsonParts::List(items.clone()),
        serde_json::Value::Object(map) => {
            JsonParts::Object(map.keys().cloned().collect(), map.values().cloned().collect())
        },
        _ => JsonParts::Leaf,
    }
}

/// Turns a text into a value with `serde_json::Value::from`.
#[verifier::external_body]
pub(crate) fn text_value(s: &str) -> (r: serde_json::Value)
    ensures
        json_contents(r) == JsonView::Text(s@),
{
    serde_json::Value::from(s)
}

/// Turns items into a value with `serde_json::Value::from`.
#[verifier::external_body]
pub(crate) fn list_value(items: Vec<serde_json::Value>) -> (r: serde_json::Value)
    ensures
        json_contents(r) == JsonView::List(all_contents(items@)),
{
    serde_json::Value::from(items)
}

/// Gives the members of an object other values, one after the other, with
/// `serde_json::Map::values_mut`: the names and their order stay.
#[verifier::external_body]
pub(crate) fn with_values(v: serde_json::Value, values: Vec<serde_json::Value>) -> (r: serde_json::Value)
    requires
        json_contents(v) is Object,
        json_contents(v)->Object_0.len() == values@.len(),
    ensures
        json_contents(r) == JsonView::Object(
            Seq::new(
                values@.len(),
                |i: int| (json_contents(v)->Object_0[i].0, json_contents(values@[i])),
            ),
        ),
{
    let mut v = v;
    if let Some(map) = v.as_object_mut() {
        map.values_mut().zip(values).for_each(|(place, value)| *place = value);
    }
    v
}

} // verus!
