//! JSON values, which the crate `serde_json` holds and writes.
//!
//! What `serde_json` writes for a value is not stated here: it has a name,
//! and the contracts speak of the name.

use vstd::prelude::*;

verus! {

/// The values of `serde_json`, of which nothing is seen here but through
/// `json_value`.
#[verifier::external_type_specification]
#[verifier::external_body]
pub struct ExJsonValue(serde_json::Value);

/// The maps of `serde_json`, of which nothing is seen here but through
/// `json_object`.
#[verifier::external_type_specification]
#[verifier::external_body]
#[verifier::reject_recursive_types(K)]
#[verifier::reject_recursive_types(V)]
pub struct ExJsonMap<K, V>(serde_json::Map<K, V>);

/// A map of `serde_json` from texts to values.
pub type JsonMap = serde_json::Map<String, serde_json::Value>;

/// What a JSON value holds.
pub ghost enum JsonView {
    /// The null value.
    Null,
    /// A boolean.
    Bool(bool),
    /// A number, as it is written.
    Number(Seq<char>),
    /// A text.
    String(Seq<char>),
    /// An array of values.
    Array(Seq<JsonView>),
    /// An object: a value for each of its keys.
    Object(Map<Seq<char>, JsonView>),
}

/// What a value of `serde_json` holds.
pub uninterp spec fn json_value(value: serde_json::Value) -> JsonView;

/// What a map of `serde_json` from texts to values holds: the value for
/// each of its keys.
pub uninterp spec fn json_object(map: JsonMap) -> Map<
    Seq<char>,
    JsonView,
>;

/// The text that `serde_json` writes for a value that holds `value`.
pub uninterp spec fn json_text(value: JsonView) -> Seq<char>;

/// What the values `values` hold, in order.
pub open spec fn json_values(values: Seq<serde_json::Value>) -> Seq<JsonView> {
    Seq::new(values.len(), |i: int| json_value(values[i]))
}

/// A map without entries.
///
/// Calls `Map::new` of `serde_json`, which makes an empty map.
#[verifier::external_body]
pub(crate) fn json_map_new() -> (object: JsonMap)
    ensures
        json_object(object) =~= Map::empty(),
{
    serde_json::Map::new()
}

/// Sets the value for the key `key` in `map` to `value`.
///
/// Calls `Map::insert` of `serde_json`, which adds the entry, or replaces
/// the value where the key is there already.
#[verifier::external_body]
pub(crate) fn json_map_insert(
    map: &mut JsonMap,
    key: String,
    value: serde_json::Value,
)
    ensures
        json_object(*final(map)) == json_object(*old(map)).insert(key@, json_value(value)),
{
    map.insert(key, value);
}

/// The value that is the text `text`.
///
/// Makes the variant `String` of `Value` of `serde_json`.
#[verifier::external_body]
pub(crate) fn json_string(text: String) -> (value: serde_json::Value)
    ensures
        json_value(value) == JsonView::String(text@),
{
    serde_json::Value::String(text)
}

/// The value that is the array of the values `values`.
///
/// Makes the variant `Array` of `Value` of `serde_json`.
#[verifier::external_body]
pub(crate) fn json_array(values: Vec<serde_json::Value>) -> (value: serde_json::Value)
    ensures
        json_value(value) == JsonView::Array(json_values(values@)),
{
    serde_json::Value::Array(values)
}

/// The value that is the object with the entries of `map`.
///
/// Makes the variant `Object` of `Value` of `serde_json`.
#[verifier::external_body]
pub(crate) fn json_object_value(map: JsonMap) -> (value:
    serde_json::Value)
    ensures
        json_value(value) == JsonView::Object(json_object(map)),
{
    serde_json::Value::Object(map)
}

/// Writes the value `value` as a text of JSON.
///
/// Calls `to_string` of `serde_json`, which fails only where a type fails
/// to serialize itself or a map has keys that are no texts: a `Value` does
/// neither, and it is written to memory. So there is a text, and it is the
/// named text for what the value holds.
#[verifier::external_body]
pub(crate) fn json_to_string(value: &serde_json::Value) -> (text: Option<String>)
    ensures
        text is Some,
        text matches Some(written) ==> written@ == json_text(json_value(*value)),
{
    serde_json::to_string(value).ok()
}

/// Sets the value for the key `key` in `map` to the text `value`.
pub fn json_map_set_string(
    map: &mut JsonMap,
    key: &str,
    value: &str,
)
    ensures
        json_object(*final(map)) == json_object(*old(map)).insert(
            key@,
            JsonView::String(value@),
        ),
{
    let key = String::from_str(key);
    let value = json_string(String::from_str(value));
    json_map_insert(map, key, value);
}

/// The array of the texts `texts`, in order.
pub open spec fn text_array(texts: Seq<Seq<char>>) -> JsonView {
    JsonView::Array(Seq::new(texts.len(), |i: int| JsonView::String(texts[i])))
}

/// The value that is the array of the texts `texts`.
pub fn json_text_array(texts: &Vec<String>) -> (value: serde_json::Value)
    ensures
        json_value(value) == text_array(crate::views::views(texts@)),
{
    let mut values: Vec<serde_json::Value> = Vec::new();
    let mut i: usize = 0;
    while i < texts.len()
        invariant
            i <= texts.len(),
            values.len() == i,
            forall|k: int| 0 <= k < i ==> json_value(#[trigger] values[k]) == JsonView::String(texts[k]@),
        decreases texts.len() - i,
    {
        values.push(json_string(texts[i].clone()));
        i = i + 1;
    }
    assert(json_values(values@) =~= Seq::new(
        texts.len() as nat,
        |i: int| JsonView::String(crate::views::views(texts@)[i]),
    ));
    json_array(values)
}

} // verus!
