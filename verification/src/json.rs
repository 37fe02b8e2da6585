//! JSON documents: the mathematical model, and the calls into `serde_json`
//! that build the values sent to the libpod API.
use crate::string_map::{entries_map, StringMap};
use crate::views::seq_view;
use vstd::prelude::*;

verus! {

/// What a JSON value holds, as far as the libpod API needs it.
#[verifier::ext_equal]
pub enum Json {
    Bool(bool),
    Number(nat),
    Text(Seq<char>),
    Array(Seq<Json>),
    Object(Map<Seq<char>, Json>),
}

/// `serde_json::Value`: a JSON value. What it holds is its [`document`].
#[verifier::external_type_specification]
#[verifier::external_body]
pub struct ExJsonValue(serde_json::Value);

/// `serde_json::Map`: the members of a JSON object. What it holds are its [`members`].
#[verifier::external_type_specification]
#[verifier::external_body]
#[verifier::reject_recursive_types(K)]
#[verifier::reject_recursive_types(V)]
pub struct ExJsonMap<K, V>(serde_json::Map<K, V>);

/// The document that a `serde_json::Value` holds.
pub uninterp spec fn document(value: serde_json::Value) -> Json;

/// The members that a `serde_json::Map` holds, each with the document of its value.
pub uninterp spec fn members(map: serde_json::Map<String, serde_json::Value>) -> Map<Seq<char>, Json>;

/// `serde_json::Value::from(&str)`: a JSON string with the same characters.
#[verifier::external_body]
pub(crate) fn text_value(text: &str) -> (value: serde_json::Value)
    ensures
        document(value) == Json::Text(text@),
{
    serde_json::Value::from(text)
}

/// `serde_json::Value::from(u64)`: a JSON number, the same integer.
#[verifier::external_body]
pub(crate) fn number_value(number: u64) -> (value: serde_json::Value)
    ensures
        document(value) == Json::Number(number as nat),
{
    serde_json::Value::from(number)
}

/// `serde_json::Value::from(bool)`: a JSON boolean, the same truth value.
#[verifier::external_body]
pub(crate) fn bool_value(flag: bool) -> (value: serde_json::Value)
    ensures
        document(value) == Json::Bool(flag),
{
    serde_json::Value::from(flag)
}

/// `serde_json::Value::from(Vec<Value>)`: a JSON array of the same values in the
/// same order.
#[verifier::external_body]
pub(crate) fn array_value(items: Vec<serde_json::Value>) -> (value: serde_json::Value)
    ensures
        document(value) == Json::Array(items@.map_values(|item: serde_json::Value| document(item))),
{
    serde_json::Value::from(items)
}

/// `serde_json::Map::new()`: a map without members.
#[verifier::external_body]
pub(crate) fn empty_map() -> (map: serde_json::Map<String, serde_json::Value>)
    ensures
        (members(map) == Map::<Seq<char>, Json>::empty()),
{
    serde_json::Map::new()
}

/// `serde_json::Map::insert`: the member under `key` becomes `value`, whether or
/// not there was one; the other members stay.
#[verifier::external_body]
pub(crate) fn insert_member(
    map: &mut serde_json::Map<String, serde_json::Value>,
    key: String,
    value: serde_json::Value,
)
    ensures
        members(*final(map)) == members(*old(map)).insert(key@, document(value)),
{
    map.insert(key, value);
}

/// `serde_json::Value::from(Map<String, Value>)`: a JSON object with the members
/// of the map.
#[verifier::external_body]
pub(crate) fn object_value(map: serde_json::Map<String, serde_json::Value>) -> (value: serde_json::Value)
    ensures
        document(value) == Json::Object(members(map)),
{
    serde_json::Value::from(map)
}

/// What has a JSON document.
pub trait ToJson: View {
    /// The document of a value, from its view.
    spec fn json(view: Self::V) -> Json;

    /// Build the document.
    fn to_value(&self) -> (value: serde_json::Value)
        ensures
            document(value) == Self::json(self@),
    ;
}

/// The array of the documents of the items.
pub open spec fn array_json<T: ToJson>(items: Seq<T::V>) -> Json {
    Json::Array(items.map_values(|item: T::V| T::json(item)))
}

/// The object that has under each key the document of its value.
pub open spec fn object_json<T: ToJson>(map: Map<Seq<char>, T::V>) -> Json {
    Json::Object(map.map_values(|item: T::V| T::json(item)))
}

impl ToJson for String {
    open spec fn json(view: Seq<char>) -> Json {
        Json::Text(view)
    }

    fn to_value(&self) -> (value: serde_json::Value) {
        text_value(self.as_str())
    }
}

/// Build an array.
pub(crate) fn array_of<T: ToJson>(items: &Vec<T>) -> (value: serde_json::Value)
    ensures
        document(value) == array_json::<T>(seq_view(items@)),
{
    let mut values: Vec<serde_json::Value> = Vec::new();
    let mut i: usize = 0;
    while i < items.len()
        invariant
            i <= items.len(),
            values@.len() == i,
            forall|j: int| 0 <= j < i ==> document(#[trigger] values@[j]) == T::json(items@[j]@),
        decreases items.len() - i,
    {
        values.push(items[i].to_value());
        i = i + 1;
    }
    assert(values@.map_values(|item: serde_json::Value| document(item)) =~= seq_view(
        items@,
    ).map_values(|item: T::V| T::json(item)));
    array_value(values)
}

/// Build an object.
pub(crate) fn object_of<T: ToJson>(map: &StringMap<T>) -> (value: serde_json::Value)
    ensures
        document(value) == object_json::<T>(map@),
{
    let entries = map.entries();
    let ghost f = |item: T::V| T::json(item);
    let mut object = empty_map();
    let mut i: usize = 0;
    assert(members(object) =~= entries_map(entries@.take(0)).map_values(f));
    while i < entries.len()
        invariant
            i <= entries.len(),
            f == (|item: T::V| T::json(item)),
            members(object) == entries_map(entries@.take(i as int)).map_values(f),
        decreases entries.len() - i,
    {
        assert(entries@.take(i + 1).drop_last() =~= entries@.take(i as int));
        insert_member(&mut object, entries[i].0.clone(), entries[i].1.to_value());
        assert(members(object) =~= entries_map(entries@.take(i + 1)).map_values(f));
        i = i + 1;
    }
    assert(entries@.take(i as int) =~= entries@);
    object_value(object)
}

} // verus!
