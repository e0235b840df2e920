use crate::json::{Json, Value};
use crate::keys_storage::KeysStorage;
use crate::redaction::laws::{redaction_keeps_keys, redaction_keeps_well_formed};
use vstd::prelude::*;

pub mod laws;

verus! {

/// What stands in place of a hidden value: a string that names the kind of value it was,
/// and tells nothing else of it. An array or an object is replaced whole, whatever it
/// holds. Null alone stays null, under a hidden key too.
pub open spec fn placeholder(value: Json) -> Json {
    match value {
        Json::Null => Json::Null,
        Json::Bool(_) => Json::String("Bool"@),
        Json::Number(_) => Json::String("Number"@),
        Json::String(_) => Json::String("String"@),
        Json::Array(_) => Json::String("Array"@),
        Json::Object(_) => Json::String("Object"@),
    }
}

/// Whether every value that the redaction of `doc` by `keys` hides is null or a string: the
/// two kinds whose placeholder is of their own kind.
pub open spec fn hides_only_text(doc: Json, keys: Set<Seq<char>>) -> bool
    decreases doc,
{
    match doc {
        Json::Array(items) => forall|i: int|
            0 <= i < items.len() ==> hides_only_text(#[trigger] items[i], keys),
        Json::Object(entries) => forall|i: int|
            0 <= i < entries.len() ==> if keys.contains((#[trigger] entries[i]).0) {
                entries[i].1 is Null || entries[i].1 is String
            } else {
                hides_only_text(entries[i].1, keys)
            },
        _ => true,
    }
}

/// The document `doc` with the value under every key of `keys` hidden.
///
/// An array keeps its length and has each item redacted. An object keeps its keys in their
/// order; the value under a key of `keys` becomes its placeholder, whatever it holds, and
/// every other value is redacted in turn. Anything else is left as it is.
pub open spec fn redacted(doc: Json, keys: Set<Seq<char>>) -> Json
    decreases doc,
{
    match doc {
        Json::Array(items) => Json::Array(
            Seq::new(
                items.len(),
                |i: int|
                    if 0 <= i < items.len() {
                        redacted(items[i], keys)
                    } else {
                        Json::Null
                    },
            ),
        ),
        Json::Object(entries) => Json::Object(
            Seq::new(
                entries.len(),
                |i: int|
                    if 0 <= i < entries.len() {
                        (
                            entries[i].0,
                            if keys.contains(entries[i].0) {
                                placeholder(entries[i].1)
                            } else {
                                redacted(entries[i].1, keys)
                            },
                        )
                    } else {
                        (Seq::empty(), Json::Null)
                    },
            ),
        ),
        _ => doc,
    }
}

/// The placeholder of `value`.
pub fn hide_value(value: &Value) -> (hidden: Value)
    ensures
        hidden@ == placeholder(value@),
{
    match value {
        Value::Null => Value::Null,
        Value::Bool(_) => Value::String(String::from_str("Bool")),
        Value::Number(_) => Value::String(String::from_str("Number")),
        Value::String(_) => Value::String(String::from_str("String")),
        Value::Array(_) => Value::String(String::from_str("Array")),
        Value::Object(_) => Value::String(String::from_str("Object")),
    }
}

/// A copy of `json` in which the value under every key that `storage` holds is hidden.
///
/// The copy has the keys of `json` in their order, and holds no key twice in an object if
/// `json` holds none twice.
pub fn hide_by_keys<S: KeysStorage>(storage: &S, json: &Value) -> (hidden: Value)
    ensures
        hidden@ == redacted(json@, storage.keys()),
        json@.same_keys(hidden@),
        json@.well_formed() ==> hidden@.well_formed(),
{
    proof {
        redaction_keeps_keys(json@, storage.keys());
        if json@.well_formed() {
            redaction_keeps_well_formed(json@, storage.keys());
        }
    }
    match json {
        Value::Array(items) => hide_by_keys_in_array(storage, items),
        Value::Object(entries) => hide_by_keys_in_map(storage, entries),
        _ => json.clone(),
    }
}

/// The object of the entries `json`, in their order, with the value under every key that
/// `storage` holds hidden.
///
/// Under a key that `storage` holds stands the placeholder of the value, which is not
/// walked; every other value that is an object or an array is walked in turn.
pub fn hide_by_keys_in_map<S: KeysStorage>(storage: &S, json: &Vec<(String, Value)>) -> (hidden:
    Value)
    ensures
        hidden@ == redacted(Value::Object(*json)@, storage.keys()),
        Value::Object(*json)@.same_keys(hidden@),
        forall|i: int|
            0 <= i < json.len() && storage.keys().contains((#[trigger] json[i]).0@)
                ==> hidden@->Object_0[i] == (json[i].0@, placeholder(json[i].1@)),
    decreases json,
{
    proof {
        redaction_keeps_keys(Value::Object(*json)@, storage.keys());
    }
    let mut result_map: Vec<(String, Value)> = Vec::with_capacity(json.len());
    let ghost wanted = redacted(Value::Object(*json)@, storage.keys())->Object_0;
    let mut i: usize = 0;
    while i < json.len()
        invariant
            i <= json.len(),
            wanted.len() == json.len(),
            forall|j: int|
                0 <= j < json.len() ==> #[trigger] wanted[j] == (
                    json[j].0@,
                    if storage.keys().contains(json[j].0@) {
                        placeholder(json[j].1@)
                    } else {
                        redacted(json[j].1@, storage.keys())
                    },
                ),
            result_map@.len() == i,
            forall|j: int|
                0 <= j < i ==> (#[trigger] result_map@[j]).0@ == wanted[j].0 && result_map@[j].1@
                    == wanted[j].1,
        decreases json.len() - i,
    {
        let key = &json[i].0;
        let value = &json[i].1;
        let value = if storage.contains(key.as_str()) {
            hide_value(value)
        } else {
            match value {
                Value::Object(inner) => hide_by_keys_in_map(storage, inner),
                Value::Array(inner) => hide_by_keys_in_array(storage, inner),
                _ => value.clone(),
            }
        };
        result_map.push((key.clone(), value));
        i += 1;
    }
    let hidden = Value::Object(result_map);
    assert(hidden@->Object_0 =~= wanted);
    hidden
}

/// The array of the items `json`, in their order, each with the value under every key that
/// `storage` holds hidden.
pub fn hide_by_keys_in_array<S: KeysStorage>(storage: &S, json: &Vec<Value>) -> (hidden: Value)
    ensures
        hidden@ == redacted(Value::Array(*json)@, storage.keys()),
        Value::Array(*json)@.same_keys(hidden@),
    decreases json,
{
    proof {
        redaction_keeps_keys(Value::Array(*json)@, storage.keys());
    }
    let mut result: Vec<Value> = Vec::with_capacity(json.len());
    let ghost wanted = redacted(Value::Array(*json)@, storage.keys())->Array_0;
    let mut i: usize = 0;
    while i < json.len()
        invariant
            i <= json.len(),
            wanted.len() == json.len(),
            forall|j: int|
                0 <= j < json.len() ==> #[trigger] wanted[j] == redacted(json[j]@, storage.keys()),
            result@.len() == i,
            forall|j: int| 0 <= j < i ==> (#[trigger] result@[j])@ == wanted[j],
        decreases json.len() - i,
    {
        let item = match &json[i] {
            Value::Array(inner) => hide_by_keys_in_array(storage, inner),
            Value::Object(inner) => hide_by_keys_in_map(storage, inner),
            item => item.clone(),
        };
        result.push(item);
        i += 1;
    }
    let hidden = Value::Array(result);
    assert(hidden@->Array_0 =~= wanted);
    hidden
}

} // verus!
