use vstd::prelude::*;

verus! {

/// `serde_json::Number`, a JSON number. Nothing here looks inside one: a number is carried
/// from the document that was read to the document that is written.
#[verifier::external_type_specification]
#[verifier::external_body]
pub struct ExNumber(serde_json::Number);

/// `Clone::clone` of `serde_json::Number`, which the crate derives for a struct of one
/// `Copy` field: the copy is the number that was copied.
pub assume_specification[ <serde_json::Number as Clone>::clone ](number: &serde_json::Number) -> (copy:
    serde_json::Number)
    ensures
        copy == *number,
;

/// A JSON document as a mathematical value. An object is the sequence of its entries, each a
/// key and the value under it, in the order in which they are written.
pub enum Json {
    Null,
    Bool(bool),
    Number(serde_json::Number),
    String(Seq<char>),
    Array(Seq<Json>),
    Object(Seq<(Seq<char>, Json)>),
}

/// The keys of the entries of an object, in their order.
pub open spec fn key_names(entries: Seq<(Seq<char>, Json)>) -> Seq<Seq<char>> {
    entries.map_values(|entry: (Seq<char>, Json)| entry.0)
}

impl Json {
    /// Whether `self` and `other` are of one kind: both null, both booleans, both numbers,
    /// both strings, both arrays or both objects.
    pub open spec fn same_kind(self, other: Json) -> bool {
        match (self, other) {
            (Json::Null, Json::Null) => true,
            (Json::Bool(_), Json::Bool(_)) => true,
            (Json::Number(_), Json::Number(_)) => true,
            (Json::String(_), Json::String(_)) => true,
            (Json::Array(_), Json::Array(_)) => true,
            (Json::Object(_), Json::Object(_)) => true,
            _ => false,
        }
    }

    /// Whether `self` and `other` are built alike at the top: two arrays of one length, two
    /// objects with the same keys in the same order, or two values of one other kind.
    pub open spec fn same_keys(self, other: Json) -> bool {
        match (self, other) {
            (Json::Array(items), Json::Array(others)) => items.len() == others.len(),
            (Json::Object(entries), Json::Object(others)) => key_names(entries) == key_names(
                others,
            ),
            _ => self.same_kind(other),
        }
    }

    /// Whether `self` and `other` are built alike: of one kind, and, where they are arrays,
    /// of one length with items built alike; where they are objects, with the same keys in
    /// the same order and, under each key, values built alike.
    pub open spec fn same_shape(self, other: Json) -> bool
        decreases self,
    {
        match (self, other) {
            (Json::Array(items), Json::Array(others)) => {
                &&& items.len() == others.len()
                &&& forall|i: int|
                    0 <= i < items.len() ==> (#[trigger] items[i]).same_shape(others[i])
            },
            (Json::Object(entries), Json::Object(others)) => {
                &&& entries.len() == others.len()
                &&& forall|i: int|
                    0 <= i < entries.len() ==> (#[trigger] entries[i]).0 == others[i].0
                        && entries[i].1.same_shape(others[i].1)
            },
            _ => self.same_kind(other),
        }
    }

    /// Whether no object of the document, at any depth, holds a key twice.
    pub open spec fn well_formed(self) -> bool
        decreases self,
    {
        match self {
            Json::Array(items) => forall|i: int|
                0 <= i < items.len() ==> (#[trigger] items[i]).well_formed(),
            Json::Object(entries) => {
                &&& key_names(entries).no_duplicates()
                &&& forall|i: int|
                    0 <= i < entries.len() ==> (#[trigger] entries[i]).1.well_formed()
            },
            _ => true,
        }
    }
}

/// A JSON document in memory. An object holds its entries in the order in which they are
/// written.
#[derive(Debug, PartialEq)]
pub enum Value {
    Null,
    Bool(bool),
    Number(serde_json::Number),
    String(String),
    Array(Vec<Value>),
    Object(Vec<(String, Value)>),
}

impl Value {
    /// The document as a mathematical value: every string by its characters, every array
    /// and object by the sequence of what it holds.
    pub open spec fn view(&self) -> Json
        decreases self,
    {
        match self {
            Value::Null => Json::Null,
            Value::Bool(flag) => Json::Bool(*flag),
            Value::Number(number) => Json::Number(*number),
            Value::String(text) => Json::String(text@),
            Value::Array(items) => Json::Array(
                Seq::new(
                    items.len() as nat,
                    |i: int|
                        if 0 <= i < items.len() {
                            items[i]@
                        } else {
                            Json::Null
                        },
                ),
            ),
            Value::Object(entries) => Json::Object(
                Seq::new(
                    entries.len() as nat,
                    |i: int|
                        if 0 <= i < entries.len() {
                            (entries[i].0@, entries[i].1@)
                        } else {
                            (Seq::empty(), Json::Null)
                        },
                ),
            ),
        }
    }
}

impl Clone for Value {
    /// A copy that reads as the same document.
    fn clone(&self) -> (copy: Self)
        ensures
            copy@ == self@,
        decreases self,
    {
        match self {
            Value::Null => Value::Null,
            Value::Bool(flag) => Value::Bool(*flag),
            Value::Number(number) => Value::Number(number.clone()),
            Value::String(text) => Value::String(text.clone()),
            Value::Array(items) => {
                let mut copies: Vec<Value> = Vec::with_capacity(items.len());
                let mut i: usize = 0;
                while i < items.len()
                    invariant
                        i <= items.len(),
                        copies@.len() == i,
                        forall|j: int| 0 <= j < i ==> copies@[j]@ == items@[j]@,
                        forall|j: int|
                            0 <= j < items.len() ==> decreases_to!(self => #[trigger] items[j]),
                    decreases items.len() - i,
                {
                    copies.push(items[i].clone());
                    i += 1;
                }
                let copy = Value::Array(copies);
                assert(copy@->Array_0 =~= self@->Array_0);
                copy
            },
            Value::Object(entries) => {
                let mut copies: Vec<(String, Value)> = Vec::with_capacity(entries.len());
                let mut i: usize = 0;
                while i < entries.len()
                    invariant
                        i <= entries.len(),
                        copies@.len() == i,
                        forall|j: int|
                            0 <= j < i ==> copies@[j].0@ == entries@[j].0@ && copies@[j].1@
                                == entries@[j].1@,
                        forall|j: int|
                            0 <= j < entries.len() ==> decreases_to!(self => (#[trigger] entries[j]).1),
                    decreases entries.len() - i,
                {
                    copies.push((entries[i].0.clone(), entries[i].1.clone()));
                    i += 1;
                }
                let copy = Value::Object(copies);
                assert(copy@->Object_0 =~= self@->Object_0);
                copy
            },
        }
    }
}

} // verus!
