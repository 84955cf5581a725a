//! JSON documents and their conversion to engine values.

use vstd::prelude::*;
use crate::value::{entries_view, lemma_array_view, lemma_object_view, values_view, Value, ValueView};

verus! {

/// Mathematical model of a [`JsonValue`].
pub ghost enum JsonView {
    Null,
    Bool(bool),
    Int(int),
    /// A number that is no 64-bit signed integer, by the IEEE 754 bit pattern
    /// of the double nearest to it.
    Float(u64),
    Text(Seq<char>),
    Array(Seq<JsonView>),
    Object(Seq<(Seq<char>, JsonView)>),
}

/// A JSON document.
#[derive(Debug, PartialEq, Eq)]
pub enum JsonValue {
    Null,
    Bool(bool),
    Int(i64),
    /// A number that is no 64-bit signed integer, by the IEEE 754 bit pattern
    /// of the double nearest to it.
    Float(u64),
    Text(String),
    Array(Vec<JsonValue>),
    Object(Vec<(String, JsonValue)>),
}

/// The model of a document, by recursion on its structure.
pub open spec fn json_model(v: &JsonValue) -> JsonView
    decreases v,
{
    match v {
        JsonValue::Null => JsonView::Null,
        JsonValue::Bool(b) => JsonView::Bool(*b),
        JsonValue::Int(n) => JsonView::Int(*n as int),
        JsonValue::Float(bits) => JsonView::Float(*bits),
        JsonValue::Text(s) => JsonView::Text(s@),
        JsonValue::Array(items) => JsonView::Array(
            Seq::new(
                items@.len(),
                |i: int|
                    if 0 <= i < items@.len() {
                        json_model(&items@[i])
                    } else {
                        JsonView::Null
                    },
            ),
        ),
        JsonValue::Object(members) => JsonView::Object(
            Seq::new(
                members@.len(),
                |i: int|
                    if 0 <= i < members@.len() {
                        (members@[i].0@, json_model(&members@[i].1))
                    } else {
                        (Seq::empty(), JsonView::Null)
                    },
            ),
        ),
    }
}

impl View for JsonValue {
    type V = JsonView;

    open spec fn view(&self) -> JsonView {
        json_model(self)
    }
}

/// The models of a list of documents, item by item.
pub open spec fn jsons_view(items: Seq<JsonValue>) -> Seq<JsonView> {
    Seq::new(items.len(), |i: int| items[i]@)
}

/// The models of the members of a JSON object, member by member.
pub open spec fn members_view(members: Seq<(String, JsonValue)>) -> Seq<(Seq<char>, JsonView)> {
    Seq::new(members.len(), |i: int| (members[i].0@, members[i].1@))
}

/// The model of a JSON array is the list of its items' models.
pub proof fn lemma_json_array_view(items: Vec<JsonValue>)
    ensures
        JsonValue::Array(items)@ == JsonView::Array(jsons_view(items@)),
{
    assert(JsonValue::Array(items)@->Array_0 =~= jsons_view(items@));
}

/// The model of a JSON object is the list of its members' models.
pub proof fn lemma_json_object_view(members: Vec<(String, JsonValue)>)
    ensures
        JsonValue::Object(members)@ == JsonView::Object(members_view(members@)),
{
    assert(JsonValue::Object(members)@->Object_0 =~= members_view(members@));
}

/// The engine value that a JSON document becomes: scalars keep their kind,
/// arrays and objects are converted item by item, in order.
pub open spec fn json_to_value(j: JsonView) -> ValueView
    decreases j,
{
    match j {
        JsonView::Null => ValueView::Null,
        JsonView::Bool(b) => ValueView::Bool(b),
        JsonView::Int(n) => ValueView::Int(n),
        JsonView::Float(bits) => ValueView::Float(bits),
        JsonView::Text(s) => ValueView::Strand(s),
        JsonView::Array(items) => ValueView::Array(
            Seq::new(
                items.len(),
                |i: int|
                    if 0 <= i < items.len() {
                        json_to_value(items[i])
                    } else {
                        ValueView::Absent
                    },
            ),
        ),
        JsonView::Object(members) => ValueView::Object(json_members_to_entries(members)),
    }
}

/// The entries of the engine object that the members of a JSON object become.
pub open spec fn json_members_to_entries(members: Seq<(Seq<char>, JsonView)>) -> Seq<
    (Seq<char>, ValueView),
>
    decreases members,
{
    Seq::new(
        members.len(),
        |i: int|
            if 0 <= i < members.len() {
                (members[i].0, json_to_value(members[i].1))
            } else {
                (Seq::empty(), ValueView::Absent)
            },
    )
}

/// Converts the members of a JSON object to the entries of an engine object.
pub fn entries_from_json_members(members: &Vec<(String, JsonValue)>) -> (r: Vec<
    (String, Value),
>)
    ensures
        entries_view(r@) == json_members_to_entries(members_view(members@)),
    decreases members,
{
    let mut out: Vec<(String, Value)> = Vec::new();
    let mut i: usize = 0;
    while i < members.len()
        invariant
            i <= members@.len(),
            out@.len() == i,
            forall|j: int|
                0 <= j < i ==> out@[j].0@ == members@[j].0@ && out@[j].1@ == json_to_value(
                    members@[j].1@,
                ),
        decreases members@.len() - i,
    {
        proof {
            vstd::std_specs::vec::axiom_vec_index_decreases(*members, i as int);
            assert(decreases_to!(members@[i as int] => members@[i as int].1));
        }
        let key = members[i].0.clone();
        let item = surrealdb_value_from_json_value(&members[i].1);
        out.push((key, item));
        i += 1;
    }
    assert(entries_view(out@) =~= json_members_to_entries(members_view(members@)));
    out
}

/// Converts a JSON document to the engine value that stands for it.
pub fn surrealdb_value_from_json_value(value: &JsonValue) -> (r: Value)
    ensures
        r@ == json_to_value(value@),
    decreases value,
{
    match value {
        JsonValue::Null => Value::Null,
        JsonValue::Bool(b) => Value::Bool(*b),
        JsonValue::Int(n) => Value::Int(*n),
        JsonValue::Float(bits) => Value::Float(*bits),
        JsonValue::Text(s) => Value::Strand(s.clone()),
        JsonValue::Array(items) => {
            let mut out: Vec<Value> = Vec::new();
            let mut i: usize = 0;
            while i < items.len()
                invariant
                    *value == JsonValue::Array(*items),
                    i <= items@.len(),
                    out@.len() == i,
                    forall|j: int| 0 <= j < i ==> out@[j]@ == json_to_value(items@[j]@),
                decreases items@.len() - i,
            {
                proof {
                    vstd::std_specs::vec::axiom_vec_index_decreases(*items, i as int);
                    assert(decreases_to!(*value => value->Array_0));
                }
                let item = surrealdb_value_from_json_value(&items[i]);
                out.push(item);
                i += 1;
            }
            proof {
                lemma_array_view(out);
                lemma_json_array_view(*items);
                assert(values_view(out@) =~= json_to_value(value@)->Array_0);
            }
            Value::Array(out)
        },
        JsonValue::Object(members) => {
            proof {
                assert(decreases_to!(*value => value->Object_0));
                lemma_json_object_view(*members);
            }
            let entries = entries_from_json_members(members);
            proof {
                lemma_object_view(entries);
            }
            Value::Object(entries)
        },
    }
}

} // verus!
