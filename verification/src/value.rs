//! A model of the storage engine's self-describing values.
//!
//! The engine's own value type is opaque to the verifier, so the library works
//! on [`Value`], which holds as plain data what the ingestion logic reads and
//! writes. The surrounding program converts between the two.

use vstd::prelude::*;
use crate::timestamp::Timestamp;

verus! {

/// Mathematical model of a [`Value`].
pub ghost enum ValueView {
    /// The engine's "no value".
    Absent,
    Null,
    Bool(bool),
    Int(int),
    /// A floating-point number, by its IEEE 754 bit pattern.
    Float(u64),
    Strand(Seq<char>),
    Datetime(Timestamp),
    Bytes(Seq<u8>),
    /// A universally unique identifier, by its 128 bits.
    Uuid(u128),
    Array(Seq<ValueView>),
    /// Key/value entries, in the order in which they are held.
    Object(Seq<(Seq<char>, ValueView)>),
    /// A record identifier: a table name and a key.
    Record(Seq<char>, Box<ValueView>),
}

/// A self-describing value as the storage engine holds it.
#[derive(Debug, PartialEq, Eq)]
pub enum Value {
    /// The engine's "no value".
    Absent,
    Null,
    Bool(bool),
    Int(i64),
    /// A floating-point number, by its IEEE 754 bit pattern.
    Float(u64),
    Strand(String),
    Datetime(Timestamp),
    Bytes(Vec<u8>),
    /// A universally unique identifier, by its 128 bits.
    Uuid(u128),
    Array(Vec<Value>),
    /// Key/value entries, in the order in which they are held.
    Object(Vec<(String, Value)>),
    /// A record identifier: a table name and a key.
    Record(String, Box<Value>),
}

/// The model of a value, by recursion on its structure.
pub open spec fn value_model(v: &Value) -> ValueView
    decreases v,
{
    match v {
            Value::Absent => ValueView::Absent,
            Value::Null => ValueView::Null,
            Value::Bool(b) => ValueView::Bool(*b),
            Value::Int(n) => ValueView::Int(*n as int),
            Value::Float(bits) => ValueView::Float(*bits),
            Value::Strand(s) => ValueView::Strand(s@),
            Value::Datetime(t) => ValueView::Datetime(*t),
            Value::Bytes(b) => ValueView::Bytes(b@),
        Value::Uuid(id) => ValueView::Uuid(*id),
            Value::Array(items) => ValueView::Array(
                Seq::new(
                    items@.len(),
                    |i: int|
                        if 0 <= i < items@.len() {
                            value_model(&items@[i])
                        } else {
                            ValueView::Absent
                        },
                ),
            ),
            Value::Object(entries) => ValueView::Object(
                Seq::new(
                    entries@.len(),
                    |i: int|
                        if 0 <= i < entries@.len() {
                            (entries@[i].0@, value_model(&entries@[i].1))
                        } else {
                            (Seq::empty(), ValueView::Absent)
                        },
                ),
            ),
        Value::Record(table, key) => ValueView::Record(table@, Box::new(value_model(&**key))),
    }
}

impl View for Value {
    type V = ValueView;

    open spec fn view(&self) -> ValueView {
        value_model(self)
    }
}

/// The models of a list of values, item by item.
pub open spec fn values_view(items: Seq<Value>) -> Seq<ValueView> {
    Seq::new(items.len(), |i: int| items[i]@)
}

/// The models of a list of object entries, entry by entry.
pub open spec fn entries_view(entries: Seq<(String, Value)>) -> Seq<(Seq<char>, ValueView)> {
    Seq::new(entries.len(), |i: int| (entries[i].0@, entries[i].1@))
}

/// The model of an array is the list of its items' models.
pub proof fn lemma_array_view(items: Vec<Value>)
    ensures
        Value::Array(items)@ == ValueView::Array(values_view(items@)),
{
    assert(Value::Array(items)@->Array_0 =~= values_view(items@));
}

/// The model of an object is the list of its entries' models.
pub proof fn lemma_object_view(entries: Vec<(String, Value)>)
    ensures
        Value::Object(entries)@ == ValueView::Object(entries_view(entries@)),
{
    assert(Value::Object(entries)@->Object_0 =~= entries_view(entries@));
}

/// The position of the first entry with the given key, if there is one.
pub open spec fn index_of_key(entries: Seq<(Seq<char>, ValueView)>, key: Seq<char>) -> Option<int>
    decreases entries.len(),
{
    if entries.len() == 0 {
        None
    } else {
        match index_of_key(entries.drop_last(), key) {
            Some(i) => Some(i),
            None => if entries.last().0 == key {
                Some(entries.len() - 1)
            } else {
                None
            },
        }
    }
}

/// The value of the first entry with the given key, if there is one.
pub open spec fn lookup(entries: Seq<(Seq<char>, ValueView)>, key: Seq<char>) -> Option<ValueView> {
    match index_of_key(entries, key) {
        Some(i) => Some(entries[i].1),
        None => None,
    }
}

/// What `index_of_key` finds is the least position that holds the key.
pub proof fn lemma_index_of_key(entries: Seq<(Seq<char>, ValueView)>, key: Seq<char>)
    ensures
        match index_of_key(entries, key) {
            Some(i) => 0 <= i < entries.len() && entries[i].0 == key && forall|j: int|
                0 <= j < i ==> entries[j].0 != key,
            None => forall|j: int| 0 <= j < entries.len() ==> entries[j].0 != key,
        },
    decreases entries.len(),
{
    if entries.len() > 0 {
        let front = entries.drop_last();
        lemma_index_of_key(front, key);
        assert(forall|j: int| 0 <= j < front.len() ==> front[j] == entries[j]);
    }
}

/// The position of the first entry of an object with the given key.
pub fn find_key(entries: &Vec<(String, Value)>, key: &str) -> (r: Option<usize>)
    ensures
        match r {
            Some(i) => index_of_key(entries_view(entries@), key@) == Some(i as int) && i
                < entries@.len(),
            None => index_of_key(entries_view(entries@), key@) is None,
        },
{
    let ghost all = entries_view(entries@);
    let mut i: usize = 0;
    while i < entries.len()
        invariant
            all == entries_view(entries@),
            i <= entries@.len(),
            forall|j: int| 0 <= j < i ==> all[j].0 != key@,
        decreases entries@.len() - i,
    {
        if crate::text::str_eq(entries[i].0.as_str(), key) {
            proof {
                lemma_index_of_key(all, key@);
                assert(all[i as int].0 == key@);
            }
            return Some(i);
        }
        i += 1;
    }
    proof {
        lemma_index_of_key(all, key@);
    }
    None
}

/// The result of merging `patch` into `old`. Two objects are merged entry by
/// entry; in every other case the patch replaces what was there.
pub open spec fn merge_value(old: ValueView, patch: ValueView) -> ValueView
    decreases patch,
{
    match (old, patch) {
        (ValueView::Object(old_entries), ValueView::Object(patch_entries)) => ValueView::Object(
            merge_entries(old_entries, patch_entries, patch_entries.len()),
        ),
        _ => patch,
    }
}

/// The entries of an object after the first `n` entries of a patch have been
/// merged into it, one after the other. An entry whose key the object holds
/// is merged into the first entry with that key; an entry with a new key is
/// added at the end. Entries that the patch does not name stay as they are.
pub open spec fn merge_entries(
    old: Seq<(Seq<char>, ValueView)>,
    patch: Seq<(Seq<char>, ValueView)>,
    n: nat,
) -> Seq<(Seq<char>, ValueView)>
    decreases patch, n,
{
    if n == 0 || n > patch.len() {
        old
    } else {
        let so_far = merge_entries(old, patch, (n - 1) as nat);
        let key = patch[n - 1].0;
        match index_of_key(so_far, key) {
            Some(i) => {
                proof {
                    assert(decreases_to!(patch => patch[n - 1]));
                    assert(decreases_to!(patch[n - 1] => patch[n - 1].1));
                }
                so_far.update(i, (key, merge_value(so_far[i].1, patch[n - 1].1)))
            },
            None => so_far.push(patch[n - 1]),
        }
    }
}

/// A deep copy of the entries of an object.
pub fn clone_entries(entries: &Vec<(String, Value)>) -> (r: Vec<(String, Value)>)
    ensures
        entries_view(r@) == entries_view(entries@),
{
    let mut out: Vec<(String, Value)> = Vec::new();
    let mut i: usize = 0;
    while i < entries.len()
        invariant
            i <= entries@.len(),
            out@.len() == i,
            forall|j: int|
                0 <= j < i ==> out@[j].0@ == entries@[j].0@ && out@[j].1@ == entries@[j].1@,
        decreases entries@.len() - i,
    {
        let key = entries[i].0.clone();
        let item = entries[i].1.deep_clone();
        out.push((key, item));
        i += 1;
    }
    assert(entries_view(out@) =~= entries_view(entries@));
    out
}

/// Merges the entries of a patch into the entries of an object.
pub fn merged_entries(old: &Vec<(String, Value)>, patch: &Vec<(String, Value)>) -> (r: Vec<
    (String, Value),
>)
    ensures
        entries_view(r@) == merge_entries(
            entries_view(old@),
            entries_view(patch@),
            patch@.len() as nat,
        ),
    decreases patch,
{
    let mut acc = clone_entries(old);
    let ghost start = entries_view(old@);
    let ghost all = entries_view(patch@);
    let mut n: usize = 0;
    while n < patch.len()
        invariant
            start == entries_view(old@),
            all == entries_view(patch@),
            n <= patch@.len(),
            entries_view(acc@) == merge_entries(start, all, n as nat),
        decreases patch@.len() - n,
    {
        let ghost so_far = entries_view(acc@);
        let key = patch[n].0.clone();
        assert(all[n as int] == (patch@[n as int].0@, patch@[n as int].1@));
        match find_key(&acc, key.as_str()) {
            Some(i) => {
                proof {
                    vstd::std_specs::vec::axiom_vec_index_decreases(*patch, n as int);
                    assert(decreases_to!(patch@[n as int] => patch@[n as int].1));
                }
                let item = acc[i].1.merged(&patch[n].1);
                assert(so_far[i as int].1 == acc@[i as int].1@);
                acc.set(i, (key, item));
                assert(entries_view(acc@) =~= so_far.update(
                    i as int,
                    (all[n as int].0, merge_value(so_far[i as int].1, all[n as int].1)),
                ));
            },
            None => {
                let item = patch[n].1.deep_clone();
                acc.push((key, item));
                assert(entries_view(acc@) =~= so_far.push(all[n as int]));
            },
        }
        n += 1;
    }
    acc
}

impl Value {
    /// The record identifier with the given table and key.
    pub fn record(table: &str, key: Value) -> (r: Value)
        ensures
            r@ == ValueView::Record(table@, Box::new(key@)),
    {
        Value::Record(crate::text::copy_str(table), Box::new(key))
    }

    /// The result of merging `patch` into this value.
    pub fn merged(&self, patch: &Value) -> (r: Value)
        ensures
            r@ == merge_value(self@, patch@),
        decreases patch,
    {
        match (self, patch) {
            (Value::Object(old_entries), Value::Object(patch_entries)) => {
                proof {
                    lemma_object_view(*old_entries);
                    lemma_object_view(*patch_entries);
                    assert(decreases_to!(*patch => patch->Object_0));
                }
                let entries = merged_entries(old_entries, patch_entries);
                proof {
                    lemma_object_view(entries);
                }
                Value::Object(entries)
            },
            _ => patch.deep_clone(),
        }
    }

    /// A deep copy of the value.
    pub fn deep_clone(&self) -> (r: Value)
        ensures
            r@ == self@,
        decreases self,
    {
        match self {
            Value::Absent => Value::Absent,
            Value::Null => Value::Null,
            Value::Bool(b) => Value::Bool(*b),
            Value::Int(n) => Value::Int(*n),
            Value::Float(bits) => Value::Float(*bits),
            Value::Strand(s) => Value::Strand(s.clone()),
            Value::Datetime(t) => Value::Datetime(*t),
            Value::Bytes(b) => Value::Bytes(crate::text::copy_bytes(b.as_slice())),
            Value::Uuid(id) => Value::Uuid(*id),
            Value::Array(items) => {
                let mut out: Vec<Value> = Vec::new();
                let mut i: usize = 0;
                while i < items.len()
                    invariant
                        *self == Value::Array(*items),
                        i <= items@.len(),
                        out@.len() == i,
                        forall|j: int| 0 <= j < i ==> out@[j]@ == items@[j]@,
                    decreases items@.len() - i,
                {
                    proof {
                        vstd::std_specs::vec::axiom_vec_index_decreases(*items, i as int);
                        assert(decreases_to!(*self => self->Array_0));
                    }
                    let item = items[i].deep_clone();
                    out.push(item);
                    i += 1;
                }
                proof {
                    lemma_array_view(out);
                    lemma_array_view(*items);
                    assert(values_view(out@) =~= values_view(items@));
                }
                Value::Array(out)
            },
            Value::Object(entries) => {
                let mut out: Vec<(String, Value)> = Vec::new();
                let mut i: usize = 0;
                while i < entries.len()
                    invariant
                        *self == Value::Object(*entries),
                        i <= entries@.len(),
                        out@.len() == i,
                        forall|j: int|
                            0 <= j < i ==> out@[j].0@ == entries@[j].0@ && out@[j].1@
                                == entries@[j].1@,
                    decreases entries@.len() - i,
                {
                    proof {
                        vstd::std_specs::vec::axiom_vec_index_decreases(*entries, i as int);
                        assert(decreases_to!(*self => self->Object_0));
                        assert(decreases_to!(entries@[i as int] => entries@[i as int].1));
                    }
                    let key = entries[i].0.clone();
                    let item = entries[i].1.deep_clone();
                    out.push((key, item));
                    i += 1;
                }
                proof {
                    lemma_object_view(out);
                    lemma_object_view(*entries);
                    assert(entries_view(out@) =~= entries_view(entries@));
                }
                Value::Object(out)
            },
            Value::Record(table, key) => Value::Record(table.clone(), Box::new(key.deep_clone())),
        }
    }
}

} // verus!
