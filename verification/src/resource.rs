//! Hierarchical resource identities and their encoding as engine values.

use vstd::prelude::*;
use crate::text::{copy_str, str_eq};
use crate::timestamp::Timestamp;
use crate::value::{lemma_array_view, values_view, Value, ValueView};

verus! {

/// Model of one step of a resource path: a type and an id.
pub type PartModel = (Seq<char>, Seq<char>);

/// Model of a resource identity: the path from a root container to the
/// resource.
pub type IdModel = Seq<(Seq<char>, Seq<char>)>;

/// One step of a resource path.
#[derive(Debug, PartialEq, Eq)]
pub struct ResourceIdPart {
    pub ty: String,
    pub id: String,
}

impl View for ResourceIdPart {
    type V = PartModel;

    open spec fn view(&self) -> PartModel {
        (self.ty@, self.id@)
    }
}

impl Clone for ResourceIdPart {
    fn clone(&self) -> (r: Self)
        ensures
            r@ == self@,
    {
        ResourceIdPart { ty: self.ty.clone(), id: self.id.clone() }
    }
}

/// The identity of a resource: an ordered path of parts. The order is part of
/// the identity.
#[derive(Debug, PartialEq, Eq)]
pub struct ResourceId(pub Vec<ResourceIdPart>);

/// The models of a list of parts, part by part.
pub open spec fn parts_view(parts: Seq<ResourceIdPart>) -> IdModel {
    Seq::new(parts.len(), |i: int| parts[i]@)
}

impl View for ResourceId {
    type V = IdModel;

    open spec fn view(&self) -> IdModel {
        parts_view(self.0@)
    }
}

/// Model of what the store holds for one resource, besides its identity.
pub ghost struct ResourceRow {
    pub environments: Set<Seq<char>>,
    pub first_seen_at: Option<Timestamp>,
    pub last_seen_at: Option<Timestamp>,
    pub attributes: Option<ValueView>,
}

/// A resource as the store holds it.
#[derive(Debug, PartialEq, Eq)]
pub struct Resource {
    pub id: ResourceId,
    /// The environments that the resource was assigned to. Ingestion leaves
    /// them alone.
    pub environments: Vec<String>,
    pub first_seen_at: Option<Timestamp>,
    pub last_seen_at: Option<Timestamp>,
    /// The attribute object, once any attributes were merged in.
    pub attributes: Option<Value>,
}

/// The set of strings that a list holds.
pub open spec fn string_set(items: Seq<String>) -> Set<Seq<char>> {
    Set::new(|s: Seq<char>| exists|i: int| 0 <= i < items.len() && items[i]@ == s)
}

/// The model of a value that may be missing.
pub open spec fn opt_value_view(v: Option<Value>) -> Option<ValueView> {
    match v {
        Some(v) => Some(v@),
        None => None,
    }
}

impl Resource {
    /// The statement that selects every resource but the sentinel root,
    /// whose path is empty.
    pub fn get_all() -> (r: &'static str)
        ensures
            r@ == "$resources = SELECT * FROM resource WHERE id != resource:[] PARALLEL;"@,
    {
        "$resources = SELECT * FROM resource WHERE id != resource:[] PARALLEL;"
    }

    /// What the store holds for the resource, besides its identity.
    pub open spec fn row(&self) -> ResourceRow {
        ResourceRow {
            environments: string_set(self.environments@),
            first_seen_at: self.first_seen_at,
            last_seen_at: self.last_seen_at,
            attributes: opt_value_view(self.attributes),
        }
    }
}

/// Why a value is not the encoding of a resource identity.
#[derive(Clone, Copy, Debug, PartialEq, Eq, Structural)]
pub enum MalformedIdentity {
    /// The value is not an array.
    NotAnArray,
    /// An element of the array is not itself an array.
    PartNotAnArray,
    /// A part does not have exactly two elements.
    PartNotAPair,
    /// The second element of a part is not a string.
    PartIdNotAString,
    /// The first element of a part is not a string.
    PartTypeNotAString,
}

/// The engine value that stands for one part: the pair of its type and id.
pub open spec fn encode_part(p: PartModel) -> ValueView {
    ValueView::Array(seq![ValueView::Strand(p.0), ValueView::Strand(p.1)])
}

/// The engine value that stands for an identity: the array of its parts.
pub open spec fn encode_id(id: IdModel) -> ValueView {
    ValueView::Array(Seq::new(id.len(), |i: int| encode_part(id[i])))
}

/// The record identifier of a resource row.
pub open spec fn resource_record(id: IdModel) -> ValueView {
    ValueView::Record("resource"@, Box::new(encode_id(id)))
}

/// The part that a list of two strings stands for. The id is looked at before
/// the type.
pub open spec fn decode_pair(items: Seq<ValueView>) -> Result<PartModel, MalformedIdentity> {
    if items.len() != 2 {
        Err(MalformedIdentity::PartNotAPair)
    } else if !(items[1] is Strand) {
        Err(MalformedIdentity::PartIdNotAString)
    } else if !(items[0] is Strand) {
        Err(MalformedIdentity::PartTypeNotAString)
    } else {
        Ok((items[0]->Strand_0, items[1]->Strand_0))
    }
}

/// The part that an element of an encoded identity stands for.
pub open spec fn decode_part(v: ValueView) -> Result<PartModel, MalformedIdentity> {
    match v {
        ValueView::Array(items) => decode_pair(items),
        _ => Err(MalformedIdentity::PartNotAnArray),
    }
}

/// The parts that a list of elements stands for, or the fault of the first
/// element that stands for none.
pub open spec fn decode_parts(items: Seq<ValueView>) -> Result<IdModel, MalformedIdentity>
    decreases items.len(),
{
    if items.len() == 0 {
        Ok(Seq::empty())
    } else {
        match decode_parts(items.drop_last()) {
            Err(e) => Err(e),
            Ok(parts) => match decode_part(items.last()) {
                Err(e) => Err(e),
                Ok(p) => Ok(parts.push(p)),
            },
        }
    }
}

/// The identity that an engine value stands for.
pub open spec fn decode_id(v: ValueView) -> Result<IdModel, MalformedIdentity> {
    match v {
        ValueView::Array(items) => decode_parts(items),
        _ => Err(MalformedIdentity::NotAnArray),
    }
}

proof fn lemma_decode_encode_parts(id: IdModel)
    ensures
        decode_parts(Seq::new(id.len(), |i: int| encode_part(id[i]))) == Ok::<
            IdModel,
            MalformedIdentity,
        >(id),
    decreases id.len(),
{
    let items = Seq::new(id.len(), |i: int| encode_part(id[i]));
    if id.len() == 0 {
        assert(id =~= Seq::empty());
    } else {
        let front = id.drop_last();
        lemma_decode_encode_parts(front);
        assert(items.drop_last() =~= Seq::new(front.len(), |i: int| encode_part(front[i])));
        assert(items.last() == encode_part(id.last()));
        assert(front.push(id.last()) =~= id);
    }
}

/// Decoding the encoding of an identity gives the identity back.
pub proof fn lemma_decode_encode(id: IdModel)
    ensures
        decode_id(encode_id(id)) == Ok::<IdModel, MalformedIdentity>(id),
{
    lemma_decode_encode_parts(id);
}

/// Two identities with the same encoding are the same identity.
pub proof fn lemma_encode_injective(a: IdModel, b: IdModel)
    requires
        encode_id(a) == encode_id(b),
    ensures
        a == b,
{
    lemma_decode_encode(a);
    lemma_decode_encode(b);
}

impl MalformedIdentity {
    /// A sentence that says what is wrong.
    pub open spec fn message_spec(self) -> Seq<char> {
        match self {
            MalformedIdentity::NotAnArray => "resource id is not an array"@,
            MalformedIdentity::PartNotAnArray => "resource id holds a part that is not an array"@,
            MalformedIdentity::PartNotAPair => "resource id part is an array with a length other than two"@,
            MalformedIdentity::PartIdNotAString => "resource id part is an array with a non-string second element"@,
            MalformedIdentity::PartTypeNotAString => "resource id part is an array with a non-string first element"@,
        }
    }

    /// A sentence that says what is wrong.
    pub fn message(&self) -> (r: String)
        ensures
            r@ == self.message_spec(),
    {
        match self {
            MalformedIdentity::NotAnArray => copy_str("resource id is not an array"),
            MalformedIdentity::PartNotAnArray => copy_str(
                "resource id holds a part that is not an array",
            ),
            MalformedIdentity::PartNotAPair => copy_str(
                "resource id part is an array with a length other than two",
            ),
            MalformedIdentity::PartIdNotAString => copy_str(
                "resource id part is an array with a non-string second element",
            ),
            MalformedIdentity::PartTypeNotAString => copy_str(
                "resource id part is an array with a non-string first element",
            ),
        }
    }
}

impl ResourceIdPart {
    pub fn new(ty: &str, id: &str) -> (r: ResourceIdPart)
        ensures
            r@ == (ty@, id@),
    {
        ResourceIdPart { ty: copy_str(ty), id: copy_str(id) }
    }

    /// Whether two parts have the same type and the same id.
    pub fn same(&self, other: &ResourceIdPart) -> (r: bool)
        ensures
            r == (self@ == other@),
    {
        str_eq(self.ty.as_str(), other.ty.as_str()) && str_eq(self.id.as_str(), other.id.as_str())
    }

    /// The engine value of the part: the array of its type and its id.
    pub fn to_value(&self) -> (r: Value)
        ensures
            r@ == encode_part(self@),
    {
        let mut items: Vec<Value> = Vec::new();
        items.push(Value::Strand(self.ty.clone()));
        items.push(Value::Strand(self.id.clone()));
        proof {
            lemma_array_view(items);
            assert(values_view(items@) =~= seq![
                ValueView::Strand(self.ty@),
                ValueView::Strand(self.id@),
            ]);
        }
        Value::Array(items)
    }

    /// Reads a part from the elements of an array of the engine.
    pub fn try_from_array(items: &Vec<Value>) -> (r: Result<ResourceIdPart, MalformedIdentity>)
        ensures
            match r {
                Ok(part) => decode_pair(values_view(items@)) == Ok::<PartModel, MalformedIdentity>(
                    part@,
                ),
                Err(e) => decode_pair(values_view(items@)) == Err::<PartModel, MalformedIdentity>(
                    e,
                ),
            },
    {
        if items.len() != 2 {
            return Err(MalformedIdentity::PartNotAPair);
        }
        let id = match &items[1] {
            Value::Strand(s) => s.clone(),
            _ => {
                return Err(MalformedIdentity::PartIdNotAString);
            },
        };
        let ty = match &items[0] {
            Value::Strand(s) => s.clone(),
            _ => {
                return Err(MalformedIdentity::PartTypeNotAString);
            },
        };
        Ok(ResourceIdPart { ty, id })
    }

    /// Reads a part from an element of an encoded identity.
    pub fn try_from_value(v: &Value) -> (r: Result<ResourceIdPart, MalformedIdentity>)
        ensures
            match r {
                Ok(part) => decode_part(v@) == Ok::<PartModel, MalformedIdentity>(part@),
                Err(e) => decode_part(v@) == Err::<PartModel, MalformedIdentity>(e),
            },
    {
        match v {
            Value::Array(items) => {
                proof {
                    lemma_array_view(*items);
                }
                ResourceIdPart::try_from_array(items)
            },
            _ => Err(MalformedIdentity::PartNotAnArray),
        }
    }
}

impl Clone for ResourceId {
    fn clone(&self) -> (r: Self)
        ensures
            r@ == self@,
    {
        let mut parts: Vec<ResourceIdPart> = Vec::new();
        let mut i: usize = 0;
        while i < self.0.len()
            invariant
                i <= self.0@.len(),
                parts@.len() == i,
                forall|j: int| 0 <= j < i ==> parts@[j]@ == self.0@[j]@,
            decreases self.0@.len() - i,
        {
            parts.push(self.0[i].clone());
            i += 1;
        }
        assert(parts_view(parts@) =~= parts_view(self.0@));
        ResourceId(parts)
    }
}

impl ResourceId {
    /// The identity with the given `(type, id)` pairs as its path.
    pub fn from_parts(parts: Vec<(&str, &str)>) -> (r: ResourceId)
        ensures
            r@.len() == parts@.len(),
            forall|i: int| 0 <= i < parts@.len() ==> r@[i] == (parts@[i].0@, parts@[i].1@),
    {
        let mut out: Vec<ResourceIdPart> = Vec::new();
        let mut i: usize = 0;
        while i < parts.len()
            invariant
                i <= parts@.len(),
                out@.len() == i,
                forall|j: int| 0 <= j < i ==> out@[j]@ == (parts@[j].0@, parts@[j].1@),
            decreases parts@.len() - i,
        {
            out.push(ResourceIdPart::new(parts[i].0, parts[i].1));
            i += 1;
        }
        ResourceId(out)
    }

    /// The parts of the path, root first.
    pub fn parts(&self) -> (r: &Vec<ResourceIdPart>)
        ensures
            parts_view(r@) == self@,
    {
        &self.0
    }

    /// The number of parts of the path.
    pub fn len(&self) -> (r: usize)
        ensures
            r == self@.len(),
    {
        self.0.len()
    }

    /// Whether the path has no part. The empty path is the sentinel root and
    /// names no resource.
    pub fn is_empty(&self) -> (r: bool)
        ensures
            r == (self@.len() == 0),
    {
        self.0.len() == 0
    }

    /// Whether two identities are the same path.
    pub fn same(&self, other: &ResourceId) -> (r: bool)
        ensures
            r == (self@ == other@),
    {
        if self.0.len() != other.0.len() {
            assert(self@.len() != other@.len());
            return false;
        }
        let mut i: usize = 0;
        while i < self.0.len()
            invariant
                self.0@.len() == other.0@.len(),
                i <= self.0@.len(),
                forall|j: int| 0 <= j < i ==> self.0@[j]@ == other.0@[j]@,
            decreases self.0@.len() - i,
        {
            if !self.0[i].same(&other.0[i]) {
                assert(self@[i as int] != other@[i as int]);
                return false;
            }
            i += 1;
        }
        assert(self@ =~= other@);
        true
    }

    /// The engine's key for the identity: the array of its parts, each a pair.
    pub fn to_value(&self) -> (r: Value)
        ensures
            r@ == encode_id(self@),
    {
        let mut items: Vec<Value> = Vec::new();
        let mut i: usize = 0;
        while i < self.0.len()
            invariant
                i <= self.0@.len(),
                items@.len() == i,
                forall|j: int| 0 <= j < i ==> items@[j]@ == encode_part(self.0@[j]@),
            decreases self.0@.len() - i,
        {
            items.push(self.0[i].to_value());
            i += 1;
        }
        proof {
            lemma_array_view(items);
            assert(values_view(items@) =~= Seq::new(self@.len(), |i: int| encode_part(self@[i])));
        }
        Value::Array(items)
    }

    /// The record identifier of the resource's row.
    pub fn to_record(&self) -> (r: Value)
        ensures
            r@ == resource_record(self@),
    {
        Value::Record(copy_str("resource"), Box::new(self.to_value()))
    }

    /// Reads an identity from the elements of an array of the engine.
    pub fn try_from_array(items: &Vec<Value>) -> (r: Result<ResourceId, MalformedIdentity>)
        ensures
            match r {
                Ok(id) => decode_parts(values_view(items@)) == Ok::<IdModel, MalformedIdentity>(
                    id@,
                ),
                Err(e) => decode_parts(values_view(items@)) == Err::<IdModel, MalformedIdentity>(
                    e,
                ),
            },
    {
        let ghost all = values_view(items@);
        let mut parts: Vec<ResourceIdPart> = Vec::new();
        let mut i: usize = 0;
        proof {
            assert(all.subrange(0, 0) =~= Seq::empty());
            assert(parts_view(parts@) =~= Seq::empty());
        }
        while i < items.len()
            invariant
                all == values_view(items@),
                i <= items@.len(),
                decode_parts(all.subrange(0, i as int)) == Ok::<IdModel, MalformedIdentity>(
                    parts_view(parts@),
                ),
            decreases items@.len() - i,
        {
            let ghost before = all.subrange(0, i as int);
            let ghost upto = all.subrange(0, i + 1);
            proof {
                assert(upto.drop_last() =~= before);
                assert(upto.last() == items@[i as int]@);
            }
            match ResourceIdPart::try_from_value(&items[i]) {
                Ok(part) => {
                    proof {
                        assert(parts_view(parts@.push(part)) =~= parts_view(parts@).push(part@));
                    }
                    parts.push(part);
                },
                Err(e) => {
                    proof {
                        lemma_decode_parts_prefix_error(all, i + 1);
                    }
                    return Err(e);
                },
            }
            i += 1;
        }
        assert(all.subrange(0, i as int) =~= all);
        Ok(ResourceId(parts))
    }

    /// Reads an identity from its engine key.
    pub fn try_from_value(v: &Value) -> (r: Result<ResourceId, MalformedIdentity>)
        ensures
            match r {
                Ok(id) => decode_id(v@) == Ok::<IdModel, MalformedIdentity>(id@),
                Err(e) => decode_id(v@) == Err::<IdModel, MalformedIdentity>(e),
            },
    {
        match v {
            Value::Array(items) => {
                proof {
                    lemma_array_view(*items);
                }
                ResourceId::try_from_array(items)
            },
            _ => Err(MalformedIdentity::NotAnArray),
        }
    }
}

/// A fault in a prefix of a list of elements is the fault of the whole list.
proof fn lemma_decode_parts_prefix_error(items: Seq<ValueView>, n: int)
    requires
        0 <= n <= items.len(),
        decode_parts(items.subrange(0, n)) is Err,
    ensures
        decode_parts(items) == decode_parts(items.subrange(0, n)),
    decreases items.len() - n,
{
    if n == items.len() {
        assert(items.subrange(0, n) =~= items);
    } else {
        let next = items.subrange(0, n + 1);
        assert(next.drop_last() =~= items.subrange(0, n));
        lemma_decode_parts_prefix_error(items, n + 1);
    }
}

} // verus!
