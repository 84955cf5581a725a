//! Reading identities, chains and events from documents.
//!
//! A document reaches the library either as plain data, as in a request, or
//! in the shape in which the storage engine hands out its records. Each
//! reader here accepts both: it tries the engine's shape first and the plain
//! shape second, and refuses what is neither.

use vstd::prelude::*;
use crate::event::{chains_view, Event};
use crate::global_container::GlobalContainer;
use crate::principal_chain::{
    chain_view, decode_chain_parts, opt_str_view, ChainModel, ChainPartModel, PrincipalChainId,
    PrincipalChainIdPart,
};
use crate::resource::{
    decode_parts, opt_value_view, parts_view, IdModel, PartModel, Resource, ResourceId,
    ResourceIdPart,
};
use crate::text::str_eq;
use crate::timestamp::Timestamp;
use crate::value::{
    entries_view, find_key, lemma_array_view, lemma_object_view, lookup, values_view, Value,
    ValueView,
};

verus! {

/// The document has neither of the shapes that the reader accepts.
#[derive(Clone, Copy, Debug, PartialEq, Eq, Structural)]
pub struct Malformed;

impl Malformed {
    /// A sentence that says what is wrong.
    pub fn message(&self) -> (r: String)
        ensures
            r@ == "document has an unexpected shape"@,
    {
        crate::text::copy_str("document has an unexpected shape")
    }
}

/// The string that a value is, if it is one.
pub open spec fn as_strand(v: Option<ValueView>) -> Option<Seq<char>> {
    match v {
        Some(ValueView::Strand(s)) => Some(s),
        _ => None,
    }
}

/// The part that a document stands for: a pair of two strings, or an object
/// with the two entries `type` and `id`, both strings, and no other entry.
pub open spec fn parse_part(v: ValueView) -> Option<PartModel> {
    match v {
        ValueView::Array(items) => if items.len() == 2 && items[0] is Strand && items[1] is Strand {
            Some((items[0]->Strand_0, items[1]->Strand_0))
        } else {
            None
        },
        ValueView::Object(entries) => if entries.len() == 2 && as_strand(lookup(entries, "type"@))
            is Some && as_strand(lookup(entries, "id"@)) is Some {
            Some((as_strand(lookup(entries, "type"@))->0, as_strand(lookup(entries, "id"@))->0))
        } else {
            None
        },
        _ => None,
    }
}

/// The parts that a list of documents stands for, if each stands for one.
pub open spec fn parse_parts(items: Seq<ValueView>) -> Option<IdModel>
    decreases items.len(),
{
    if items.len() == 0 {
        Some(Seq::empty())
    } else {
        match (parse_parts(items.drop_last()), parse_part(items.last())) {
            (Some(parts), Some(p)) => Some(parts.push(p)),
            _ => None,
        }
    }
}

/// The identity that a document stands for: the record identifier of a row
/// of the table `resource`, whose key is the identity's encoding; or an
/// array of parts.
pub open spec fn parse_resource_id(v: ValueView) -> Option<IdModel> {
    match v {
        ValueView::Record(table, key) => match *key {
            ValueView::Array(items) => if table == "resource"@ {
                match decode_parts(items) {
                    Ok(id) => Some(id),
                    Err(_) => None,
                }
            } else {
                None
            },
            _ => None,
        },
        ValueView::Array(items) => parse_parts(items),
        _ => None,
    }
}

/// The encoding of a part is read as the part.
pub proof fn lemma_parse_encode_part(p: PartModel)
    ensures
        parse_part(crate::resource::encode_part(p)) == Some(p),
{
}

proof fn lemma_parse_encode_parts(id: IdModel)
    ensures
        parse_parts(Seq::new(id.len(), |i: int| crate::resource::encode_part(id[i]))) == Some(id),
    decreases id.len(),
{
    let items = Seq::new(id.len(), |i: int| crate::resource::encode_part(id[i]));
    if id.len() == 0 {
        assert(id =~= Seq::empty());
    } else {
        let front = id.drop_last();
        lemma_parse_encode_parts(front);
        lemma_parse_encode_part(id.last());
        assert(items.drop_last() =~= Seq::new(
            front.len(),
            |i: int| crate::resource::encode_part(front[i]),
        ));
        assert(items.last() == crate::resource::encode_part(id.last()));
        assert(front.push(id.last()) =~= id);
    }
}

/// An identity is read back from its engine key and from the record
/// identifier of its row.
pub proof fn lemma_parse_encode(id: IdModel)
    ensures
        parse_resource_id(crate::resource::encode_id(id)) == Some(id),
        parse_resource_id(crate::resource::resource_record(id)) == Some(id),
{
    lemma_parse_encode_parts(id);
    crate::resource::lemma_decode_encode(id);
}

/// Where no part of a prefix can be read, none of the whole list can.
proof fn lemma_parse_parts_prefix(items: Seq<ValueView>, n: int)
    requires
        0 <= n <= items.len(),
        parse_parts(items.subrange(0, n)) is None,
    ensures
        parse_parts(items) is None,
    decreases items.len() - n,
{
    if n == items.len() {
        assert(items.subrange(0, n) =~= items);
    } else {
        assert(items.subrange(0, n + 1).drop_last() =~= items.subrange(0, n));
        lemma_parse_parts_prefix(items, n + 1);
    }
}

/// The string at the first entry with the given key, copied.
pub fn strand_at(entries: &Vec<(String, Value)>, key: &str) -> (r: Option<String>)
    ensures
        opt_str_view(r) == as_strand(lookup(entries_view(entries@), key@)),
{
    match find_key(entries, key) {
        Some(i) => match &entries[i].1 {
            Value::Strand(s) => Some(s.clone()),
            _ => None,
        },
        None => None,
    }
}

impl ResourceIdPart {
    /// Reads a part from a document in either of its shapes.
    pub fn parse(v: &Value) -> (r: Result<ResourceIdPart, Malformed>)
        ensures
            match r {
                Ok(part) => parse_part(v@) == Some(part@),
                Err(_) => parse_part(v@) is None,
            },
    {
        match v {
            Value::Array(items) => {
                proof {
                    lemma_array_view(*items);
                }
                if items.len() != 2 {
                    return Err(Malformed);
                }
                match (&items[0], &items[1]) {
                    (Value::Strand(ty), Value::Strand(id)) => Ok(
                        ResourceIdPart { ty: ty.clone(), id: id.clone() },
                    ),
                    _ => Err(Malformed),
                }
            },
            Value::Object(entries) => {
                proof {
                    lemma_object_view(*entries);
                }
                if entries.len() != 2 {
                    return Err(Malformed);
                }
                match (strand_at(entries, "type"), strand_at(entries, "id")) {
                    (Some(ty), Some(id)) => Ok(ResourceIdPart { ty, id }),
                    _ => Err(Malformed),
                }
            },
            _ => Err(Malformed),
        }
    }
}

impl ResourceId {
    /// Reads an identity from a list of parts, each in either of its shapes.
    pub fn parse_parts(items: &Vec<Value>) -> (r: Result<ResourceId, Malformed>)
        ensures
            match r {
                Ok(id) => parse_parts(values_view(items@)) == Some(id@),
                Err(_) => parse_parts(values_view(items@)) is None,
            },
    {
        let ghost all = values_view(items@);
        let mut parts: Vec<ResourceIdPart> = Vec::new();
        let mut i: usize = 0;
        proof {
            assert(all.subrange(0, 0) =~= Seq::empty());
            assert(parts_view(parts@) =~= Seq::empty());
        }
        while i < items.len()
            invariant
                all == values_view(items@),
                i <= items@.len(),
                parse_parts(all.subrange(0, i as int)) == Some(parts_view(parts@)),
            decreases items@.len() - i,
        {
            proof {
                assert(all.subrange(0, i + 1).drop_last() =~= all.subrange(0, i as int));
                assert(all.subrange(0, i + 1).last() == items@[i as int]@);
            }
            match ResourceIdPart::parse(&items[i]) {
                Ok(part) => {
                    proof {
                        assert(parts_view(parts@.push(part)) =~= parts_view(parts@).push(part@));
                    }
                    parts.push(part);
                },
                Err(e) => {
                    proof {
                        lemma_parse_parts_prefix(all, i + 1);
                    }
                    return Err(e);
                },
            }
            i += 1;
        }
        assert(all.subrange(0, i as int) =~= all);
        Ok(ResourceId(parts))
    }

    /// Reads an identity from a document in either of its shapes.
    pub fn parse(v: &Value) -> (r: Result<ResourceId, Malformed>)
        ensures
            match r {
                Ok(id) => parse_resource_id(v@) == Some(id@),
                Err(_) => parse_resource_id(v@) is None,
            },
    {
        match v {
            Value::Record(table, key) => match &**key {
                Value::Array(items) => {
                    proof {
                        lemma_array_view(*items);
                        assert(v@ == ValueView::Record(table@, Box::new((**key)@)));
                    }
                    if !str_eq(table.as_str(), "resource") {
                        return Err(Malformed);
                    }
                    match ResourceId::try_from_array(items) {
                        Ok(id) => Ok(id),
                        Err(_) => Err(Malformed),
                    }
                },
                _ => Err(Malformed),
            },
            Value::Array(items) => {
                proof {
                    lemma_array_view(*items);
                }
                ResourceId::parse_parts(items)
            },
            _ => Err(Malformed),
        }
    }
}

/// The entry at `i` is the only one whose key is `a` or `b`.
pub open spec fn is_sole_either(
    entries: Seq<(Seq<char>, ValueView)>,
    a: Seq<char>,
    b: Seq<char>,
    i: int,
) -> bool {
    &&& 0 <= i < entries.len()
    &&& entries[i].0 == a || entries[i].0 == b
    &&& forall|j: int|
        0 <= j < entries.len() && j != i ==> (#[trigger] entries[j]).0 != a && entries[j].0 != b
}

/// The position of the only entry whose key is `a` or `b`; nothing where
/// there is no such entry or more than one.
pub open spec fn sole_either(entries: Seq<(Seq<char>, ValueView)>, a: Seq<char>, b: Seq<char>) -> Option<
    int,
> {
    if exists|i: int| is_sole_either(entries, a, b, i) {
        Some(choose|i: int| is_sole_either(entries, a, b, i))
    } else {
        None
    }
}

/// The entry at `i` is the last one with the given key.
pub open spec fn is_last_with(entries: Seq<(Seq<char>, ValueView)>, key: Seq<char>, i: int) -> bool {
    &&& 0 <= i < entries.len()
    &&& entries[i].0 == key
    &&& forall|j: int| i < j < entries.len() ==> (#[trigger] entries[j]).0 != key
}

/// The position of the last entry with the given key, if there is one.
pub open spec fn last_with(entries: Seq<(Seq<char>, ValueView)>, key: Seq<char>) -> Option<int> {
    if exists|i: int| is_last_with(entries, key, i) {
        Some(choose|i: int| is_last_with(entries, key, i))
    } else {
        None
    }
}

/// The position of the only entry whose key is `a` or `b`.
pub fn find_sole_either(entries: &Vec<(String, Value)>, a: &str, b: &str) -> (r: Option<usize>)
    ensures
        match r {
            Some(i) => sole_either(entries_view(entries@), a@, b@) == Some(i as int) && i
                < entries@.len(),
            None => sole_either(entries_view(entries@), a@, b@) is None,
        },
{
    let ghost all = entries_view(entries@);
    let mut found: Option<usize> = None;
    let mut i: usize = 0;
    while i < entries.len()
        invariant
            all == entries_view(entries@),
            i <= entries@.len(),
            match found {
                Some(at) => at < i && (all[at as int].0 == a@ || all[at as int].0 == b@)
                    && forall|j: int|
                    0 <= j < i && j != at ==> (#[trigger] all[j]).0 != a@ && all[j].0 != b@,
                None => forall|j: int| 0 <= j < i ==> (#[trigger] all[j]).0 != a@ && all[j].0 != b@,
            },
        decreases entries@.len() - i,
    {
        let key = entries[i].0.as_str();
        if str_eq(key, a) || str_eq(key, b) {
            assert(all[i as int].0 == a@ || all[i as int].0 == b@);
            match found {
                Some(at) => {
                    proof {
                        assert forall|k: int| !is_sole_either(all, a@, b@, k) by {
                            if is_sole_either(all, a@, b@, k) {
                                if k != at as int {
                                    assert(all[at as int].0 != a@ && all[at as int].0 != b@);
                                } else {
                                    assert(all[i as int].0 != a@ && all[i as int].0 != b@);
                                }
                            }
                        }
                    }
                    return None;
                },
                None => {
                    found = Some(i);
                },
            }
        }
        i += 1;
    }
    proof {
        match found {
            Some(at) => {
                assert(is_sole_either(all, a@, b@, at as int));
                let k = choose|k: int| is_sole_either(all, a@, b@, k);
                if k != at as int {
                    assert(all[at as int].0 != a@ && all[at as int].0 != b@);
                }
            },
            None => {
                assert forall|k: int| !is_sole_either(all, a@, b@, k) by {
                    if is_sole_either(all, a@, b@, k) {
                        assert(all[k].0 != a@ && all[k].0 != b@);
                    }
                }
            },
        }
    }
    found
}

/// The position of the last entry with the given key.
pub fn find_last_with(entries: &Vec<(String, Value)>, key: &str) -> (r: Option<usize>)
    ensures
        match r {
            Some(i) => last_with(entries_view(entries@), key@) == Some(i as int) && i
                < entries@.len(),
            None => last_with(entries_view(entries@), key@) is None,
        },
{
    let ghost all = entries_view(entries@);
    let mut found: Option<usize> = None;
    let mut i: usize = 0;
    while i < entries.len()
        invariant
            all == entries_view(entries@),
            i <= entries@.len(),
            match found {
                Some(at) => at < i && all[at as int].0 == key@ && forall|j: int|
                    at < j < i ==> (#[trigger] all[j]).0 != key@,
                None => forall|j: int| 0 <= j < i ==> (#[trigger] all[j]).0 != key@,
            },
        decreases entries@.len() - i,
    {
        if str_eq(entries[i].0.as_str(), key) {
            assert(all[i as int].0 == key@);
            found = Some(i);
        }
        i += 1;
    }
    proof {
        match found {
            Some(at) => {
                assert(is_last_with(all, key@, at as int));
                let k = choose|k: int| is_last_with(all, key@, k);
                if k < at {
                    assert(all[at as int].0 != key@);
                } else if k > at {
                    assert(all[k].0 != key@);
                }
            },
            None => {
                assert forall|k: int| !is_last_with(all, key@, k) by {
                    if is_last_with(all, key@, k) {
                        assert(all[k].0 != key@);
                    }
                }
            },
        }
    }
    found
}

/// What an entry says of a hop's event: a string names the event; a value
/// that is null or absent, or no entry at all, says that there is none.
pub open spec fn parse_event_note(v: Option<ValueView>) -> Option<Option<Seq<char>>> {
    match v {
        None => Some(None),
        Some(ValueView::Strand(s)) => Some(Some(s)),
        Some(ValueView::Null) => Some(None),
        Some(ValueView::Absent) => Some(None),
        Some(_) => None,
    }
}

/// The value of the entry at a position that may be missing.
pub open spec fn value_at(entries: Seq<(Seq<char>, ValueView)>, i: Option<int>) -> Option<
    ValueView,
> {
    match i {
        Some(i) => Some(entries[i].1),
        None => None,
    }
}

/// No two entries have the given key.
pub open spec fn at_most_one(entries: Seq<(Seq<char>, ValueView)>, key: Seq<char>) -> bool {
    forall|i: int, j: int|
        0 <= i < j < entries.len() && (#[trigger] entries[i]).0 == key ==> (
        #[trigger] entries[j]).0 != key
}

/// The hop that a document stands for: an object with one entry `id`, which
/// stands for a resource identity, and at most one entry `event`; or a pair
/// of these two. Other entries of the object are passed over.
pub open spec fn parse_chain_part(v: ValueView) -> Option<ChainPartModel> {
    match v {
        ValueView::Object(entries) => {
            let id = sole_either(entries, "id"@, "id"@);
            let note = parse_event_note(lookup(entries, "event"@));
            if id is Some && parse_resource_id(entries[id->0].1) is Some && at_most_one(
                entries,
                "event"@,
            ) && note is Some {
                Some((parse_resource_id(entries[id->0].1)->0, note->0))
            } else {
                None
            }
        },
        ValueView::Array(items) => if items.len() == 2 && parse_resource_id(items[0]) is Some
            && parse_event_note(Some(items[1])) is Some {
            Some((parse_resource_id(items[0])->0, parse_event_note(Some(items[1]))->0))
        } else {
            None
        },
        _ => None,
    }
}

/// The hops that a list of documents stands for, if each stands for one.
pub open spec fn parse_chain_parts(items: Seq<ValueView>) -> Option<ChainModel>
    decreases items.len(),
{
    if items.len() == 0 {
        Some(Seq::empty())
    } else {
        match (parse_chain_parts(items.drop_last()), parse_chain_part(items.last())) {
            (Some(parts), Some(p)) => Some(parts.push(p)),
            _ => None,
        }
    }
}

/// The chain identity that a document stands for: the record identifier of
/// a row of the table `principal_chain`, whose key is the chain's encoding;
/// or an array of hops.
pub open spec fn parse_chain_id(v: ValueView) -> Option<ChainModel> {
    match v {
        ValueView::Record(table, key) => match *key {
            ValueView::Array(items) => if table == "principal_chain"@ {
                match decode_chain_parts(items) {
                    Ok(id) => Some(id),
                    Err(_) => None,
                }
            } else {
                None
            },
            _ => None,
        },
        ValueView::Array(items) => parse_chain_parts(items),
        _ => None,
    }
}

/// Where no hop of a prefix can be read, none of the whole list can.
proof fn lemma_parse_chain_parts_prefix(items: Seq<ValueView>, n: int)
    requires
        0 <= n <= items.len(),
        parse_chain_parts(items.subrange(0, n)) is None,
    ensures
        parse_chain_parts(items) is None,
    decreases items.len() - n,
{
    if n == items.len() {
        assert(items.subrange(0, n) =~= items);
    } else {
        assert(items.subrange(0, n + 1).drop_last() =~= items.subrange(0, n));
        lemma_parse_chain_parts_prefix(items, n + 1);
    }
}

/// Reads what a value says of a hop's event.
pub fn event_note(v: Option<&Value>) -> (r: Option<Option<String>>)
    ensures
        match r {
            Some(note) => parse_event_note(
                match v {
                    Some(v) => Some(v@),
                    None => None,
                },
            ) == Some(opt_str_view(note)),
            None => parse_event_note(
                match v {
                    Some(v) => Some(v@),
                    None => None,
                },
            ) is None,
        },
{
    match v {
        None => Some(None),
        Some(Value::Strand(s)) => Some(Some(s.clone())),
        Some(Value::Null) => Some(None),
        Some(Value::Absent) => Some(None),
        Some(_) => None,
    }
}

/// Whether at most one entry has the given key.
pub fn has_at_most_one(entries: &Vec<(String, Value)>, key: &str) -> (r: bool)
    ensures
        r == at_most_one(entries_view(entries@), key@),
{
    let ghost all = entries_view(entries@);
    let mut seen = false;
    let mut i: usize = 0;
    while i < entries.len()
        invariant
            all == entries_view(entries@),
            i <= entries@.len(),
            seen <==> exists|j: int| 0 <= j < i && (#[trigger] all[j]).0 == key@,
            forall|a: int, b: int|
                0 <= a < b < i && (#[trigger] all[a]).0 == key@ ==> (#[trigger] all[b]).0 != key@,
        decreases entries@.len() - i,
    {
        if str_eq(entries[i].0.as_str(), key) {
            assert(all[i as int].0 == key@);
            if seen {
                proof {
                    let j = choose|j: int| 0 <= j < i && (#[trigger] all[j]).0 == key@;
                    assert(all[j].0 == key@ && all[i as int].0 == key@);
                }
                return false;
            }
            seen = true;
        }
        i += 1;
    }
    true
}

impl PrincipalChainIdPart {
    /// Reads a hop from a document in either of its shapes.
    pub fn parse(v: &Value) -> (r: Result<PrincipalChainIdPart, Malformed>)
        ensures
            match r {
                Ok(part) => parse_chain_part(v@) == Some(part@),
                Err(_) => parse_chain_part(v@) is None,
            },
    {
        match v {
            Value::Object(entries) => {
                proof {
                    lemma_object_view(*entries);
                }
                let at = match find_sole_either(entries, "id", "id") {
                    Some(at) => at,
                    None => {
                        return Err(Malformed);
                    },
                };
                let id = match ResourceId::parse(&entries[at].1) {
                    Ok(id) => id,
                    Err(e) => {
                        return Err(e);
                    },
                };
                if !has_at_most_one(entries, "event") {
                    return Err(Malformed);
                }
                let note = match find_key(entries, "event") {
                    Some(i) => event_note(Some(&entries[i].1)),
                    None => event_note(None),
                };
                match note {
                    Some(event) => Ok(PrincipalChainIdPart { id, event }),
                    None => Err(Malformed),
                }
            },
            Value::Array(items) => {
                proof {
                    lemma_array_view(*items);
                }
                if items.len() != 2 {
                    return Err(Malformed);
                }
                let id = match ResourceId::parse(&items[0]) {
                    Ok(id) => id,
                    Err(e) => {
                        return Err(e);
                    },
                };
                match event_note(Some(&items[1])) {
                    Some(event) => Ok(PrincipalChainIdPart { id, event }),
                    None => Err(Malformed),
                }
            },
            _ => Err(Malformed),
        }
    }
}

impl PrincipalChainId {
    /// Reads a chain identity from a list of hops, each in either of its
    /// shapes.
    pub fn parse_parts(items: &Vec<Value>) -> (r: Result<PrincipalChainId, Malformed>)
        ensures
            match r {
                Ok(id) => parse_chain_parts(values_view(items@)) == Some(id@),
                Err(_) => parse_chain_parts(values_view(items@)) is None,
            },
    {
        let ghost all = values_view(items@);
        let mut parts: Vec<PrincipalChainIdPart> = Vec::new();
        let mut i: usize = 0;
        proof {
            assert(all.subrange(0, 0) =~= Seq::empty());
            assert(chain_view(parts@) =~= Seq::empty());
        }
        while i < items.len()
            invariant
                all == values_view(items@),
                i <= items@.len(),
                parse_chain_parts(all.subrange(0, i as int)) == Some(chain_view(parts@)),
            decreases items@.len() - i,
        {
            proof {
                assert(all.subrange(0, i + 1).drop_last() =~= all.subrange(0, i as int));
                assert(all.subrange(0, i + 1).last() == items@[i as int]@);
            }
            match PrincipalChainIdPart::parse(&items[i]) {
                Ok(part) => {
                    proof {
                        assert(chain_view(parts@.push(part)) =~= chain_view(parts@).push(part@));
                    }
                    parts.push(part);
                },
                Err(e) => {
                    proof {
                        lemma_parse_chain_parts_prefix(all, i + 1);
                    }
                    return Err(e);
                },
            }
            i += 1;
        }
        assert(all.subrange(0, i as int) =~= all);
        Ok(PrincipalChainId(parts))
    }

    /// Reads a chain identity from a document in either of its shapes.
    pub fn parse(v: &Value) -> (r: Result<PrincipalChainId, Malformed>)
        ensures
            match r {
                Ok(id) => parse_chain_id(v@) == Some(id@),
                Err(_) => parse_chain_id(v@) is None,
            },
    {
        match v {
            Value::Record(table, key) => match &**key {
                Value::Array(items) => {
                    proof {
                        lemma_array_view(*items);
                        assert(v@ == ValueView::Record(table@, Box::new((**key)@)));
                    }
                    if !str_eq(table.as_str(), "principal_chain") {
                        return Err(Malformed);
                    }
                    match PrincipalChainId::try_from_array(items) {
                        Ok(id) => Ok(id),
                        Err(_) => Err(Malformed),
                    }
                },
                _ => Err(Malformed),
            },
            Value::Array(items) => {
                proof {
                    lemma_array_view(*items);
                }
                PrincipalChainId::parse_parts(items)
            },
            _ => Err(Malformed),
        }
    }
}

/// Model of an event edge with its key.
pub ghost struct EventModel {
    pub principal: IdModel,
    pub ty: Seq<char>,
    pub resource: IdModel,
    pub principal_chains: Seq<ChainModel>,
    pub has_direct_principal_chain: bool,
    pub first_seen_at: Timestamp,
    pub last_seen_at: Timestamp,
}

/// The model of an event edge.
pub open spec fn event_model(e: &Event) -> EventModel {
    EventModel {
        principal: e.principal@,
        ty: e.ty@,
        resource: e.resource@,
        principal_chains: chains_view(e.principal_chains@),
        has_direct_principal_chain: e.has_direct_principal_chain,
        first_seen_at: e.first_seen_at,
        last_seen_at: e.last_seen_at,
    }
}

/// Whether a key is one that an event document may hold.
pub open spec fn is_event_key(k: Seq<char>) -> bool {
    ||| k == "id"@
    ||| k == "in"@
    ||| k == "principal"@
    ||| k == "type"@
    ||| k == "out"@
    ||| k == "resource"@
    ||| k == "principal_chains"@
    ||| k == "has_direct_principal_chain"@
    ||| k == "first_seen_at"@
    ||| k == "last_seen_at"@
}

/// Every entry has a key that an event document may hold.
pub open spec fn all_event_keys(entries: Seq<(Seq<char>, ValueView)>) -> bool {
    forall|i: int| 0 <= i < entries.len() ==> is_event_key((#[trigger] entries[i]).0)
}

/// Every entry with the given key is a string.
pub open spec fn all_strands(entries: Seq<(Seq<char>, ValueView)>, key: Seq<char>) -> bool {
    forall|i: int|
        0 <= i < entries.len() && (#[trigger] entries[i]).0 == key ==> entries[i].1 is Strand
}

/// Every entry with the given key is an instant.
pub open spec fn all_datetimes(entries: Seq<(Seq<char>, ValueView)>, key: Seq<char>) -> bool {
    forall|i: int|
        0 <= i < entries.len() && (#[trigger] entries[i]).0 == key ==> entries[i].1 is Datetime
}

/// The chain identities that a list of documents stands for, if each stands
/// for one.
pub open spec fn parse_chain_ids(items: Seq<ValueView>) -> Option<Seq<ChainModel>>
    decreases items.len(),
{
    if items.len() == 0 {
        Some(Seq::empty())
    } else {
        match (parse_chain_ids(items.drop_last()), parse_chain_id(items.last())) {
            (Some(chains), Some(c)) => Some(chains.push(c)),
            _ => None,
        }
    }
}

/// The chains that the entry `principal_chains` stands for.
pub open spec fn parse_chains_entry(v: ValueView) -> Option<Seq<ChainModel>> {
    match v {
        ValueView::Array(items) => parse_chain_ids(items),
        _ => None,
    }
}

/// Whether the value is the boolean `true`.
pub open spec fn is_true(v: Option<ValueView>) -> bool {
    v == Some(ValueView::Bool(true))
}

/// The event edge that a document stands for. The document is an object.
/// Its principal stands under `in` or `principal`, its resource under `out`
/// or `resource`, its chains under `principal_chains`: each of these once.
/// Its type and its two instants may be repeated, and then the last one
/// counts. An entry `id` is passed over. Every other key is refused.
pub open spec fn parse_event(v: ValueView) -> Option<EventModel> {
    match v {
        ValueView::Object(entries) => {
            let p = sole_either(entries, "in"@, "principal"@);
            let r = sole_either(entries, "out"@, "resource"@);
            let c = sole_either(entries, "principal_chains"@, "principal_chains"@);
            let t = last_with(entries, "type"@);
            let f = last_with(entries, "first_seen_at"@);
            let l = last_with(entries, "last_seen_at"@);
            let d = last_with(entries, "has_direct_principal_chain"@);
            if all_event_keys(entries) && p is Some && r is Some && c is Some && t is Some && f
                is Some && l is Some && all_strands(entries, "type"@) && all_datetimes(
                entries,
                "first_seen_at"@,
            ) && all_datetimes(entries, "last_seen_at"@) && parse_resource_id(entries[p->0].1)
                is Some && parse_resource_id(entries[r->0].1) is Some && parse_chains_entry(
                entries[c->0].1,
            ) is Some {
                Some(
                    EventModel {
                        principal: parse_resource_id(entries[p->0].1)->0,
                        ty: entries[t->0].1->Strand_0,
                        resource: parse_resource_id(entries[r->0].1)->0,
                        principal_chains: parse_chains_entry(entries[c->0].1)->0,
                        has_direct_principal_chain: is_true(value_at(entries, d)),
                        first_seen_at: entries[f->0].1->Datetime_0,
                        last_seen_at: entries[l->0].1->Datetime_0,
                    },
                )
            } else {
                None
            }
        },
        _ => None,
    }
}

/// Where no chain of a prefix can be read, none of the whole list can.
proof fn lemma_parse_chain_ids_prefix(items: Seq<ValueView>, n: int)
    requires
        0 <= n <= items.len(),
        parse_chain_ids(items.subrange(0, n)) is None,
    ensures
        parse_chain_ids(items) is None,
    decreases items.len() - n,
{
    if n == items.len() {
        assert(items.subrange(0, n) =~= items);
    } else {
        assert(items.subrange(0, n + 1).drop_last() =~= items.subrange(0, n));
        lemma_parse_chain_ids_prefix(items, n + 1);
    }
}

/// Whether a key is one that an event document may hold.
pub fn event_key(k: &str) -> (r: bool)
    ensures
        r == is_event_key(k@),
{
    str_eq(k, "id") || str_eq(k, "in") || str_eq(k, "principal") || str_eq(k, "type") || str_eq(
        k,
        "out",
    ) || str_eq(k, "resource") || str_eq(k, "principal_chains") || str_eq(
        k,
        "has_direct_principal_chain",
    ) || str_eq(k, "first_seen_at") || str_eq(k, "last_seen_at")
}

/// Whether every entry has a key that an event document may hold.
pub fn has_only_event_keys(entries: &Vec<(String, Value)>) -> (r: bool)
    ensures
        r == all_event_keys(entries_view(entries@)),
{
    let ghost all = entries_view(entries@);
    let mut i: usize = 0;
    while i < entries.len()
        invariant
            all == entries_view(entries@),
            i <= entries@.len(),
            forall|j: int| 0 <= j < i ==> is_event_key((#[trigger] all[j]).0),
        decreases entries@.len() - i,
    {
        if !event_key(entries[i].0.as_str()) {
            assert(!is_event_key(all[i as int].0));
            return false;
        }
        i += 1;
    }
    true
}

/// Whether every entry with the given key is a string.
pub fn has_only_strands(entries: &Vec<(String, Value)>, key: &str) -> (r: bool)
    ensures
        r == all_strands(entries_view(entries@), key@),
{
    let ghost all = entries_view(entries@);
    let mut i: usize = 0;
    while i < entries.len()
        invariant
            all == entries_view(entries@),
            i <= entries@.len(),
            forall|j: int| 0 <= j < i && (#[trigger] all[j]).0 == key@ ==> all[j].1 is Strand,
        decreases entries@.len() - i,
    {
        if str_eq(entries[i].0.as_str(), key) {
            match &entries[i].1 {
                Value::Strand(_) => {},
                _ => {
                    assert(all[i as int].0 == key@ && !(all[i as int].1 is Strand));
                    return false;
                },
            }
        }
        i += 1;
    }
    true
}

/// Whether every entry with the given key is an instant.
pub fn has_only_datetimes(entries: &Vec<(String, Value)>, key: &str) -> (r: bool)
    ensures
        r == all_datetimes(entries_view(entries@), key@),
{
    let ghost all = entries_view(entries@);
    let mut i: usize = 0;
    while i < entries.len()
        invariant
            all == entries_view(entries@),
            i <= entries@.len(),
            forall|j: int| 0 <= j < i && (#[trigger] all[j]).0 == key@ ==> all[j].1 is Datetime,
        decreases entries@.len() - i,
    {
        if str_eq(entries[i].0.as_str(), key) {
            match &entries[i].1 {
                Value::Datetime(_) => {},
                _ => {
                    assert(all[i as int].0 == key@ && !(all[i as int].1 is Datetime));
                    return false;
                },
            }
        }
        i += 1;
    }
    true
}

/// Reads the chains of an event from the entry `principal_chains`.
pub fn parse_chains(v: &Value) -> (r: Result<Vec<PrincipalChainId>, Malformed>)
    ensures
        match r {
            Ok(chains) => parse_chains_entry(v@) == Some(chains_view(chains@)),
            Err(_) => parse_chains_entry(v@) is None,
        },
{
    let items = match v {
        Value::Array(items) => items,
        _ => {
            return Err(Malformed);
        },
    };
    proof {
        lemma_array_view(*items);
    }
    let ghost all = values_view(items@);
    let mut chains: Vec<PrincipalChainId> = Vec::new();
    let mut i: usize = 0;
    proof {
        assert(all.subrange(0, 0) =~= Seq::empty());
        assert(chains_view(chains@) =~= Seq::empty());
    }
    while i < items.len()
        invariant
            all == values_view(items@),
            v@ == ValueView::Array(all),
            i <= items@.len(),
            parse_chain_ids(all.subrange(0, i as int)) == Some(chains_view(chains@)),
        decreases items@.len() - i,
    {
        proof {
            assert(all.subrange(0, i + 1).drop_last() =~= all.subrange(0, i as int));
            assert(all.subrange(0, i + 1).last() == items@[i as int]@);
        }
        match PrincipalChainId::parse(&items[i]) {
            Ok(chain) => {
                proof {
                    assert(chains_view(chains@.push(chain)) =~= chains_view(chains@).push(chain@));
                }
                chains.push(chain);
            },
            Err(e) => {
                proof {
                    lemma_parse_chain_ids_prefix(all, i + 1);
                }
                return Err(e);
            },
        }
        i += 1;
    }
    assert(all.subrange(0, i as int) =~= all);
    Ok(chains)
}

impl Event {
    /// Reads an event edge from a document.
    pub fn parse(v: &Value) -> (r: Result<Event, Malformed>)
        ensures
            match r {
                Ok(event) => parse_event(v@) == Some(event_model(&event)),
                Err(_) => parse_event(v@) is None,
            },
    {
        let entries = match v {
            Value::Object(entries) => entries,
            _ => {
                return Err(Malformed);
            },
        };
        proof {
            lemma_object_view(*entries);
        }
        if !has_only_event_keys(entries) || !has_only_strands(entries, "type")
            || !has_only_datetimes(entries, "first_seen_at") || !has_only_datetimes(
            entries,
            "last_seen_at",
        ) {
            return Err(Malformed);
        }
        let p = find_sole_either(entries, "in", "principal");
        let r = find_sole_either(entries, "out", "resource");
        let c = find_sole_either(entries, "principal_chains", "principal_chains");
        let t = find_last_with(entries, "type");
        let f = find_last_with(entries, "first_seen_at");
        let l = find_last_with(entries, "last_seen_at");
        let d = find_last_with(entries, "has_direct_principal_chain");
        match (p, r, c, t, f, l) {
            (Some(p), Some(r), Some(c), Some(t), Some(f), Some(l)) => {
                let principal = match ResourceId::parse(&entries[p].1) {
                    Ok(id) => id,
                    Err(e) => {
                        return Err(e);
                    },
                };
                let resource = match ResourceId::parse(&entries[r].1) {
                    Ok(id) => id,
                    Err(e) => {
                        return Err(e);
                    },
                };
                let principal_chains = match parse_chains(&entries[c].1) {
                    Ok(chains) => chains,
                    Err(e) => {
                        return Err(e);
                    },
                };
                let ty = match &entries[t].1 {
                    Value::Strand(s) => s.clone(),
                    _ => {
                        return Err(Malformed);
                    },
                };
                let first_seen_at = match &entries[f].1 {
                    Value::Datetime(at) => *at,
                    _ => {
                        return Err(Malformed);
                    },
                };
                let last_seen_at = match &entries[l].1 {
                    Value::Datetime(at) => *at,
                    _ => {
                        return Err(Malformed);
                    },
                };
                let has_direct_principal_chain = match d {
                    Some(d) => match &entries[d].1 {
                        Value::Bool(b) => *b,
                        _ => false,
                    },
                    None => false,
                };
                Ok(
                    Event {
                        principal,
                        ty,
                        resource,
                        principal_chains,
                        has_direct_principal_chain,
                        first_seen_at,
                        last_seen_at,
                    },
                )
            },
            _ => Err(Malformed),
        }
    }
}

/// Model of a resource with its identity.
pub ghost struct ResourceModel {
    pub id: IdModel,
    pub environments: Seq<Seq<char>>,
    pub first_seen_at: Option<Timestamp>,
    pub last_seen_at: Option<Timestamp>,
    pub attributes: Option<ValueView>,
}

/// The texts of a list of strings.
pub open spec fn strings_view(items: Seq<String>) -> Seq<Seq<char>> {
    Seq::new(items.len(), |i: int| items[i]@)
}

/// The model of a resource.
pub open spec fn resource_model(r: &Resource) -> ResourceModel {
    ResourceModel {
        id: r.id@,
        environments: strings_view(r.environments@),
        first_seen_at: r.first_seen_at,
        last_seen_at: r.last_seen_at,
        attributes: opt_value_view(r.attributes),
    }
}

/// The texts that a list of documents stands for, if each is a string.
pub open spec fn parse_strings(items: Seq<ValueView>) -> Option<Seq<Seq<char>>> {
    if forall|i: int| 0 <= i < items.len() ==> (#[trigger] items[i]) is Strand {
        Some(Seq::new(items.len(), |i: int| items[i]->Strand_0))
    } else {
        None
    }
}

/// The environments that an entry stands for: none where there is no entry.
pub open spec fn parse_environments(v: Option<ValueView>) -> Option<Seq<Seq<char>>> {
    match v {
        None => Some(Seq::empty()),
        Some(ValueView::Array(items)) => parse_strings(items),
        Some(_) => None,
    }
}

/// The instant that an entry stands for: none where there is no entry or
/// where its value is null or absent.
pub open spec fn parse_instant(v: Option<ValueView>) -> Option<Option<Timestamp>> {
    match v {
        None => Some(None),
        Some(ValueView::Null) => Some(None),
        Some(ValueView::Absent) => Some(None),
        Some(ValueView::Datetime(t)) => Some(Some(t)),
        Some(_) => None,
    }
}

/// The attributes that an entry stands for: an object, or none.
pub open spec fn parse_attributes(v: Option<ValueView>) -> Option<Option<ValueView>> {
    match v {
        None => Some(None),
        Some(ValueView::Null) => Some(None),
        Some(ValueView::Absent) => Some(None),
        Some(ValueView::Object(entries)) => Some(Some(ValueView::Object(entries))),
        Some(_) => None,
    }
}

/// The resource that a document stands for: an object with one entry `id`,
/// which stands for a resource identity, and at most one entry each of
/// `environments`, `first_seen_at`, `last_seen_at` and `attributes`. Other
/// entries are passed over.
pub open spec fn parse_resource(v: ValueView) -> Option<ResourceModel> {
    match v {
        ValueView::Object(entries) => {
            let id = sole_either(entries, "id"@, "id"@);
            let environments = parse_environments(lookup(entries, "environments"@));
            let first = parse_instant(lookup(entries, "first_seen_at"@));
            let last = parse_instant(lookup(entries, "last_seen_at"@));
            let attributes = parse_attributes(lookup(entries, "attributes"@));
            if id is Some && parse_resource_id(entries[id->0].1) is Some && at_most_one(
                entries,
                "environments"@,
            ) && at_most_one(entries, "first_seen_at"@) && at_most_one(entries, "last_seen_at"@)
                && at_most_one(entries, "attributes"@) && environments is Some && first is Some
                && last is Some && attributes is Some {
                Some(
                    ResourceModel {
                        id: parse_resource_id(entries[id->0].1)->0,
                        environments: environments->0,
                        first_seen_at: first->0,
                        last_seen_at: last->0,
                        attributes: attributes->0,
                    },
                )
            } else {
                None
            }
        },
        _ => None,
    }
}

/// The global container that a document stands for: an object with one
/// entry `id` and one entry `contains`, both resource identities. Other
/// entries are passed over.
pub open spec fn parse_global_container(v: ValueView) -> Option<(IdModel, IdModel)> {
    match v {
        ValueView::Object(entries) => {
            let id = sole_either(entries, "id"@, "id"@);
            let contains = sole_either(entries, "contains"@, "contains"@);
            if id is Some && contains is Some && parse_resource_id(entries[id->0].1) is Some
                && parse_resource_id(entries[contains->0].1) is Some {
                Some(
                    (
                        parse_resource_id(entries[id->0].1)->0,
                        parse_resource_id(entries[contains->0].1)->0,
                    ),
                )
            } else {
                None
            }
        },
        _ => None,
    }
}

/// The value of the first entry with the given key.
pub fn entry_value<'a>(entries: &'a Vec<(String, Value)>, key: &str) -> (r: Option<&'a Value>)
    ensures
        match r {
            Some(v) => lookup(entries_view(entries@), key@) == Some(v@),
            None => lookup(entries_view(entries@), key@) is None,
        },
{
    match find_key(entries, key) {
        Some(i) => Some(&entries[i].1),
        None => None,
    }
}

/// Reads the environments of a resource.
pub fn environments_of(v: Option<&Value>) -> (r: Option<Vec<String>>)
    ensures
        match r {
            Some(list) => parse_environments(
                match v {
                    Some(v) => Some(v@),
                    None => None,
                },
            ) == Some(strings_view(list@)),
            None => parse_environments(
                match v {
                    Some(v) => Some(v@),
                    None => None,
                },
            ) is None,
        },
{
    let items = match v {
        None => {
            let list: Vec<String> = Vec::new();
            assert(strings_view(list@) =~= Seq::empty());
            return Some(list);
        },
        Some(Value::Array(items)) => items,
        Some(_) => {
            return None;
        },
    };
    proof {
        lemma_array_view(*items);
    }
    let ghost all = values_view(items@);
    let mut list: Vec<String> = Vec::new();
    let mut i: usize = 0;
    while i < items.len()
        invariant
            all == values_view(items@),
            v is Some,
            v->0@ == ValueView::Array(all),
            i <= items@.len(),
            list@.len() == i,
            forall|j: int| 0 <= j < i ==> (#[trigger] all[j]) is Strand && list@[j]@
                == all[j]->Strand_0,
        decreases items@.len() - i,
    {
        match &items[i] {
            Value::Strand(s) => {
                list.push(s.clone());
            },
            _ => {
                assert(!(all[i as int] is Strand));
                return None;
            },
        }
        i += 1;
    }
    assert(strings_view(list@) =~= parse_strings(all)->0);
    Some(list)
}

/// Reads an instant that may be missing.
pub fn instant_of(v: Option<&Value>) -> (r: Option<Option<Timestamp>>)
    ensures
        r == parse_instant(
            match v {
                Some(v) => Some(v@),
                None => None,
            },
        ),
{
    match v {
        None => Some(None),
        Some(Value::Null) => Some(None),
        Some(Value::Absent) => Some(None),
        Some(Value::Datetime(t)) => Some(Some(*t)),
        Some(_) => None,
    }
}

/// Reads attributes that may be missing.
pub fn attributes_of(v: Option<&Value>) -> (r: Option<Option<Value>>)
    ensures
        match r {
            Some(found) => parse_attributes(
                match v {
                    Some(v) => Some(v@),
                    None => None,
                },
            ) == Some(opt_value_view(found)),
            None => parse_attributes(
                match v {
                    Some(v) => Some(v@),
                    None => None,
                },
            ) is None,
        },
{
    match v {
        None => Some(None),
        Some(Value::Null) => Some(None),
        Some(Value::Absent) => Some(None),
        Some(Value::Object(entries)) => {
            proof {
                lemma_object_view(*entries);
            }
            let copied = crate::value::clone_entries(entries);
            proof {
                lemma_object_view(copied);
            }
            Some(Some(Value::Object(copied)))
        },
        Some(_) => None,
    }
}

impl Resource {
    /// Reads a resource from a document.
    pub fn parse(v: &Value) -> (r: Result<Resource, Malformed>)
        ensures
            match r {
                Ok(resource) => parse_resource(v@) == Some(resource_model(&resource)),
                Err(_) => parse_resource(v@) is None,
            },
    {
        let entries = match v {
            Value::Object(entries) => entries,
            _ => {
                return Err(Malformed);
            },
        };
        proof {
            lemma_object_view(*entries);
        }
        let at = match find_sole_either(entries, "id", "id") {
            Some(at) => at,
            None => {
                return Err(Malformed);
            },
        };
        let id = match ResourceId::parse(&entries[at].1) {
            Ok(id) => id,
            Err(e) => {
                return Err(e);
            },
        };
        if !has_at_most_one(entries, "environments") || !has_at_most_one(entries, "first_seen_at")
            || !has_at_most_one(entries, "last_seen_at") || !has_at_most_one(
            entries,
            "attributes",
        ) {
            return Err(Malformed);
        }
        let environments = environments_of(entry_value(entries, "environments"));
        let first_seen_at = instant_of(entry_value(entries, "first_seen_at"));
        let last_seen_at = instant_of(entry_value(entries, "last_seen_at"));
        let attributes = attributes_of(entry_value(entries, "attributes"));
        match (environments, first_seen_at, last_seen_at, attributes) {
            (Some(environments), Some(first_seen_at), Some(last_seen_at), Some(attributes)) => Ok(
                Resource { id, environments, first_seen_at, last_seen_at, attributes },
            ),
            _ => Err(Malformed),
        }
    }
}

impl GlobalContainer {
    /// Reads a global container from a document.
    pub fn parse(v: &Value) -> (r: Result<GlobalContainer, Malformed>)
        ensures
            match r {
                Ok(c) => parse_global_container(v@) == Some((c.id@, c.contains@)),
                Err(_) => parse_global_container(v@) is None,
            },
    {
        let entries = match v {
            Value::Object(entries) => entries,
            _ => {
                return Err(Malformed);
            },
        };
        proof {
            lemma_object_view(*entries);
        }
        match (
            find_sole_either(entries, "id", "id"),
            find_sole_either(entries, "contains", "contains"),
        ) {
            (Some(i), Some(c)) => {
                match (ResourceId::parse(&entries[i].1), ResourceId::parse(&entries[c].1)) {
                    (Ok(id), Ok(contains)) => Ok(GlobalContainer { id, contains }),
                    _ => Err(Malformed),
                }
            },
            _ => Err(Malformed),
        }
    }
}

/// The time range over which a principal chain was seen.
#[derive(Clone, Copy, Debug, PartialEq, Eq, Structural)]
pub struct GetResponse {
    pub first_seen_at: Timestamp,
    pub last_seen_at: Timestamp,
}

/// The instant that an entry stands for, where it must be there.
pub open spec fn required_instant(v: Option<ValueView>) -> Option<Timestamp> {
    match v {
        Some(ValueView::Datetime(t)) => Some(t),
        _ => None,
    }
}

/// The time range that a document stands for: an object with one entry
/// `first_seen_at` and one entry `last_seen_at`, both instants. Other
/// entries are passed over.
pub open spec fn parse_time_range(v: ValueView) -> Option<GetResponse> {
    match v {
        ValueView::Object(entries) => {
            let first = required_instant(lookup(entries, "first_seen_at"@));
            let last = required_instant(lookup(entries, "last_seen_at"@));
            if at_most_one(entries, "first_seen_at"@) && at_most_one(entries, "last_seen_at"@)
                && first is Some && last is Some {
                Some(GetResponse { first_seen_at: first->0, last_seen_at: last->0 })
            } else {
                None
            }
        },
        _ => None,
    }
}

impl GetResponse {
    /// Reads the time range of a principal chain from a document.
    pub fn parse(v: &Value) -> (r: Result<GetResponse, Malformed>)
        ensures
            match r {
                Ok(range) => parse_time_range(v@) == Some(range),
                Err(_) => parse_time_range(v@) is None,
            },
    {
        let entries = match v {
            Value::Object(entries) => entries,
            _ => {
                return Err(Malformed);
            },
        };
        proof {
            lemma_object_view(*entries);
        }
        if !has_at_most_one(entries, "first_seen_at") || !has_at_most_one(entries, "last_seen_at") {
            return Err(Malformed);
        }
        match (entry_value(entries, "first_seen_at"), entry_value(entries, "last_seen_at")) {
            (Some(Value::Datetime(first)), Some(Value::Datetime(last))) => Ok(
                GetResponse { first_seen_at: *first, last_seen_at: *last },
            ),
            _ => Err(Malformed),
        }
    }

    /// What a client is told when it asks for a principal chain, given what
    /// the store found: a chain that the store does not know does not exist.
    pub fn found(row: Option<GetResponse>) -> (r: Result<GetResponse, crate::error::PublicError>)
        ensures
            match row {
                Some(range) => r == Ok::<GetResponse, crate::error::PublicError>(range),
                None => r matches Err(e) && e.status_code == crate::error::StatusCode::NotFound
                    && e.message@ == "Principal chain does not exist"@,
            },
    {
        match row {
            Some(range) => Ok(range),
            None => Err(crate::error::PublicError::not_found("Principal chain does not exist")),
        }
    }
}

/// A kind of row that can be read from a document.
pub trait FromDocument: Sized {
    /// The mathematical model of a row.
    type Model;

    /// The model of this row.
    spec fn model(&self) -> Self::Model;

    /// The row that a document stands for.
    spec fn parse_spec(v: ValueView) -> Option<Self::Model>;

    /// Reads a row from a document.
    fn from_document(v: &Value) -> (r: Result<Self, Malformed>)
        ensures
            match r {
                Ok(row) => Self::parse_spec(v@) == Some(row.model()),
                Err(_) => Self::parse_spec(v@) is None,
            },
    ;
}

impl FromDocument for Resource {
    type Model = ResourceModel;

    open spec fn model(&self) -> ResourceModel {
        resource_model(self)
    }

    open spec fn parse_spec(v: ValueView) -> Option<ResourceModel> {
        parse_resource(v)
    }

    fn from_document(v: &Value) -> (r: Result<Self, Malformed>) {
        Resource::parse(v)
    }
}

impl FromDocument for Event {
    type Model = EventModel;

    open spec fn model(&self) -> EventModel {
        event_model(self)
    }

    open spec fn parse_spec(v: ValueView) -> Option<EventModel> {
        parse_event(v)
    }

    fn from_document(v: &Value) -> (r: Result<Self, Malformed>) {
        Event::parse(v)
    }
}

impl FromDocument for GlobalContainer {
    type Model = (IdModel, IdModel);

    open spec fn model(&self) -> (IdModel, IdModel) {
        (self.id@, self.contains@)
    }

    open spec fn parse_spec(v: ValueView) -> Option<(IdModel, IdModel)> {
        parse_global_container(v)
    }

    fn from_document(v: &Value) -> (r: Result<Self, Malformed>) {
        GlobalContainer::parse(v)
    }
}

/// The models of a list of rows.
pub open spec fn rows_model<T: FromDocument>(rows: Seq<T>) -> Seq<T::Model> {
    Seq::new(rows.len(), |i: int| rows[i].model())
}

/// The rows that a list of documents stands for, if each stands for one.
pub open spec fn parse_rows<T: FromDocument>(items: Seq<ValueView>) -> Option<Seq<T::Model>>
    decreases items.len(),
{
    if items.len() == 0 {
        Some(Seq::empty())
    } else {
        match (parse_rows::<T>(items.drop_last()), T::parse_spec(items.last())) {
            (Some(rows), Some(row)) => Some(rows.push(row)),
            _ => None,
        }
    }
}

/// The rows that a document stands for: an array of rows.
pub open spec fn parse_row_list<T: FromDocument>(v: ValueView) -> Option<Seq<T::Model>> {
    match v {
        ValueView::Array(items) => parse_rows::<T>(items),
        _ => None,
    }
}

/// Where no row of a prefix can be read, none of the whole list can.
proof fn lemma_parse_rows_prefix<T: FromDocument>(items: Seq<ValueView>, n: int)
    requires
        0 <= n <= items.len(),
        parse_rows::<T>(items.subrange(0, n)) is None,
    ensures
        parse_rows::<T>(items) is None,
    decreases items.len() - n,
{
    if n == items.len() {
        assert(items.subrange(0, n) =~= items);
    } else {
        assert(items.subrange(0, n + 1).drop_last() =~= items.subrange(0, n));
        lemma_parse_rows_prefix::<T>(items, n + 1);
    }
}

/// Reads a list of rows from an array of documents.
pub fn parse_list<T: FromDocument>(v: &Value) -> (r: Result<Vec<T>, Malformed>)
    ensures
        match r {
            Ok(rows) => parse_row_list::<T>(v@) == Some(rows_model(rows@)),
            Err(_) => parse_row_list::<T>(v@) is None,
        },
{
    let items = match v {
        Value::Array(items) => items,
        _ => {
            return Err(Malformed);
        },
    };
    proof {
        lemma_array_view(*items);
    }
    let ghost all = values_view(items@);
    let mut rows: Vec<T> = Vec::new();
    let mut i: usize = 0;
    proof {
        assert(all.subrange(0, 0) =~= Seq::empty());
        assert(rows_model(rows@) =~= Seq::empty());
    }
    while i < items.len()
        invariant
            all == values_view(items@),
            v@ == ValueView::Array(all),
            i <= items@.len(),
            parse_rows::<T>(all.subrange(0, i as int)) == Some(rows_model(rows@)),
        decreases items@.len() - i,
    {
        proof {
            assert(all.subrange(0, i + 1).drop_last() =~= all.subrange(0, i as int));
            assert(all.subrange(0, i + 1).last() == items@[i as int]@);
        }
        match T::from_document(&items[i]) {
            Ok(row) => {
                proof {
                    assert(rows_model(rows@.push(row)) =~= rows_model(rows@).push(row.model()));
                }
                rows.push(row);
            },
            Err(e) => {
                proof {
                    lemma_parse_rows_prefix::<T>(all, i + 1);
                }
                return Err(e);
            },
        }
        i += 1;
    }
    assert(all.subrange(0, i as int) =~= all);
    Ok(rows)
}

/// Model of what a snapshot query returns.
pub ghost struct QueryResponseModel {
    pub resources: Seq<ResourceModel>,
    pub events: Option<Seq<EventModel>>,
    pub global_containers: Seq<(IdModel, IdModel)>,
}

/// The model of a snapshot.
pub open spec fn query_response_model(r: &crate::query::QueryResponse) -> QueryResponseModel {
    QueryResponseModel {
        resources: rows_model(r.resources@),
        events: match r.events {
            Some(events) => Some(rows_model(events@)),
            None => None,
        },
        global_containers: rows_model(r.global_containers@),
    }
}

/// The events that an entry of a snapshot stands for: none where there is
/// no entry or where its value is null or absent.
pub open spec fn parse_events_entry(v: Option<ValueView>) -> Option<Option<Seq<EventModel>>> {
    match v {
        None => Some(None),
        Some(ValueView::Null) => Some(None),
        Some(ValueView::Absent) => Some(None),
        Some(list) => match parse_row_list::<Event>(list) {
            Some(events) => Some(Some(events)),
            None => None,
        },
    }
}

/// The snapshot that a document stands for: an object with one entry
/// `resources` and one entry `global_containers`, both lists of rows, and
/// at most one entry `events`. Other entries are passed over.
pub open spec fn parse_query_response(v: ValueView) -> Option<QueryResponseModel> {
    match v {
        ValueView::Object(entries) => {
            let resources = sole_either(entries, "resources"@, "resources"@);
            let containers = sole_either(entries, "global_containers"@, "global_containers"@);
            let events = parse_events_entry(lookup(entries, "events"@));
            if resources is Some && containers is Some && at_most_one(entries, "events"@)
                && events is Some && parse_row_list::<Resource>(entries[resources->0].1) is Some
                && parse_row_list::<GlobalContainer>(entries[containers->0].1) is Some {
                Some(
                    QueryResponseModel {
                        resources: parse_row_list::<Resource>(entries[resources->0].1)->0,
                        events: events->0,
                        global_containers: parse_row_list::<GlobalContainer>(
                            entries[containers->0].1,
                        )->0,
                    },
                )
            } else {
                None
            }
        },
        _ => None,
    }
}

impl crate::query::QueryResponse {
    /// Reads a snapshot from the document that a snapshot query returns.
    pub fn parse(v: &Value) -> (r: Result<crate::query::QueryResponse, Malformed>)
        ensures
            match r {
                Ok(response) => parse_query_response(v@) == Some(
                    query_response_model(&response),
                ),
                Err(_) => parse_query_response(v@) is None,
            },
    {
        let entries = match v {
            Value::Object(entries) => entries,
            _ => {
                return Err(Malformed);
            },
        };
        proof {
            lemma_object_view(*entries);
        }
        let (r, c) = match (
            find_sole_either(entries, "resources", "resources"),
            find_sole_either(entries, "global_containers", "global_containers"),
        ) {
            (Some(r), Some(c)) => (r, c),
            _ => {
                return Err(Malformed);
            },
        };
        if !has_at_most_one(entries, "events") {
            return Err(Malformed);
        }
        let resources = match parse_list::<Resource>(&entries[r].1) {
            Ok(rows) => rows,
            Err(e) => {
                return Err(e);
            },
        };
        let global_containers = match parse_list::<GlobalContainer>(&entries[c].1) {
            Ok(rows) => rows,
            Err(e) => {
                return Err(e);
            },
        };
        let events = match entry_value(entries, "events") {
            None => None,
            Some(Value::Null) => None,
            Some(Value::Absent) => None,
            Some(list) => match parse_list::<Event>(list) {
                Ok(rows) => Some(rows),
                Err(e) => {
                    return Err(e);
                },
            },
        };
        Ok(crate::query::QueryResponse { resources, events, global_containers })
    }
}

} // verus!
