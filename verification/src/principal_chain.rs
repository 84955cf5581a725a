//! Principal chains: ordered sequences of actor hops that witness an event.

use vstd::prelude::*;
use crate::resource::{
    decode_parts, encode_id, lemma_decode_encode, IdModel, MalformedIdentity, ResourceId,
};
use crate::text::{copy_str, str_eq};
use crate::timestamp::Timestamp;
use crate::value::{
    entries_view, find_key, index_of_key, lemma_array_view, lemma_object_view, lookup,
    values_view, Value, ValueView,
};

verus! {

/// Model of one hop of a chain: the acting resource and, if known, the type
/// of event that led to the next hop.
pub type ChainPartModel = (IdModel, Option<Seq<char>>);

/// Model of a chain identity: its hops in order. The whole sequence is the
/// key of the chain's record.
pub type ChainModel = Seq<(IdModel, Option<Seq<char>>)>;

/// One hop of a principal chain.
#[derive(Debug, PartialEq, Eq)]
pub struct PrincipalChainIdPart {
    pub id: ResourceId,
    pub event: Option<String>,
}

/// The characters of a string that may be missing.
pub open spec fn opt_str_view(s: Option<String>) -> Option<Seq<char>> {
    match s {
        Some(s) => Some(s@),
        None => None,
    }
}

impl View for PrincipalChainIdPart {
    type V = ChainPartModel;

    open spec fn view(&self) -> ChainPartModel {
        (self.id@, opt_str_view(self.event))
    }
}

/// The identity of a principal chain.
#[derive(Debug, PartialEq, Eq)]
pub struct PrincipalChainId(pub Vec<PrincipalChainIdPart>);

/// The models of a list of hops, hop by hop.
pub open spec fn chain_view(parts: Seq<PrincipalChainIdPart>) -> ChainModel {
    Seq::new(parts.len(), |i: int| parts[i]@)
}

impl View for PrincipalChainId {
    type V = ChainModel;

    open spec fn view(&self) -> ChainModel {
        chain_view(self.0@)
    }
}

/// Model of what the store holds for one chain, besides its identity.
pub ghost struct ChainRow {
    pub first_seen_at: Timestamp,
    pub last_seen_at: Timestamp,
}

/// A principal chain as the store holds it.
#[derive(Debug, PartialEq, Eq)]
pub struct PrincipalChain {
    pub id: PrincipalChainId,
    pub first_seen_at: Timestamp,
    pub last_seen_at: Timestamp,
}

impl PrincipalChain {
    /// What the store holds for the chain, besides its identity.
    pub open spec fn row(&self) -> ChainRow {
        ChainRow { first_seen_at: self.first_seen_at, last_seen_at: self.last_seen_at }
    }
}

/// Why a value is not the encoding of a principal chain.
#[derive(Clone, Copy, Debug, PartialEq, Eq, Structural)]
pub enum MalformedChain {
    /// The value is not an array.
    NotAnArray,
    /// An element of the array is not an object.
    PartNotAnObject,
    /// A hop has no `id` entry.
    MissingId,
    /// The `id` of a hop is not an array.
    IdNotAnArray,
    /// The `id` of a hop is an array but no resource identity.
    Id(MalformedIdentity),
    /// The `event` of a hop is neither a string nor absent.
    InvalidEvent,
    /// A hop has entries besides `id` and `event`.
    ExtraKeys,
}

/// The engine value of an event annotation.
pub open spec fn encode_event(event: Option<Seq<char>>) -> ValueView {
    match event {
        Some(s) => ValueView::Strand(s),
        None => ValueView::Absent,
    }
}

/// The engine value of a hop: an object with the entries `event` and `id`,
/// in the order of their keys.
pub open spec fn encode_chain_part(p: ChainPartModel) -> ValueView {
    ValueView::Object(seq![("event"@, encode_event(p.1)), ("id"@, encode_id(p.0))])
}

/// The engine value of a chain identity: the array of its hops.
pub open spec fn encode_chain(c: ChainModel) -> ValueView {
    ValueView::Array(Seq::new(c.len(), |i: int| encode_chain_part(c[i])))
}

/// The hop with the given id and event, if the object they were read from
/// has exactly `expected` entries.
pub open spec fn chain_part_if_complete(
    entries: Seq<(Seq<char>, ValueView)>,
    id: IdModel,
    event: Option<Seq<char>>,
    expected: int,
) -> Result<ChainPartModel, MalformedChain> {
    if entries.len() == expected {
        Ok((id, event))
    } else {
        Err(MalformedChain::ExtraKeys)
    }
}

/// The hop that the entries of an object stand for. The `id` is read first,
/// then the `event`; any entry beyond these two is a fault.
pub open spec fn decode_chain_entries(entries: Seq<(Seq<char>, ValueView)>) -> Result<
    ChainPartModel,
    MalformedChain,
> {
    match lookup(entries, "id"@) {
        None => Err(MalformedChain::MissingId),
        Some(ValueView::Array(items)) => match decode_parts(items) {
            Err(e) => Err(MalformedChain::Id(e)),
            Ok(id) => match lookup(entries, "event"@) {
                Some(ValueView::Strand(s)) => chain_part_if_complete(entries, id, Some(s), 2),
                Some(ValueView::Absent) => chain_part_if_complete(entries, id, None, 2),
                None => chain_part_if_complete(entries, id, None, 1),
                Some(_) => Err(MalformedChain::InvalidEvent),
            },
        },
        Some(_) => Err(MalformedChain::IdNotAnArray),
    }
}

/// The hop that an element of an encoded chain stands for.
pub open spec fn decode_chain_part(v: ValueView) -> Result<ChainPartModel, MalformedChain> {
    match v {
        ValueView::Object(entries) => decode_chain_entries(entries),
        _ => Err(MalformedChain::PartNotAnObject),
    }
}

/// The hops that a list of elements stands for, or the fault of the first
/// element that stands for none.
pub open spec fn decode_chain_parts(items: Seq<ValueView>) -> Result<ChainModel, MalformedChain>
    decreases items.len(),
{
    if items.len() == 0 {
        Ok(Seq::empty())
    } else {
        match decode_chain_parts(items.drop_last()) {
            Err(e) => Err(e),
            Ok(parts) => match decode_chain_part(items.last()) {
                Err(e) => Err(e),
                Ok(p) => Ok(parts.push(p)),
            },
        }
    }
}

/// The chain identity that an engine value stands for.
pub open spec fn decode_chain(v: ValueView) -> Result<ChainModel, MalformedChain> {
    match v {
        ValueView::Array(items) => decode_chain_parts(items),
        _ => Err(MalformedChain::NotAnArray),
    }
}

/// The keys `id` and `event` are different strings.
pub proof fn lemma_keys_differ()
    ensures
        "id"@ != "event"@,
        "id"@.len() == 2,
        "event"@.len() == 5,
{
    reveal_strlit("id");
    reveal_strlit("event");
    assert("id"@.len() == 2);
    assert("event"@.len() == 5);
}

/// Decoding the encoding of a hop gives the hop back.
pub proof fn lemma_decode_encode_chain_part(p: ChainPartModel)
    ensures
        decode_chain_part(encode_chain_part(p)) == Ok::<ChainPartModel, MalformedChain>(p),
{
    lemma_keys_differ();
    lemma_decode_encode(p.0);
    let entries = seq![("event"@, encode_event(p.1)), ("id"@, encode_id(p.0))];
    let first = entries.drop_last();
    assert(first.drop_last().len() == 0);
    assert(index_of_key(first.drop_last(), "id"@) is None);
    assert(index_of_key(first.drop_last(), "event"@) is None);
    assert(index_of_key(first, "id"@) is None);
    assert(index_of_key(first, "event"@) == Some(0int));
    assert(index_of_key(entries, "id"@) == Some(1int));
    assert(index_of_key(entries, "event"@) == Some(0int));
}

/// Decoding the encoding of a chain identity gives the chain back.
pub proof fn lemma_decode_encode_chain(c: ChainModel)
    ensures
        decode_chain(encode_chain(c)) == Ok::<ChainModel, MalformedChain>(c),
    decreases c.len(),
{
    let items = Seq::new(c.len(), |i: int| encode_chain_part(c[i]));
    if c.len() == 0 {
        assert(c =~= Seq::empty());
    } else {
        let front = c.drop_last();
        lemma_decode_encode_chain(front);
        lemma_decode_encode_chain_part(c.last());
        assert(items.drop_last() =~= Seq::new(front.len(), |i: int| encode_chain_part(front[i])));
        assert(items.last() == encode_chain_part(c.last()));
        assert(front.push(c.last()) =~= c);
    }
}

/// A fault in a prefix of a list of elements is the fault of the whole list.
proof fn lemma_decode_chain_parts_prefix_error(items: Seq<ValueView>, n: int)
    requires
        0 <= n <= items.len(),
        decode_chain_parts(items.subrange(0, n)) is Err,
    ensures
        decode_chain_parts(items) == decode_chain_parts(items.subrange(0, n)),
    decreases items.len() - n,
{
    if n == items.len() {
        assert(items.subrange(0, n) =~= items);
    } else {
        let next = items.subrange(0, n + 1);
        assert(next.drop_last() =~= items.subrange(0, n));
        lemma_decode_chain_parts_prefix_error(items, n + 1);
    }
}

impl MalformedChain {
    /// A sentence that says what is wrong.
    pub open spec fn message_spec(self) -> Seq<char> {
        match self {
            MalformedChain::NotAnArray => "principal chain id is not an array"@,
            MalformedChain::PartNotAnObject => "principal chain id holds a part that is not an object"@,
            MalformedChain::MissingId => "principal chain part is an object missing the `id` key"@,
            MalformedChain::IdNotAnArray => "principal chain part is an object with a non-array `id` value"@,
            MalformedChain::Id(e) => e.message_spec(),
            MalformedChain::InvalidEvent => "principal chain part is an object containing an invalid `event` value"@,
            MalformedChain::ExtraKeys => "principal chain part is an object containing extra keys"@,
        }
    }

    /// A sentence that says what is wrong.
    pub fn message(&self) -> (r: String)
        ensures
            r@ == self.message_spec(),
    {
        match self {
            MalformedChain::NotAnArray => copy_str("principal chain id is not an array"),
            MalformedChain::PartNotAnObject => copy_str(
                "principal chain id holds a part that is not an object",
            ),
            MalformedChain::MissingId => copy_str(
                "principal chain part is an object missing the `id` key",
            ),
            MalformedChain::IdNotAnArray => copy_str(
                "principal chain part is an object with a non-array `id` value",
            ),
            MalformedChain::Id(e) => e.message(),
            MalformedChain::InvalidEvent => copy_str(
                "principal chain part is an object containing an invalid `event` value",
            ),
            MalformedChain::ExtraKeys => copy_str(
                "principal chain part is an object containing extra keys",
            ),
        }
    }
}

/// A copy of a string that may be missing.
pub fn clone_opt_string(s: &Option<String>) -> (r: Option<String>)
    ensures
        opt_str_view(r) == opt_str_view(*s),
{
    match s {
        Some(s) => Some(s.clone()),
        None => None,
    }
}

/// Whether two optional strings are both missing or hold the same characters.
pub fn same_opt_string(a: &Option<String>, b: &Option<String>) -> (r: bool)
    ensures
        r == (opt_str_view(*a) == opt_str_view(*b)),
{
    match (a, b) {
        (Some(x), Some(y)) => str_eq(x.as_str(), y.as_str()),
        (None, None) => true,
        _ => false,
    }
}

impl Clone for PrincipalChainIdPart {
    fn clone(&self) -> (r: Self)
        ensures
            r@ == self@,
    {
        PrincipalChainIdPart { id: self.id.clone(), event: clone_opt_string(&self.event) }
    }
}

impl PrincipalChainIdPart {
    /// Whether two hops have the same resource and the same event annotation.
    pub fn same(&self, other: &PrincipalChainIdPart) -> (r: bool)
        ensures
            r == (self@ == other@),
    {
        self.id.same(&other.id) && same_opt_string(&self.event, &other.event)
    }

    /// The engine value of the hop.
    pub fn to_value(&self) -> (r: Value)
        ensures
            r@ == encode_chain_part(self@),
    {
        let event = match &self.event {
            Some(s) => Value::Strand(s.clone()),
            None => Value::Absent,
        };
        let mut entries: Vec<(String, Value)> = Vec::new();
        entries.push((copy_str("event"), event));
        entries.push((copy_str("id"), self.id.to_value()));
        proof {
            lemma_object_view(entries);
            assert(entries_view(entries@) =~= seq![
                ("event"@, encode_event(self@.1)),
                ("id"@, encode_id(self@.0)),
            ]);
        }
        Value::Object(entries)
    }

    /// Reads a hop from the entries of an object of the engine.
    pub fn try_from_object(entries: &Vec<(String, Value)>) -> (r: Result<
        PrincipalChainIdPart,
        MalformedChain,
    >)
        ensures
            match r {
                Ok(part) => decode_chain_entries(entries_view(entries@)) == Ok::<
                    ChainPartModel,
                    MalformedChain,
                >(part@),
                Err(e) => decode_chain_entries(entries_view(entries@)) == Err::<
                    ChainPartModel,
                    MalformedChain,
                >(e),
            },
    {
        let id_at = match find_key(entries, "id") {
            Some(i) => i,
            None => {
                return Err(MalformedChain::MissingId);
            },
        };
        let id = match &entries[id_at].1 {
            Value::Array(items) => {
                proof {
                    lemma_array_view(*items);
                }
                match ResourceId::try_from_array(items) {
                    Ok(id) => id,
                    Err(e) => {
                        return Err(MalformedChain::Id(e));
                    },
                }
            },
            _ => {
                return Err(MalformedChain::IdNotAnArray);
            },
        };
        let mut expected: usize = 1;
        let event = match find_key(entries, "event") {
            Some(i) => {
                expected = 2;
                match &entries[i].1 {
                    Value::Strand(s) => Some(s.clone()),
                    Value::Absent => None,
                    _ => {
                        return Err(MalformedChain::InvalidEvent);
                    },
                }
            },
            None => None,
        };
        if entries.len() != expected {
            return Err(MalformedChain::ExtraKeys);
        }
        Ok(PrincipalChainIdPart { id, event })
    }

    /// Reads a hop from an element of an encoded chain.
    pub fn try_from_value(v: &Value) -> (r: Result<PrincipalChainIdPart, MalformedChain>)
        ensures
            match r {
                Ok(part) => decode_chain_part(v@) == Ok::<ChainPartModel, MalformedChain>(part@),
                Err(e) => decode_chain_part(v@) == Err::<ChainPartModel, MalformedChain>(e),
            },
    {
        match v {
            Value::Object(entries) => {
                proof {
                    lemma_object_view(*entries);
                }
                PrincipalChainIdPart::try_from_object(entries)
            },
            _ => Err(MalformedChain::PartNotAnObject),
        }
    }
}

impl Clone for PrincipalChainId {
    fn clone(&self) -> (r: Self)
        ensures
            r@ == self@,
    {
        let mut parts: Vec<PrincipalChainIdPart> = Vec::new();
        let mut i: usize = 0;
        while i < self.0.len()
            invariant
                i <= self.0@.len(),
                parts@.len() == i,
                forall|j: int| 0 <= j < i ==> parts@[j]@ == self.0@[j]@,
            decreases self.0@.len() - i,
        {
            parts.push(self.0[i].clone());
            i += 1;
        }
        assert(chain_view(parts@) =~= chain_view(self.0@));
        PrincipalChainId(parts)
    }
}

impl PrincipalChainId {
    /// The hops of the chain, first actor first.
    pub fn parts(&self) -> (r: &Vec<PrincipalChainIdPart>)
        ensures
            chain_view(r@) == self@,
    {
        &self.0
    }

    /// Whether two chains have the same hops in the same order.
    pub fn same(&self, other: &PrincipalChainId) -> (r: bool)
        ensures
            r == (self@ == other@),
    {
        if self.0.len() != other.0.len() {
            assert(self@.len() != other@.len());
            return false;
        }
        let mut i: usize = 0;
        while i < self.0.len()
            invariant
                self.0@.len() == other.0@.len(),
                i <= self.0@.len(),
                forall|j: int| 0 <= j < i ==> self.0@[j]@ == other.0@[j]@,
            decreases self.0@.len() - i,
        {
            if !self.0[i].same(&other.0[i]) {
                assert(self@[i as int] != other@[i as int]);
                return false;
            }
            i += 1;
        }
        assert(self@ =~= other@);
        true
    }

    /// The engine's key for the chain: the array of its hops.
    pub fn to_value(&self) -> (r: Value)
        ensures
            r@ == encode_chain(self@),
    {
        let mut items: Vec<Value> = Vec::new();
        let mut i: usize = 0;
        while i < self.0.len()
            invariant
                i <= self.0@.len(),
                items@.len() == i,
                forall|j: int| 0 <= j < i ==> items@[j]@ == encode_chain_part(self.0@[j]@),
            decreases self.0@.len() - i,
        {
            items.push(self.0[i].to_value());
            i += 1;
        }
        proof {
            lemma_array_view(items);
            assert(values_view(items@) =~= Seq::new(
                self@.len(),
                |i: int| encode_chain_part(self@[i]),
            ));
        }
        Value::Array(items)
    }

    /// Reads a chain identity from the elements of an array of the engine.
    pub fn try_from_array(items: &Vec<Value>) -> (r: Result<PrincipalChainId, MalformedChain>)
        ensures
            match r {
                Ok(id) => decode_chain_parts(values_view(items@)) == Ok::<
                    ChainModel,
                    MalformedChain,
                >(id@),
                Err(e) => decode_chain_parts(values_view(items@)) == Err::<
                    ChainModel,
                    MalformedChain,
                >(e),
            },
    {
        let ghost all = values_view(items@);
        let mut parts: Vec<PrincipalChainIdPart> = Vec::new();
        let mut i: usize = 0;
        proof {
            assert(all.subrange(0, 0) =~= Seq::empty());
            assert(chain_view(parts@) =~= Seq::empty());
        }
        while i < items.len()
            invariant
                all == values_view(items@),
                i <= items@.len(),
                decode_chain_parts(all.subrange(0, i as int)) == Ok::<ChainModel, MalformedChain>(
                    chain_view(parts@),
                ),
            decreases items@.len() - i,
        {
            let ghost before = all.subrange(0, i as int);
            let ghost upto = all.subrange(0, i + 1);
            proof {
                assert(upto.drop_last() =~= before);
                assert(upto.last() == items@[i as int]@);
            }
            match PrincipalChainIdPart::try_from_value(&items[i]) {
                Ok(part) => {
                    proof {
                        assert(chain_view(parts@.push(part)) =~= chain_view(parts@).push(part@));
                    }
                    parts.push(part);
                },
                Err(e) => {
                    proof {
                        lemma_decode_chain_parts_prefix_error(all, i + 1);
                    }
                    return Err(e);
                },
            }
            i += 1;
        }
        assert(all.subrange(0, i as int) =~= all);
        Ok(PrincipalChainId(parts))
    }

    /// Reads a chain identity from its engine key.
    pub fn try_from_value(v: &Value) -> (r: Result<PrincipalChainId, MalformedChain>)
        ensures
            match r {
                Ok(id) => decode_chain(v@) == Ok::<ChainModel, MalformedChain>(id@),
                Err(e) => decode_chain(v@) == Err::<ChainModel, MalformedChain>(e),
            },
    {
        match v {
            Value::Array(items) => {
                proof {
                    lemma_array_view(*items);
                }
                PrincipalChainId::try_from_array(items)
            },
            _ => Err(MalformedChain::NotAnArray),
        }
    }
}

} // verus!
