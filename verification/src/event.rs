//! Event edges: typed, time-bounded relations between a principal and a
//! resource.

use vstd::prelude::*;
use crate::principal_chain::{ChainModel, PrincipalChainId};
use crate::resource::{IdModel, ResourceId};
use crate::timestamp::Timestamp;

verus! {

/// Model of the key of an event edge: principal, resource and event type.
pub type EdgeKey = (IdModel, IdModel, Seq<char>);

/// Model of what the store holds for one event edge, besides its key.
pub ghost struct EdgeRow {
    /// The chains that produced the edge, each once, in the order in which
    /// they were first seen.
    pub principal_chains: Seq<ChainModel>,
    pub has_direct_principal_chain: bool,
    pub first_seen_at: Timestamp,
    pub last_seen_at: Timestamp,
}

/// An event edge as the store holds it.
#[derive(Debug, PartialEq, Eq)]
pub struct Event {
    pub principal: ResourceId,
    pub ty: String,
    pub resource: ResourceId,
    pub principal_chains: Vec<PrincipalChainId>,
    /// Whether some chain that produced the edge ended in its principal.
    pub has_direct_principal_chain: bool,
    pub first_seen_at: Timestamp,
    pub last_seen_at: Timestamp,
}

/// The models of a list of chain identities.
pub open spec fn chains_view(chains: Seq<PrincipalChainId>) -> Seq<ChainModel> {
    Seq::new(chains.len(), |i: int| chains[i]@)
}

impl Event {
    /// The statement that selects every event.
    pub fn get_all() -> (r: &'static str)
        ensures
            r@ == "$events = SELECT * OMIT id FROM event PARALLEL;"@,
    {
        "$events = SELECT * OMIT id FROM event PARALLEL;"
    }

    /// The key of the edge.
    pub open spec fn key(&self) -> EdgeKey {
        (self.principal@, self.resource@, self.ty@)
    }

    /// What the store holds for the edge, besides its key.
    pub open spec fn row(&self) -> EdgeRow {
        EdgeRow {
            principal_chains: chains_view(self.principal_chains@),
            has_direct_principal_chain: self.has_direct_principal_chain,
            first_seen_at: self.first_seen_at,
            last_seen_at: self.last_seen_at,
        }
    }
}

} // verus!
