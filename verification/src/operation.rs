//! The operations that ingestion asks of the store.

use vstd::prelude::*;
use crate::principal_chain::{ChainModel, PrincipalChainId};
use crate::resource::{IdModel, ResourceId};
use crate::timestamp::Timestamp;
use crate::value::{Value, ValueView};

verus! {

/// Mathematical model of an [`Operation`].
#[allow(inconsistent_fields)]
pub ghost enum OperationView {
    UpsertResource { id: IdModel, first_seen_at: Timestamp, last_seen_at: Timestamp },
    MergeAttributes { id: IdModel, attributes: ValueView },
    UpsertPrincipalChain { id: ChainModel, first_seen_at: Timestamp, last_seen_at: Timestamp },
    UpsertEvent {
        principal: IdModel,
        resource: IdModel,
        ty: Seq<char>,
        principal_chain: ChainModel,
        has_direct_principal_chain: bool,
        first_seen_at: Timestamp,
        last_seen_at: Timestamp,
    },
}

/// One idempotent write that ingestion asks of the store. A report becomes a
/// batch of these, which the store applies as one unit.
#[allow(inconsistent_fields)]
#[derive(Debug, PartialEq, Eq)]
pub enum Operation {
    /// Create the resource row if it is absent; otherwise advance its
    /// `last_seen_at`.
    UpsertResource { id: ResourceId, first_seen_at: Timestamp, last_seen_at: Timestamp },
    /// Merge an attribute object into the stored attributes of a resource.
    MergeAttributes { id: ResourceId, attributes: Value },
    /// Create the chain record if it is absent; otherwise advance its
    /// `last_seen_at`.
    UpsertPrincipalChain { id: PrincipalChainId, first_seen_at: Timestamp, last_seen_at: Timestamp },
    /// Create the event edge if it is absent; otherwise add the chain to it,
    /// advance its `last_seen_at` and, if asked, mark it as directly observed.
    UpsertEvent {
        principal: ResourceId,
        resource: ResourceId,
        ty: String,
        principal_chain: PrincipalChainId,
        has_direct_principal_chain: bool,
        first_seen_at: Timestamp,
        last_seen_at: Timestamp,
    },
}

impl View for Operation {
    type V = OperationView;

    open spec fn view(&self) -> OperationView {
        match self {
            Operation::UpsertResource { id, first_seen_at, last_seen_at } => {
                OperationView::UpsertResource {
                    id: id@,
                    first_seen_at: *first_seen_at,
                    last_seen_at: *last_seen_at,
                }
            },
            Operation::MergeAttributes { id, attributes } => OperationView::MergeAttributes {
                id: id@,
                attributes: attributes@,
            },
            Operation::UpsertPrincipalChain { id, first_seen_at, last_seen_at } => {
                OperationView::UpsertPrincipalChain {
                    id: id@,
                    first_seen_at: *first_seen_at,
                    last_seen_at: *last_seen_at,
                }
            },
            Operation::UpsertEvent {
                principal,
                resource,
                ty,
                principal_chain,
                has_direct_principal_chain,
                first_seen_at,
                last_seen_at,
            } => OperationView::UpsertEvent {
                principal: principal@,
                resource: resource@,
                ty: ty@,
                principal_chain: principal_chain@,
                has_direct_principal_chain: *has_direct_principal_chain,
                first_seen_at: *first_seen_at,
                last_seen_at: *last_seen_at,
            },
        }
    }
}

/// The models of a batch of operations, in order.
pub open spec fn operations_view(ops: Seq<Operation>) -> Seq<OperationView> {
    Seq::new(ops.len(), |i: int| ops[i]@)
}

/// Adding an operation to a batch adds its model to the batch's model.
pub proof fn lemma_operations_view_push(ops: Seq<Operation>, op: Operation)
    ensures
        operations_view(ops.push(op)) == operations_view(ops).push(op@),
{
    assert(operations_view(ops.push(op)) =~= operations_view(ops).push(op@));
}

} // verus!
