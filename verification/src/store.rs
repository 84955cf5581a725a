//! The resource graph as ingestion leaves it: rows keyed by identity, and
//! the merge rules by which each operation changes them.

use vstd::prelude::*;
use crate::event::{chains_view, EdgeKey, EdgeRow, Event};
use crate::operation::{operations_view, Operation, OperationView};
use crate::principal_chain::{ChainModel, ChainRow, PrincipalChain, PrincipalChainId};
use crate::report::{report, request_operations, ReportError, Request};
use crate::resource::{IdModel, Resource, ResourceId, ResourceRow};
use crate::table::{
    distinct_keys, lemma_distinct_push, lemma_table_dom, lemma_table_get, lemma_table_push,
    lemma_table_update, table_map,
};
use crate::text::str_eq;
use crate::timestamp::{max_opt, Timestamp};
use crate::value::{merge_value, ValueView};

verus! {

/// Mathematical model of the graph: each table as a map from key to row.
pub ghost struct GraphView {
    pub resources: Map<IdModel, ResourceRow>,
    pub principal_chains: Map<ChainModel, ChainRow>,
    pub events: Map<EdgeKey, EdgeRow>,
}

/// The graph that holds nothing.
pub open spec fn empty_graph() -> GraphView {
    GraphView { resources: Map::empty(), principal_chains: Map::empty(), events: Map::empty() }
}

/// The resource row after an upsert: a new row takes both instants; an
/// existing row keeps its `first_seen_at` and has its `last_seen_at` advanced,
/// never set back.
pub open spec fn upserted_resource(
    existing: Option<ResourceRow>,
    first_seen_at: Timestamp,
    last_seen_at: Timestamp,
) -> ResourceRow {
    match existing {
        Some(row) => ResourceRow {
            last_seen_at: Some(max_opt(row.last_seen_at, last_seen_at)),
            ..row
        },
        None => ResourceRow {
            environments: Set::empty(),
            first_seen_at: Some(first_seen_at),
            last_seen_at: Some(last_seen_at),
            attributes: None,
        },
    }
}

/// The attributes of a resource after a merge: what was there, with the
/// patch merged in.
pub open spec fn merged_attributes(existing: Option<ValueView>, patch: ValueView) -> ValueView {
    match existing {
        Some(old) => merge_value(old, patch),
        None => patch,
    }
}

/// The chain row after an upsert.
pub open spec fn upserted_chain(
    existing: Option<ChainRow>,
    first_seen_at: Timestamp,
    last_seen_at: Timestamp,
) -> ChainRow {
    match existing {
        Some(row) => ChainRow { last_seen_at: row.last_seen_at.max(last_seen_at), ..row },
        None => ChainRow { first_seen_at, last_seen_at },
    }
}

/// A list of chains with one more chain in it, unless it is there already.
pub open spec fn with_chain(chains: Seq<ChainModel>, chain: ChainModel) -> Seq<ChainModel> {
    if chains.contains(chain) {
        chains
    } else {
        chains.push(chain)
    }
}

/// The edge row after an upsert: a new edge starts with the one chain; an
/// existing edge gains the chain, has its `last_seen_at` advanced and, once it
/// was directly observed, stays so.
pub open spec fn upserted_edge(
    existing: Option<EdgeRow>,
    chain: ChainModel,
    direct: bool,
    first_seen_at: Timestamp,
    last_seen_at: Timestamp,
) -> EdgeRow {
    match existing {
        Some(row) => EdgeRow {
            principal_chains: with_chain(row.principal_chains, chain),
            has_direct_principal_chain: row.has_direct_principal_chain || direct,
            first_seen_at: row.first_seen_at,
            last_seen_at: row.last_seen_at.max(last_seen_at),
        },
        None => EdgeRow {
            principal_chains: seq![chain],
            has_direct_principal_chain: direct,
            first_seen_at,
            last_seen_at,
        },
    }
}

/// The row at a key, if the table has one.
pub open spec fn row_at<K, R>(table: Map<K, R>, key: K) -> Option<R> {
    if table.dom().contains(key) {
        Some(table[key])
    } else {
        None
    }
}

/// The graph after the environments of a resource were set. Where the graph
/// has no row for the resource, nothing changes.
pub open spec fn with_environments(
    g: GraphView,
    id: IdModel,
    environments: Set<Seq<char>>,
) -> GraphView {
    if g.resources.dom().contains(id) {
        GraphView {
            resources: g.resources.insert(id, ResourceRow { environments, ..g.resources[id] }),
            ..g
        }
    } else {
        g
    }
}

/// The graph after one operation.
pub open spec fn apply_operation(g: GraphView, op: OperationView) -> GraphView {
    match op {
        OperationView::UpsertResource { id, first_seen_at, last_seen_at } => GraphView {
            resources: g.resources.insert(
                id,
                upserted_resource(row_at(g.resources, id), first_seen_at, last_seen_at),
            ),
            ..g
        },
        OperationView::MergeAttributes { id, attributes } => if g.resources.dom().contains(id) {
            GraphView {
                resources: g.resources.insert(
                    id,
                    ResourceRow {
                        attributes: Some(merged_attributes(g.resources[id].attributes, attributes)),
                        ..g.resources[id]
                    },
                ),
                ..g
            }
        } else {
            g
        },
        OperationView::UpsertPrincipalChain { id, first_seen_at, last_seen_at } => GraphView {
            principal_chains: g.principal_chains.insert(
                id,
                upserted_chain(row_at(g.principal_chains, id), first_seen_at, last_seen_at),
            ),
            ..g
        },
        OperationView::UpsertEvent {
            principal,
            resource,
            ty,
            principal_chain,
            has_direct_principal_chain,
            first_seen_at,
            last_seen_at,
        } => GraphView {
            events: g.events.insert(
                (principal, resource, ty),
                upserted_edge(
                    row_at(g.events, (principal, resource, ty)),
                    principal_chain,
                    has_direct_principal_chain,
                    first_seen_at,
                    last_seen_at,
                ),
            ),
            ..g
        },
    }
}

/// The graph after a batch of operations, applied in order.
pub open spec fn apply_operations(g: GraphView, ops: Seq<OperationView>) -> GraphView
    decreases ops.len(),
{
    if ops.len() == 0 {
        g
    } else {
        apply_operation(apply_operations(g, ops.drop_last()), ops.last())
    }
}

/// Applying two batches one after the other is applying their concatenation.
pub proof fn lemma_apply_operations_concat(
    g: GraphView,
    first: Seq<OperationView>,
    second: Seq<OperationView>,
)
    ensures
        apply_operations(g, first + second) == apply_operations(
            apply_operations(g, first),
            second,
        ),
    decreases second.len(),
{
    if second.len() == 0 {
        assert(first + second =~= first);
    } else {
        lemma_apply_operations_concat(g, first, second.drop_last());
        assert((first + second).drop_last() =~= first + second.drop_last());
        assert((first + second).last() == second.last());
    }
}

/// The resource graph, held in memory: one list of rows per table.
#[derive(Debug, PartialEq, Eq)]
pub struct GraphStore {
    pub resources: Vec<Resource>,
    pub principal_chains: Vec<PrincipalChain>,
    pub events: Vec<Event>,
}

/// The resource rows with their keys.
pub open spec fn resource_entries(rows: Seq<Resource>) -> Seq<(IdModel, ResourceRow)> {
    Seq::new(rows.len(), |i: int| (rows[i].id@, rows[i].row()))
}

/// The chain rows with their keys.
pub open spec fn chain_entries(rows: Seq<PrincipalChain>) -> Seq<(ChainModel, ChainRow)> {
    Seq::new(rows.len(), |i: int| (rows[i].id@, rows[i].row()))
}

/// The edge rows with their keys.
pub open spec fn edge_entries(rows: Seq<Event>) -> Seq<(EdgeKey, EdgeRow)> {
    Seq::new(rows.len(), |i: int| (rows[i].key(), rows[i].row()))
}

/// No chain occurs twice in the list.
pub open spec fn distinct_chains(chains: Seq<ChainModel>) -> bool {
    forall|i: int, j: int| 0 <= i < j < chains.len() ==> chains[i] != chains[j]
}

impl View for GraphStore {
    type V = GraphView;

    open spec fn view(&self) -> GraphView {
        GraphView {
            resources: table_map(resource_entries(self.resources@)),
            principal_chains: table_map(chain_entries(self.principal_chains@)),
            events: table_map(edge_entries(self.events@)),
        }
    }
}

impl GraphStore {
    /// Every key has one row, and every edge lists each of its chains once.
    pub open spec fn wf(&self) -> bool {
        &&& distinct_keys(resource_entries(self.resources@))
        &&& distinct_keys(chain_entries(self.principal_chains@))
        &&& distinct_keys(edge_entries(self.events@))
        &&& forall|i: int|
            0 <= i < self.events@.len() ==> distinct_chains(
                #[trigger] chains_view(self.events@[i].principal_chains@),
            )
    }

    /// A well-formed store holds one row for each resource identity, one
    /// record for each chain and one edge for each key.
    pub proof fn lemma_one_row_per_key(&self, i: int, j: int)
        requires
            self.wf(),
            0 <= i < j,
        ensures
            j < self.resources@.len() ==> self.resources@[i].id@ != self.resources@[j].id@,
            j < self.principal_chains@.len() ==> self.principal_chains@[i].id@
                != self.principal_chains@[j].id@,
            j < self.events@.len() ==> self.events@[i].key() != self.events@[j].key(),
    {
        if j < self.resources@.len() {
            let entries = resource_entries(self.resources@);
            assert(entries[i].0 != entries[j].0);
        }
        if j < self.principal_chains@.len() {
            let entries = chain_entries(self.principal_chains@);
            assert(entries[i].0 != entries[j].0);
        }
        if j < self.events@.len() {
            let entries = edge_entries(self.events@);
            assert(entries[i].0 != entries[j].0);
        }
    }

    /// The store that holds nothing.
    pub fn new() -> (r: GraphStore)
        ensures
            r.wf(),
            r@ == empty_graph(),
    {
        let r = GraphStore {
            resources: Vec::new(),
            principal_chains: Vec::new(),
            events: Vec::new(),
        };
        assert(r@.resources =~= Map::empty());
        assert(r@.principal_chains =~= Map::empty());
        assert(r@.events =~= Map::empty());
        r
    }

    /// The position of the first row of a resource.
    pub fn find_resource(&self, id: &ResourceId) -> (r: Option<usize>)
        ensures
            match r {
                Some(i) => i < self.resources@.len() && self.resources@[i as int].id@ == id@
                    && forall|j: int| 0 <= j < i ==> self.resources@[j].id@ != id@,
                None => forall|j: int|
                    0 <= j < self.resources@.len() ==> self.resources@[j].id@ != id@,
            },
    {
        let mut i: usize = 0;
        while i < self.resources.len()
            invariant
                i <= self.resources@.len(),
                forall|j: int| 0 <= j < i ==> self.resources@[j].id@ != id@,
            decreases self.resources@.len() - i,
        {
            if self.resources[i].id.same(id) {
                return Some(i);
            }
            i += 1;
        }
        None
    }

    /// The position of the first record of a chain.
    pub fn find_principal_chain(&self, id: &PrincipalChainId) -> (r: Option<usize>)
        ensures
            match r {
                Some(i) => i < self.principal_chains@.len() && self.principal_chains@[i as int].id@
                    == id@ && forall|j: int| 0 <= j < i ==> self.principal_chains@[j].id@ != id@,
                None => forall|j: int|
                    0 <= j < self.principal_chains@.len() ==> self.principal_chains@[j].id@
                        != id@,
            },
    {
        let mut i: usize = 0;
        while i < self.principal_chains.len()
            invariant
                i <= self.principal_chains@.len(),
                forall|j: int| 0 <= j < i ==> self.principal_chains@[j].id@ != id@,
            decreases self.principal_chains@.len() - i,
        {
            if self.principal_chains[i].id.same(id) {
                return Some(i);
            }
            i += 1;
        }
        None
    }

    /// The position of the first edge with the given key.
    pub fn find_event(&self, principal: &ResourceId, resource: &ResourceId, ty: &str) -> (r:
        Option<usize>)
        ensures
            match r {
                Some(i) => i < self.events@.len() && self.events@[i as int].key() == (
                    principal@,
                    resource@,
                    ty@,
                ) && forall|j: int|
                    0 <= j < i ==> self.events@[j].key() != (principal@, resource@, ty@),
                None => forall|j: int|
                    0 <= j < self.events@.len() ==> self.events@[j].key() != (
                        principal@,
                        resource@,
                        ty@,
                    ),
            },
    {
        let mut i: usize = 0;
        while i < self.events.len()
            invariant
                i <= self.events@.len(),
                forall|j: int|
                    0 <= j < i ==> self.events@[j].key() != (principal@, resource@, ty@),
            decreases self.events@.len() - i,
        {
            let row = &self.events[i];
            if row.principal.same(principal) && row.resource.same(resource) && str_eq(
                row.ty.as_str(),
                ty,
            ) {
                return Some(i);
            }
            i += 1;
        }
        None
    }
}

impl GraphStore {
    /// Creates the row of a resource, or advances its `last_seen_at`.
    pub fn upsert_resource(
        &mut self,
        id: &ResourceId,
        first_seen_at: Timestamp,
        last_seen_at: Timestamp,
    )
        requires
            old(self).wf(),
        ensures
            final(self).wf(),
            final(self)@ == apply_operation(
                old(self)@,
                OperationView::UpsertResource { id: id@, first_seen_at, last_seen_at },
            ),
    {
        let ghost before = resource_entries(self.resources@);
        proof {
            lemma_table_dom(before, id@);
        }
        match self.find_resource(id) {
            Some(i) => {
                proof {
                    lemma_table_get(before, i as int);
                }
                let last = match self.resources[i].last_seen_at {
                    Some(t) => t.later(last_seen_at),
                    None => last_seen_at,
                };
                self.resources[i].last_seen_at = Some(last);
                proof {
                    let row = upserted_resource(Some(before[i as int].1), first_seen_at, last_seen_at);
                    assert(resource_entries(self.resources@) =~= before.update(
                        i as int,
                        (before[i as int].0, row),
                    ));
                    lemma_table_update(before, i as int, row);
                }
            },
            None => {
                let row = Resource {
                    id: id.clone(),
                    environments: Vec::new(),
                    first_seen_at: Some(first_seen_at),
                    last_seen_at: Some(last_seen_at),
                    attributes: None,
                };
                proof {
                    assert(row.row().environments =~= Set::empty());
                    lemma_table_push(before, id@, row.row());
                    lemma_distinct_push(before, id@, row.row());
                }
                self.resources.push(row);
                assert(resource_entries(self.resources@) =~= before.push((id@, row.row())));
            },
        }
    }

    /// Merges an attribute object into the attributes of a resource. Where
    /// the store has no row for the resource, nothing changes.
    pub fn merge_attributes(&mut self, id: &ResourceId, attributes: &crate::value::Value)
        requires
            old(self).wf(),
        ensures
            final(self).wf(),
            final(self)@ == apply_operation(
                old(self)@,
                OperationView::MergeAttributes { id: id@, attributes: attributes@ },
            ),
    {
        let ghost before = resource_entries(self.resources@);
        proof {
            lemma_table_dom(before, id@);
        }
        match self.find_resource(id) {
            Some(i) => {
                proof {
                    lemma_table_get(before, i as int);
                }
                let merged = match &self.resources[i].attributes {
                    Some(old) => old.merged(attributes),
                    None => attributes.deep_clone(),
                };
                self.resources[i].attributes = Some(merged);
                proof {
                    let row = ResourceRow {
                        attributes: Some(merged_attributes(before[i as int].1.attributes, attributes@)),
                        ..before[i as int].1
                    };
                    assert(resource_entries(self.resources@) =~= before.update(
                        i as int,
                        (before[i as int].0, row),
                    ));
                    lemma_table_update(before, i as int, row);
                }
            },
            None => {},
        }
    }

    /// Sets the environments of a resource. This is the one way in which
    /// environments change: ingestion leaves them alone.
    pub fn set_environments(&mut self, id: &ResourceId, environments: Vec<String>)
        requires
            old(self).wf(),
        ensures
            final(self).wf(),
            final(self)@ == with_environments(
                old(self)@,
                id@,
                crate::resource::string_set(environments@),
            ),
    {
        let ghost before = resource_entries(self.resources@);
        proof {
            lemma_table_dom(before, id@);
        }
        match self.find_resource(id) {
            Some(i) => {
                proof {
                    lemma_table_get(before, i as int);
                }
                self.resources[i].environments = environments;
                proof {
                    let row = ResourceRow {
                        environments: crate::resource::string_set(environments@),
                        ..before[i as int].1
                    };
                    assert(resource_entries(self.resources@) =~= before.update(
                        i as int,
                        (before[i as int].0, row),
                    ));
                    lemma_table_update(before, i as int, row);
                }
            },
            None => {},
        }
    }

    /// Creates the record of a chain, or advances its `last_seen_at`.
    pub fn upsert_principal_chain(
        &mut self,
        id: &PrincipalChainId,
        first_seen_at: Timestamp,
        last_seen_at: Timestamp,
    )
        requires
            old(self).wf(),
        ensures
            final(self).wf(),
            final(self)@ == apply_operation(
                old(self)@,
                OperationView::UpsertPrincipalChain { id: id@, first_seen_at, last_seen_at },
            ),
    {
        let ghost before = chain_entries(self.principal_chains@);
        proof {
            lemma_table_dom(before, id@);
        }
        match self.find_principal_chain(id) {
            Some(i) => {
                proof {
                    lemma_table_get(before, i as int);
                }
                let last = self.principal_chains[i].last_seen_at.later(last_seen_at);
                self.principal_chains[i].last_seen_at = last;
                proof {
                    let row = upserted_chain(Some(before[i as int].1), first_seen_at, last_seen_at);
                    assert(chain_entries(self.principal_chains@) =~= before.update(
                        i as int,
                        (before[i as int].0, row),
                    ));
                    lemma_table_update(before, i as int, row);
                }
            },
            None => {
                let row = PrincipalChain { id: id.clone(), first_seen_at, last_seen_at };
                proof {
                    lemma_table_push(before, id@, row.row());
                    lemma_distinct_push(before, id@, row.row());
                }
                self.principal_chains.push(row);
                assert(chain_entries(self.principal_chains@) =~= before.push((id@, row.row())));
            },
        }
    }
}

impl GraphStore {
    /// Creates an event edge, or adds a chain to it, advances its
    /// `last_seen_at` and, if `direct` is set, marks it as directly observed.
    pub fn upsert_event(
        &mut self,
        principal: &ResourceId,
        resource: &ResourceId,
        ty: &str,
        principal_chain: &PrincipalChainId,
        direct: bool,
        first_seen_at: Timestamp,
        last_seen_at: Timestamp,
    )
        requires
            old(self).wf(),
        ensures
            final(self).wf(),
            final(self)@ == apply_operation(
                old(self)@,
                OperationView::UpsertEvent {
                    principal: principal@,
                    resource: resource@,
                    ty: ty@,
                    principal_chain: principal_chain@,
                    has_direct_principal_chain: direct,
                    first_seen_at,
                    last_seen_at,
                },
            ),
    {
        let ghost before = edge_entries(self.events@);
        let ghost rows = self.events@;
        let ghost key = (principal@, resource@, ty@);
        proof {
            lemma_table_dom(before, key);
        }
        match self.find_event(principal, resource, ty) {
            Some(i) => {
                let ghost chains = chains_view(self.events@[i as int].principal_chains@);
                proof {
                    lemma_table_get(before, i as int);
                    lemma_with_chain_distinct(chains, principal_chain@);
                }
                if !holds_chain(&self.events[i].principal_chains, principal_chain) {
                    self.events[i].principal_chains.push(principal_chain.clone());
                    assert(chains_view(self.events@[i as int].principal_chains@) =~= chains.push(
                        principal_chain@,
                    ));
                }
                let last = self.events[i].last_seen_at.later(last_seen_at);
                self.events[i].last_seen_at = last;
                if direct {
                    self.events[i].has_direct_principal_chain = true;
                }
                proof {
                    let row = upserted_edge(
                        Some(before[i as int].1),
                        principal_chain@,
                        direct,
                        first_seen_at,
                        last_seen_at,
                    );
                    assert(self.events@[i as int].row() == row);
                    assert(edge_entries(self.events@) =~= before.update(
                        i as int,
                        (before[i as int].0, row),
                    ));
                    lemma_table_update(before, i as int, row);
                    assert forall|j: int| 0 <= j < self.events@.len() implies distinct_chains(
                        #[trigger] chains_view(self.events@[j].principal_chains@),
                    ) by {
                        if j != i {
                            assert(self.events@[j] == rows[j]);
                        }
                    }
                }
            },
            None => {
                let mut chains: Vec<PrincipalChainId> = Vec::new();
                chains.push(principal_chain.clone());
                let row = Event {
                    principal: principal.clone(),
                    ty: crate::text::copy_str(ty),
                    resource: resource.clone(),
                    principal_chains: chains,
                    has_direct_principal_chain: direct,
                    first_seen_at,
                    last_seen_at,
                };
                proof {
                    assert(chains_view(row.principal_chains@) =~= seq![principal_chain@]);
                    lemma_table_push(before, key, row.row());
                    lemma_distinct_push(before, key, row.row());
                }
                self.events.push(row);
                proof {
                    assert(edge_entries(self.events@) =~= before.push((key, row.row())));
                    assert forall|j: int| 0 <= j < self.events@.len() implies distinct_chains(
                        #[trigger] chains_view(self.events@[j].principal_chains@),
                    ) by {
                        if j < rows.len() {
                            assert(self.events@[j] == rows[j]);
                        }
                    }
                }
            },
        }
    }

    /// Applies one operation.
    pub fn apply(&mut self, op: &Operation)
        requires
            old(self).wf(),
        ensures
            final(self).wf(),
            final(self)@ == apply_operation(old(self)@, op@),
    {
        match op {
            Operation::UpsertResource { id, first_seen_at, last_seen_at } => {
                self.upsert_resource(id, *first_seen_at, *last_seen_at);
            },
            Operation::MergeAttributes { id, attributes } => {
                self.merge_attributes(id, attributes);
            },
            Operation::UpsertPrincipalChain { id, first_seen_at, last_seen_at } => {
                self.upsert_principal_chain(id, *first_seen_at, *last_seen_at);
            },
            Operation::UpsertEvent {
                principal,
                resource,
                ty,
                principal_chain,
                has_direct_principal_chain,
                first_seen_at,
                last_seen_at,
            } => {
                self.upsert_event(
                    principal,
                    resource,
                    ty.as_str(),
                    principal_chain,
                    *has_direct_principal_chain,
                    *first_seen_at,
                    *last_seen_at,
                );
            },
        }
    }

    /// Applies a batch of operations, in order.
    pub fn apply_batch(&mut self, batch: &Vec<Operation>)
        requires
            old(self).wf(),
        ensures
            final(self).wf(),
            final(self)@ == apply_operations(old(self)@, operations_view(batch@)),
    {
        let ghost start = self@;
        let ghost ops = operations_view(batch@);
        let mut i: usize = 0;
        assert(ops.subrange(0, 0) =~= Seq::<OperationView>::empty());
        while i < batch.len()
            invariant
                ops == operations_view(batch@),
                i <= batch@.len(),
                self.wf(),
                self@ == apply_operations(start, ops.subrange(0, i as int)),
            decreases batch@.len() - i,
        {
            proof {
                assert(ops.subrange(0, i + 1).drop_last() =~= ops.subrange(0, i as int));
                assert(ops.subrange(0, i + 1).last() == batch@[i as int]@);
            }
            self.apply(&batch[i]);
            i += 1;
        }
        assert(ops.subrange(0, i as int) =~= ops);
    }

    /// Ingests a report: the batch of operations that it becomes is applied
    /// as a whole. A report that is refused changes nothing.
    pub fn ingest(&mut self, req: &Request) -> (r: Result<(), ReportError>)
        requires
            old(self).wf(),
        ensures
            final(self).wf(),
            match r {
                Ok(()) => final(self)@ == apply_operations(old(self)@, request_operations(req@)),
                Err(_) => final(self)@ == old(self)@,
            },
            r is Err <==> crate::report::first_empty_capture(req@.event_captures) is Some,
    {
        match report(req) {
            Ok(batch) => {
                self.apply_batch(&batch);
                Ok(())
            },
            Err(e) => Err(e),
        }
    }

    /// A full snapshot of the graph: every resource but the sentinel root
    /// with the empty path, every event, and the distinct union of the
    /// identities that they refer to.
    pub fn snapshot(&self) -> (r: crate::query::Snapshot)
        ensures
            crate::query::is_snapshot(r, self.resources@, self.events@),
    {
        crate::query::snapshot(&self.resources, &self.events)
    }

    /// The row of a resource, if the store has one.
    pub fn resource(&self, id: &ResourceId) -> (r: Option<&Resource>)
        requires
            self.wf(),
        ensures
            match r {
                Some(row) => row.id@ == id@ && row_at(self@.resources, id@) == Some(row.row()),
                None => row_at(self@.resources, id@) is None,
            },
    {
        proof {
            lemma_table_dom(resource_entries(self.resources@), id@);
        }
        match self.find_resource(id) {
            Some(i) => {
                proof {
                    lemma_table_get(resource_entries(self.resources@), i as int);
                }
                Some(&self.resources[i])
            },
            None => None,
        }
    }

    /// The record of a chain, if the store has one.
    pub fn principal_chain(&self, id: &PrincipalChainId) -> (r: Option<&PrincipalChain>)
        requires
            self.wf(),
        ensures
            match r {
                Some(row) => row.id@ == id@ && row_at(self@.principal_chains, id@) == Some(
                    row.row(),
                ),
                None => row_at(self@.principal_chains, id@) is None,
            },
    {
        proof {
            lemma_table_dom(chain_entries(self.principal_chains@), id@);
        }
        match self.find_principal_chain(id) {
            Some(i) => {
                proof {
                    lemma_table_get(chain_entries(self.principal_chains@), i as int);
                }
                Some(&self.principal_chains[i])
            },
            None => None,
        }
    }

    /// The edge with the given key, if the store has one.
    pub fn event(&self, principal: &ResourceId, resource: &ResourceId, ty: &str) -> (r: Option<
        &Event,
    >)
        requires
            self.wf(),
        ensures
            match r {
                Some(row) => row.key() == (principal@, resource@, ty@) && row_at(
                    self@.events,
                    (principal@, resource@, ty@),
                ) == Some(row.row()),
                None => row_at(self@.events, (principal@, resource@, ty@)) is None,
            },
    {
        proof {
            lemma_table_dom(edge_entries(self.events@), (principal@, resource@, ty@));
        }
        match self.find_event(principal, resource, ty) {
            Some(i) => {
                proof {
                    lemma_table_get(edge_entries(self.events@), i as int);
                }
                Some(&self.events[i])
            },
            None => None,
        }
    }
}

/// Whether a list of chains holds the given chain.
pub fn holds_chain(chains: &Vec<PrincipalChainId>, chain: &PrincipalChainId) -> (r: bool)
    ensures
        r == chains_view(chains@).contains(chain@),
{
    let mut i: usize = 0;
    while i < chains.len()
        invariant
            i <= chains@.len(),
            forall|j: int| 0 <= j < i ==> chains@[j]@ != chain@,
        decreases chains@.len() - i,
    {
        if chains[i].same(chain) {
            assert(chains_view(chains@)[i as int] == chain@);
            return true;
        }
        i += 1;
    }
    assert(!chains_view(chains@).contains(chain@)) by {
        if chains_view(chains@).contains(chain@) {
            let j = choose|j: int|
                0 <= j < chains_view(chains@).len() && chains_view(chains@)[j] == chain@;
            assert(chains@[j]@ == chain@);
        }
    }
    false
}

/// Adding a chain that a duplicate-free list does not hold keeps it free of
/// duplicates.
pub proof fn lemma_with_chain_distinct(chains: Seq<ChainModel>, chain: ChainModel)
    requires
        distinct_chains(chains),
    ensures
        distinct_chains(with_chain(chains, chain)),
        with_chain(chains, chain).contains(chain),
        forall|c: ChainModel| chains.contains(c) ==> with_chain(chains, chain).contains(c),
{
    let all = with_chain(chains, chain);
    if chains.contains(chain) {
    } else {
        assert(all[chains.len() as int] == chain);
        assert forall|i: int, j: int| 0 <= i < j < all.len() implies all[i] != all[j] by {
            assert(all[i] == chains[i]);
            if j < chains.len() {
                assert(all[j] == chains[j]);
            } else {
                assert(chains.contains(chains[i]));
            }
        }
        assert forall|c: ChainModel| chains.contains(c) implies all.contains(c) by {
            let i = choose|i: int| 0 <= i < chains.len() && chains[i] == c;
            assert(all[i] == c);
        }
    }
}

} // verus!
