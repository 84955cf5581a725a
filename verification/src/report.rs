//! Reports: what clients submit, and the operations a report becomes.

use vstd::prelude::*;
use crate::json::{
    json_members_to_entries, members_view, entries_from_json_members, JsonValue,
    JsonView,
};
use crate::operation::{lemma_operations_view_push, operations_view, Operation, OperationView};
use crate::principal_chain::{
    chain_view, encode_chain, ChainModel, PrincipalChainId, PrincipalChainIdPart,
};
use crate::resource::{parts_view, IdModel, PartModel, ResourceId, ResourceIdPart};
use crate::timestamp::Timestamp;
use crate::value::{lemma_object_view, Value, ValueView};

verus! {

/// Model of a [`ResourceTreeNode`].
pub ghost struct NodeView {
    pub part: PartModel,
    pub globally_unique: Option<bool>,
    pub first_seen_at: Timestamp,
    pub last_seen_at: Timestamp,
    pub attributes: Option<Seq<(Seq<char>, JsonView)>>,
    pub contains: Option<Seq<NodeView>>,
}

/// A node of a submitted resource tree: a resource and the resources found
/// inside it.
#[derive(Debug, PartialEq, Eq)]
pub struct ResourceTreeNode {
    /// The node's own step of the path.
    pub id: ResourceIdPart,
    /// Whether the resource is addressed the same way wherever it is found.
    pub globally_unique: Option<bool>,
    pub first_seen_at: Timestamp,
    pub last_seen_at: Timestamp,
    /// The members of the attribute object, if one was sent.
    pub attributes: Option<Vec<(String, JsonValue)>>,
    pub contains: Option<Vec<ResourceTreeNode>>,
}

/// The model of a node, by recursion on the tree.
pub open spec fn node_model(n: &ResourceTreeNode) -> NodeView
    decreases n,
{
    NodeView {
        part: n.id@,
        globally_unique: n.globally_unique,
        first_seen_at: n.first_seen_at,
        last_seen_at: n.last_seen_at,
        attributes: match n.attributes {
            Some(members) => Some(members_view(members@)),
            None => None,
        },
        contains: match n.contains {
            Some(children) => Some(
                Seq::new(
                    children@.len(),
                    |i: int|
                        if 0 <= i < children@.len() {
                            node_model(&children@[i])
                        } else {
                            arbitrary()
                        },
                ),
            ),
            None => None,
        },
    }
}

impl View for ResourceTreeNode {
    type V = NodeView;

    open spec fn view(&self) -> NodeView {
        node_model(self)
    }
}

/// The models of a list of nodes, node by node.
pub open spec fn nodes_view(nodes: Seq<ResourceTreeNode>) -> Seq<NodeView> {
    Seq::new(nodes.len(), |i: int| nodes[i]@)
}

/// The model of a node's children is the list of the children's models.
pub proof fn lemma_children_view(n: &ResourceTreeNode)
    ensures
        n.contains is Some ==> n@.contains == Some(nodes_view(n.contains->0@)),
        n.contains is None ==> n@.contains is None,
{
    if n.contains is Some {
        assert(n@.contains->0 =~= nodes_view(n.contains->0@));
    }
}

/// Model of an observed [`Event`].
pub ghost struct EventView {
    pub ty: Seq<char>,
    pub first_seen_at: Timestamp,
    pub last_seen_at: Timestamp,
}

/// One type of event, with the time range over which it was observed.
#[derive(Debug, PartialEq, Eq)]
pub struct Event {
    pub ty: String,
    pub first_seen_at: Timestamp,
    pub last_seen_at: Timestamp,
}

impl View for Event {
    type V = EventView;

    open spec fn view(&self) -> EventView {
        EventView { ty: self.ty@, first_seen_at: self.first_seen_at, last_seen_at: self.last_seen_at }
    }
}

/// Model of an [`EventCapture`].
pub ghost struct EventCaptureView {
    pub principals: ChainModel,
    pub resources: Seq<IdModel>,
    pub events: Seq<EventView>,
}

/// A chain of principals, the resources they acted on and the events seen.
#[derive(Debug, PartialEq, Eq)]
pub struct EventCapture {
    pub principals: Vec<PrincipalChainIdPart>,
    pub resources: Vec<ResourceId>,
    pub events: Vec<Event>,
}

/// The models of a list of identities.
pub open spec fn ids_view(ids: Seq<ResourceId>) -> Seq<IdModel> {
    Seq::new(ids.len(), |i: int| ids[i]@)
}

/// The models of a list of observed events.
pub open spec fn events_view(events: Seq<Event>) -> Seq<EventView> {
    Seq::new(events.len(), |i: int| events[i]@)
}

impl View for EventCapture {
    type V = EventCaptureView;

    open spec fn view(&self) -> EventCaptureView {
        EventCaptureView {
            principals: chain_view(self.principals@),
            resources: ids_view(self.resources@),
            events: events_view(self.events@),
        }
    }
}

/// Model of a [`Request`].
pub ghost struct RequestView {
    pub resource_captures: Seq<NodeView>,
    pub event_captures: Seq<EventCaptureView>,
}

/// A report as a client submits it.
#[derive(Debug, PartialEq, Eq)]
pub struct Request {
    pub resource_captures: Vec<ResourceTreeNode>,
    pub event_captures: Vec<EventCapture>,
}

/// The models of a list of event captures.
pub open spec fn captures_view(captures: Seq<EventCapture>) -> Seq<EventCaptureView> {
    Seq::new(captures.len(), |i: int| captures[i]@)
}

impl View for Request {
    type V = RequestView;

    open spec fn view(&self) -> RequestView {
        RequestView {
            resource_captures: nodes_view(self.resource_captures@),
            event_captures: captures_view(self.event_captures@),
        }
    }
}

/// Why a report is refused before anything is asked of the store.
#[derive(Clone, Copy, Debug, PartialEq, Eq, Structural)]
pub enum ReportError {
    /// The event capture at this position lists no event, so its chain has
    /// no time range.
    EmptyEventList { capture: usize },
}

/// The identity under which a node is stored. A globally unique node starts
/// a path of its own; any other node extends the path of its container.
pub open spec fn node_path(prefix: IdModel, node: NodeView) -> IdModel {
    if node.globally_unique == Some(true) {
        seq![node.part]
    } else {
        prefix.push(node.part)
    }
}

/// The engine object that carries a node's attributes in a merge.
pub open spec fn attributes_value(members: Seq<(Seq<char>, JsonView)>) -> ValueView {
    ValueView::Object(json_members_to_entries(members))
}

/// The operations for the node itself, stored under `path`: the upsert of
/// its row and, where it has attributes, the merge of them.
pub open spec fn own_operations(path: IdModel, node: NodeView) -> Seq<OperationView> {
    let upsert = OperationView::UpsertResource {
        id: path,
        first_seen_at: node.first_seen_at,
        last_seen_at: node.last_seen_at,
    };
    match node.attributes {
        Some(members) => if members.len() > 0 {
            seq![
                upsert,
                OperationView::MergeAttributes { id: path, attributes: attributes_value(members) },
            ]
        } else {
            seq![upsert]
        },
        None => seq![upsert],
    }
}

/// The operations for a list of sibling trees found under `prefix`: for each
/// tree in turn, those of its root and then those of the root's children,
/// found under the root's path.
pub open spec fn forest_operations(prefix: IdModel, nodes: Seq<NodeView>) -> Seq<OperationView>
    decreases nodes,
{
    if nodes.len() == 0 {
        Seq::empty()
    } else {
        let node = nodes.last();
        let path = node_path(prefix, node);
        forest_operations(prefix, nodes.drop_last()) + own_operations(path, node) + match node.contains {
            Some(children) => {
                proof {
                    assert(decreases_to!(nodes => nodes.last()));
                    assert(decreases_to!(node => node.contains->0));
                }
                forest_operations(path, children)
            },
            None => Seq::empty(),
        }
    }
}

/// The operations for one tree found under `prefix`.
pub open spec fn node_operations(prefix: IdModel, node: NodeView) -> Seq<OperationView> {
    forest_operations(prefix, seq![node])
}

/// The operations for one tree are those of its root followed by those of
/// the root's children, found under the root's path.
pub proof fn lemma_node_operations(prefix: IdModel, node: NodeView)
    ensures
        node_operations(prefix, node) == own_operations(node_path(prefix, node), node) + match node.contains {
            Some(children) => forest_operations(node_path(prefix, node), children),
            None => Seq::empty(),
        },
{
    let single = seq![node];
    assert(single.drop_last() =~= Seq::<NodeView>::empty());
    assert(single.last() == node);
    let path = node_path(prefix, node);
    let below = match node.contains {
        Some(children) => forest_operations(path, children),
        None => Seq::empty(),
    };
    assert(forest_operations(prefix, single.drop_last()) =~= Seq::<OperationView>::empty());
    assert(forest_operations(prefix, single) =~= own_operations(path, node) + below);
}

/// The operations for a list of trees with one more tree at its end are
/// those for the list followed by those for the tree.
pub proof fn lemma_forest_operations_push(prefix: IdModel, nodes: Seq<NodeView>, node: NodeView)
    ensures
        forest_operations(prefix, nodes.push(node)) == forest_operations(prefix, nodes)
            + node_operations(prefix, node),
{
    let all = nodes.push(node);
    assert(all.drop_last() =~= nodes);
    assert(all.last() == node);
    lemma_node_operations(prefix, node);
    let path = node_path(prefix, node);
    let below = match node.contains {
        Some(children) => forest_operations(path, children),
        None => Seq::empty(),
    };
    assert(forest_operations(prefix, all) =~= forest_operations(prefix, nodes) + (own_operations(
        path,
        node,
    ) + below));
}

/// Adds to `batch` the operations for the tree rooted at `node`, found under
/// `prefix`: depth first, the root before its children, the children in
/// order.
pub fn upsert_resource_tree_node(
    batch: &mut Vec<Operation>,
    prefix: &ResourceId,
    node: &ResourceTreeNode,
)
    ensures
        operations_view(final(batch)@) == operations_view(old(batch)@) + node_operations(
            prefix@,
            node@,
        ),
    decreases node,
{
    let ghost before = operations_view(batch@);
    let mut parts: Vec<ResourceIdPart> = Vec::new();
    let reset = match node.globally_unique {
        Some(true) => true,
        _ => false,
    };
    if !reset {
        let mut i: usize = 0;
        while i < prefix.0.len()
            invariant
                i <= prefix.0@.len(),
                parts@.len() == i,
                forall|j: int| 0 <= j < i ==> parts@[j]@ == prefix.0@[j]@,
            decreases prefix.0@.len() - i,
        {
            parts.push(prefix.0[i].clone());
            i += 1;
        }
    }
    parts.push(node.id.clone());
    let path = ResourceId(parts);
    assert(path@ =~= node_path(prefix@, node@));

    proof {
        lemma_operations_view_push(
            batch@,
            Operation::UpsertResource {
                id: path,
                first_seen_at: node.first_seen_at,
                last_seen_at: node.last_seen_at,
            },
        );
    }
    batch.push(
        Operation::UpsertResource {
            id: path.clone(),
            first_seen_at: node.first_seen_at,
            last_seen_at: node.last_seen_at,
        },
    );
    assert(operations_view(batch@) =~= before.push(
        OperationView::UpsertResource {
            id: path@,
            first_seen_at: node.first_seen_at,
            last_seen_at: node.last_seen_at,
        },
    ));

    match &node.attributes {
        Some(members) => {
            if members.len() > 0 {
                let entries = entries_from_json_members(members);
                proof {
                    lemma_object_view(entries);
                }
                let ghost so_far = operations_view(batch@);
                let merge = Operation::MergeAttributes {
                    id: path.clone(),
                    attributes: Value::Object(entries),
                };
                proof {
                    lemma_operations_view_push(batch@, merge);
                }
                batch.push(merge);
                assert(operations_view(batch@) =~= so_far.push(
                    OperationView::MergeAttributes {
                        id: path@,
                        attributes: attributes_value(members_view(members@)),
                    },
                ));
            }
        },
        None => {},
    }
    assert(operations_view(batch@) =~= before + own_operations(path@, node@));

    proof {
        lemma_children_view(node);
    }
    match &node.contains {
        Some(children) => {
            let ghost below = nodes_view(children@);
            let mut i: usize = 0;
            assert(below.subrange(0, 0) =~= Seq::<NodeView>::empty());
            while i < children.len()
                invariant
                    node.contains == Some(*children),
                    below == nodes_view(children@),
                    i <= children@.len(),
                    operations_view(batch@) =~= before + own_operations(path@, node@)
                        + forest_operations(path@, below.subrange(0, i as int)),
                decreases children@.len() - i,
            {
                proof {
                    vstd::std_specs::vec::axiom_vec_index_decreases(*children, i as int);
                    assert(decreases_to!(*node => node.contains));
                    assert(decreases_to!(node.contains => node.contains->0));
                    lemma_forest_operations_push(
                        path@,
                        below.subrange(0, i as int),
                        children@[i as int]@,
                    );
                    assert(below.subrange(0, i as int).push(children@[i as int]@)
                        =~= below.subrange(0, i + 1));
                }
                upsert_resource_tree_node(batch, &path, &children[i]);
                i += 1;
            }
            proof {
                assert(below.subrange(0, i as int) =~= below);
                lemma_node_operations(prefix@, node@);
                assert(operations_view(batch@) =~= before + (own_operations(path@, node@)
                    + forest_operations(path@, below)));
            }
        },
        None => {
            proof {
                lemma_node_operations(prefix@, node@);
                assert(operations_view(batch@) =~= before + (own_operations(path@, node@)
                    + Seq::<OperationView>::empty()));
            }
        },
    }
}

/// The earliest `first_seen_at` among the first `n` events.
pub open spec fn earliest_first_seen(events: Seq<EventView>, n: nat) -> Timestamp
    recommends
        0 < n <= events.len(),
    decreases n,
{
    if n <= 1 {
        events[0].first_seen_at
    } else {
        earliest_first_seen(events, (n - 1) as nat).min(events[n - 1].first_seen_at)
    }
}

/// The latest `last_seen_at` among the first `n` events.
pub open spec fn latest_last_seen(events: Seq<EventView>, n: nat) -> Timestamp
    recommends
        0 < n <= events.len(),
    decreases n,
{
    if n <= 1 {
        events[0].last_seen_at
    } else {
        latest_last_seen(events, (n - 1) as nat).max(events[n - 1].last_seen_at)
    }
}

/// The upsert of the capture's chain record. Its time range spans all the
/// events of the capture.
pub open spec fn chain_operation(c: EventCaptureView) -> OperationView {
    OperationView::UpsertPrincipalChain {
        id: c.principals,
        first_seen_at: earliest_first_seen(c.events, c.events.len()),
        last_seen_at: latest_last_seen(c.events, c.events.len()),
    }
}

/// The upsert of the edge from principal `p` to resource `r` for event `e`.
/// The edge is marked as directly observed when the principal equals the
/// last hop of the chain.
pub open spec fn event_operation(c: EventCaptureView, p: int, r: int, e: int) -> OperationView {
    OperationView::UpsertEvent {
        principal: c.principals[p].0,
        resource: c.resources[r],
        ty: c.events[e].ty,
        principal_chain: c.principals,
        has_direct_principal_chain: c.principals[p] == c.principals.last(),
        first_seen_at: c.events[e].first_seen_at,
        last_seen_at: c.events[e].last_seen_at,
    }
}

/// The edge upserts for principal `p`, resource `r` and the first `n` events.
pub open spec fn pair_operations(c: EventCaptureView, p: int, r: int, n: nat) -> Seq<
    OperationView,
>
    decreases n,
{
    if n == 0 {
        Seq::empty()
    } else {
        pair_operations(c, p, r, (n - 1) as nat).push(event_operation(c, p, r, n - 1))
    }
}

/// The edge upserts for principal `p`, the first `m` resources and every
/// event.
pub open spec fn principal_operations(c: EventCaptureView, p: int, m: nat) -> Seq<OperationView>
    decreases m,
{
    if m == 0 {
        Seq::empty()
    } else {
        principal_operations(c, p, (m - 1) as nat) + pair_operations(c, p, m - 1, c.events.len())
    }
}

/// The edge upserts for the first `k` principals, every resource and every
/// event.
pub open spec fn edge_operations(c: EventCaptureView, k: nat) -> Seq<OperationView>
    decreases k,
{
    if k == 0 {
        Seq::empty()
    } else {
        edge_operations(c, (k - 1) as nat) + principal_operations(c, k - 1, c.resources.len())
    }
}

/// The operations for one event capture: the upsert of its chain, then one
/// edge upsert for each principal, resource and event.
pub open spec fn capture_operations(c: EventCaptureView) -> Seq<OperationView> {
    seq![chain_operation(c)] + edge_operations(c, c.principals.len())
}

/// The engine value of a chain of principals.
pub fn surrealdb_value_from_principal_chain(principal_chain: &Vec<PrincipalChainIdPart>) -> (r:
    Value)
    ensures
        r@ == encode_chain(chain_view(principal_chain@)),
{
    principals_chain_id(principal_chain).to_value()
}

/// The chain identity that a list of principals forms.
pub fn principals_chain_id(principals: &Vec<PrincipalChainIdPart>) -> (r: PrincipalChainId)
    ensures
        r@ == chain_view(principals@),
{
    let mut parts: Vec<PrincipalChainIdPart> = Vec::new();
    let mut i: usize = 0;
    while i < principals.len()
        invariant
            i <= principals@.len(),
            parts@.len() == i,
            forall|j: int| 0 <= j < i ==> parts@[j]@ == principals@[j]@,
        decreases principals@.len() - i,
    {
        parts.push(principals[i].clone());
        i += 1;
    }
    assert(chain_view(parts@) =~= chain_view(principals@));
    PrincipalChainId(parts)
}

/// The time range that spans all the events of a list: the earliest
/// `first_seen_at` and the latest `last_seen_at`. A list without events
/// spans no time range.
pub fn events_time_range(events: &Vec<Event>) -> (r: Option<(Timestamp, Timestamp)>)
    ensures
        match r {
            Some(range) => events@.len() > 0 && range == (
                earliest_first_seen(events_view(events@), events@.len()),
                latest_last_seen(events_view(events@), events@.len()),
            ),
            None => events@.len() == 0,
        },
{
    if events.len() == 0 {
        return None;
    }
    let mut first = events[0].first_seen_at;
    let mut last = events[0].last_seen_at;
    let mut i: usize = 1;
    while i < events.len()
        invariant
            1 <= i <= events@.len(),
            first == earliest_first_seen(events_view(events@), i as nat),
            last == latest_last_seen(events_view(events@), i as nat),
        decreases events@.len() - i,
    {
        first = first.earlier(events[i].first_seen_at);
        last = last.later(events[i].last_seen_at);
        i += 1;
    }
    Some((first, last))
}

/// Adds to `batch` the operations for one event capture, and says whether
/// it did. A capture that lists no event has no time range for its chain:
/// nothing is added for it.
pub fn upsert_events(batch: &mut Vec<Operation>, report: &EventCapture) -> (r: bool)
    ensures
        r == (report@.events.len() > 0),
        r ==> operations_view(final(batch)@) == operations_view(old(batch)@) + capture_operations(
            report@,
        ),
        !r ==> final(batch)@ == old(batch)@,
{
    let ghost before = operations_view(batch@);
    let ghost c = report@;
    let (first_seen_at, last_seen_at) = match events_time_range(&report.events) {
        Some(range) => range,
        None => {
            return false;
        },
    };

    let chain = Operation::UpsertPrincipalChain {
        id: principals_chain_id(&report.principals),
        first_seen_at,
        last_seen_at,
    };
    proof {
        lemma_operations_view_push(batch@, chain);
    }
    batch.push(chain);
    assert(operations_view(batch@) =~= before + seq![chain_operation(c)]);

    let count = report.principals.len();
    let mut p: usize = 0;
    while p < count
        invariant
            c == report@,
            count == report.principals@.len(),
            p <= count,
            operations_view(batch@) =~= before + seq![chain_operation(c)] + edge_operations(
                c,
                p as nat,
            ),
        decreases count - p,
    {
        let principal = &report.principals[p];
        let has_direct_principal_chain = principal.same(&report.principals[count - 1]);
        let ghost start = operations_view(batch@);

        let mut r: usize = 0;
        while r < report.resources.len()
            invariant
                c == report@,
                count == report.principals@.len(),
                p < count,
                principal == &report.principals@[p as int],
                has_direct_principal_chain == (c.principals[p as int] == c.principals.last()),
                r <= report.resources@.len(),
                operations_view(batch@) =~= start + principal_operations(c, p as int, r as nat),
            decreases report.resources@.len() - r,
        {
            let resource = &report.resources[r];
            let ghost row = operations_view(batch@);

            let mut e: usize = 0;
            while e < report.events.len()
                invariant
                    c == report@,
                    count == report.principals@.len(),
                    p < count,
                    r < report.resources@.len(),
                    principal == &report.principals@[p as int],
                    resource == &report.resources@[r as int],
                    has_direct_principal_chain == (c.principals[p as int] == c.principals.last()),
                    e <= report.events@.len(),
                    operations_view(batch@) =~= row + pair_operations(
                        c,
                        p as int,
                        r as int,
                        e as nat,
                    ),
                decreases report.events@.len() - e,
            {
                let event = &report.events[e];
                let edge = Operation::UpsertEvent {
                    principal: principal.id.clone(),
                    resource: resource.clone(),
                    ty: event.ty.clone(),
                    principal_chain: principals_chain_id(&report.principals),
                    has_direct_principal_chain,
                    first_seen_at: event.first_seen_at,
                    last_seen_at: event.last_seen_at,
                };
                proof {
                    lemma_operations_view_push(batch@, edge);
                    assert(edge@ == event_operation(c, p as int, r as int, e as int));
                }
                batch.push(edge);
                e += 1;
            }
            r += 1;
        }
        p += 1;
    }
    true
}

/// The operations for the first `n` event captures of a list.
pub open spec fn captures_operations(captures: Seq<EventCaptureView>, n: nat) -> Seq<
    OperationView,
>
    decreases n,
{
    if n == 0 {
        Seq::empty()
    } else {
        captures_operations(captures, (n - 1) as nat) + capture_operations(captures[n - 1])
    }
}

/// The batch of operations that a report becomes: those of its resource
/// trees, each found under the empty path, then those of its event captures.
pub open spec fn request_operations(req: RequestView) -> Seq<OperationView> {
    forest_operations(Seq::empty(), req.resource_captures) + captures_operations(
        req.event_captures,
        req.event_captures.len(),
    )
}

/// The position of the first event capture that lists no event.
pub open spec fn first_empty_capture(captures: Seq<EventCaptureView>) -> Option<int> {
    if exists|i: int| 0 <= i < captures.len() && captures[i].events.len() == 0 {
        Some(
            choose|i: int|
                0 <= i < captures.len() && captures[i].events.len() == 0 && forall|j: int|
                    0 <= j < i ==> captures[j].events.len() != 0,
        )
    } else {
        None
    }
}

impl ReportError {
    /// A sentence that says what is wrong.
    pub fn message(&self) -> (r: String)
        ensures
            r@ == "event capture lists no events"@,
    {
        match self {
            ReportError::EmptyEventList { .. } => crate::text::copy_str(
                "event capture lists no events",
            ),
        }
    }
}

/// Turns a report into the batch of operations to apply as one unit. The
/// report is checked as a whole first: where an event capture lists no
/// event, nothing is produced.
pub fn report(req: &Request) -> (r: Result<Vec<Operation>, ReportError>)
    ensures
        match r {
            Ok(batch) => first_empty_capture(req@.event_captures) is None && operations_view(
                batch@,
            ) == request_operations(req@),
            Err(ReportError::EmptyEventList { capture }) => first_empty_capture(
                req@.event_captures,
            ) == Some(capture as int),
        },
{
    let ghost captures = req@.event_captures;
    let mut k: usize = 0;
    while k < req.event_captures.len()
        invariant
            captures == captures_view(req.event_captures@),
            k <= req.event_captures@.len(),
            forall|j: int| 0 <= j < k ==> captures[j].events.len() != 0,
        decreases req.event_captures@.len() - k,
    {
        if req.event_captures[k].events.len() == 0 {
            assert(captures[k as int].events.len() == 0);
            return Err(ReportError::EmptyEventList { capture: k });
        }
        k += 1;
    }

    let mut batch: Vec<Operation> = Vec::new();
    let root = ResourceId(Vec::new());
    assert(root@ =~= Seq::empty());
    assert(operations_view(batch@) =~= Seq::empty());
    let ghost trees = req@.resource_captures;
    assert(trees.subrange(0, 0) =~= Seq::<NodeView>::empty());

    let mut i: usize = 0;
    while i < req.resource_captures.len()
        invariant
            trees == nodes_view(req.resource_captures@),
            root@ == Seq::<PartModel>::empty(),
            i <= req.resource_captures@.len(),
            operations_view(batch@) =~= forest_operations(
                Seq::empty(),
                trees.subrange(0, i as int),
            ),
        decreases req.resource_captures@.len() - i,
    {
        proof {
            lemma_forest_operations_push(
                Seq::empty(),
                trees.subrange(0, i as int),
                req.resource_captures@[i as int]@,
            );
            assert(trees.subrange(0, i as int).push(req.resource_captures@[i as int]@)
                =~= trees.subrange(0, i + 1));
        }
        upsert_resource_tree_node(&mut batch, &root, &req.resource_captures[i]);
        i += 1;
    }
    assert(trees.subrange(0, i as int) =~= trees);

    let ghost resources = operations_view(batch@);
    let mut j: usize = 0;
    while j < req.event_captures.len()
        invariant
            captures == captures_view(req.event_captures@),
            forall|j: int| 0 <= j < captures.len() ==> captures[j].events.len() != 0,
            j <= req.event_captures@.len(),
            operations_view(batch@) =~= resources + captures_operations(captures, j as nat),
        decreases req.event_captures@.len() - j,
    {
        assert(captures[j as int].events.len() != 0);
        let taken = upsert_events(&mut batch, &req.event_captures[j]);
        assert(taken);
        j += 1;
    }
    Ok(batch)
}

} // verus!
