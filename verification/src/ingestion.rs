//! What ingesting reports does to the graph: the guarantees that follow from
//! the operations a report becomes and the rules by which the store merges
//! them.

use vstd::prelude::*;
use crate::event::{EdgeKey, EdgeRow};
use crate::operation::OperationView;
use crate::report::{
    capture_operations, captures_operations, chain_operation, edge_operations, event_operation,
    forest_operations, lemma_node_operations, node_operations, node_path, own_operations,
    pair_operations, principal_operations, EventCaptureView, EventView, NodeView,
};
use crate::resource::{IdModel, ResourceRow};
use crate::store::{
    apply_operation, apply_operations, empty_graph, lemma_apply_operations_concat, row_at,
    upserted_edge, upserted_resource, with_chain, GraphView,
};
use crate::timestamp::{max_opt, Timestamp};

verus! {

/// Whether an operation upserts the edge with the given key.
pub open spec fn touches_edge(op: OperationView, key: EdgeKey) -> bool {
    match op {
        OperationView::UpsertEvent { principal, resource, ty, .. } => (principal, resource, ty)
            == key,
        _ => false,
    }
}

/// What one operation does to the edge with the given key.
pub open spec fn edge_step(row: Option<EdgeRow>, op: OperationView, key: EdgeKey) -> Option<
    EdgeRow,
> {
    match op {
        OperationView::UpsertEvent {
            principal,
            resource,
            ty,
            principal_chain,
            has_direct_principal_chain,
            first_seen_at,
            last_seen_at,
        } => if (principal, resource, ty) == key {
            Some(
                upserted_edge(
                    row,
                    principal_chain,
                    has_direct_principal_chain,
                    first_seen_at,
                    last_seen_at,
                ),
            )
        } else {
            row
        },
        _ => row,
    }
}

/// What a batch of operations does to the edge with the given key.
pub open spec fn edge_after(row: Option<EdgeRow>, ops: Seq<OperationView>, key: EdgeKey) -> Option<
    EdgeRow,
>
    decreases ops.len(),
{
    if ops.len() == 0 {
        row
    } else {
        edge_step(edge_after(row, ops.drop_last(), key), ops.last(), key)
    }
}

/// The edge at a key after a batch depends only on the edge before it and on
/// the operations of the batch.
pub proof fn lemma_edge_after(g: GraphView, ops: Seq<OperationView>, key: EdgeKey)
    ensures
        row_at(apply_operations(g, ops).events, key) == edge_after(
            row_at(g.events, key),
            ops,
            key,
        ),
    decreases ops.len(),
{
    if ops.len() > 0 {
        lemma_edge_after(g, ops.drop_last(), key);
    }
}

/// What two batches in a row do to an edge.
pub proof fn lemma_edge_after_concat(
    row: Option<EdgeRow>,
    first: Seq<OperationView>,
    second: Seq<OperationView>,
    key: EdgeKey,
)
    ensures
        edge_after(row, first + second, key) == edge_after(
            edge_after(row, first, key),
            second,
            key,
        ),
    decreases second.len(),
{
    if second.len() == 0 {
        assert(first + second =~= first);
    } else {
        lemma_edge_after_concat(row, first, second.drop_last(), key);
        assert((first + second).drop_last() =~= first + second.drop_last());
        assert((first + second).last() == second.last());
    }
}

/// Some operation of the batch upserts the edge and marks it as directly
/// observed.
pub open spec fn marks_direct(ops: Seq<OperationView>, key: EdgeKey) -> bool {
    exists|i: int|
        0 <= i < ops.len() && touches_edge(#[trigger] ops[i], key)
            && ops[i]->has_direct_principal_chain
}

/// Some operation of the batch upserts the edge.
pub open spec fn touches(ops: Seq<OperationView>, key: EdgeKey) -> bool {
    exists|i: int| 0 <= i < ops.len() && touches_edge(#[trigger] ops[i], key)
}

/// Whether the edge is there and marked as directly observed.
pub open spec fn is_direct(row: Option<EdgeRow>) -> bool {
    row is Some && row->0.has_direct_principal_chain
}

/// After a batch, an edge is marked as directly observed exactly if it was
/// so before or some operation of the batch marked it. The edge is there
/// exactly if it was there before or some operation of the batch upserted it.
pub proof fn lemma_direct_after(row: Option<EdgeRow>, ops: Seq<OperationView>, key: EdgeKey)
    ensures
        is_direct(edge_after(row, ops, key)) <==> is_direct(row) || marks_direct(ops, key),
        edge_after(row, ops, key) is Some <==> row is Some || touches(ops, key),
    decreases ops.len(),
{
    if ops.len() > 0 {
        let front = ops.drop_last();
        lemma_direct_after(row, front, key);
        if marks_direct(front, key) {
            let i = choose|i: int|
                0 <= i < front.len() && touches_edge(#[trigger] front[i], key)
                    && front[i]->has_direct_principal_chain;
            assert(ops[i] == front[i]);
        }
        if touches(front, key) {
            let i = choose|i: int| 0 <= i < front.len() && touches_edge(#[trigger] front[i], key);
            assert(ops[i] == front[i]);
        }
        if marks_direct(ops, key) {
            let i = choose|i: int|
                0 <= i < ops.len() && touches_edge(#[trigger] ops[i], key)
                    && ops[i]->has_direct_principal_chain;
            if i < front.len() {
                assert(front[i] == ops[i]);
            }
        }
        if touches(ops, key) {
            let i = choose|i: int| 0 <= i < ops.len() && touches_edge(#[trigger] ops[i], key);
            if i < front.len() {
                assert(front[i] == ops[i]);
            }
        }
        if touches_edge(ops.last(), key) {
            assert(touches_edge(ops[ops.len() - 1], key));
        }
    }
}

/// An edge that is marked as directly observed stays so, whatever is
/// ingested afterwards.
pub proof fn lemma_direct_is_kept(g: GraphView, ops: Seq<OperationView>, key: EdgeKey)
    requires
        is_direct(row_at(g.events, key)),
    ensures
        is_direct(row_at(apply_operations(g, ops).events, key)),
{
    lemma_edge_after(g, ops, key);
    lemma_direct_after(row_at(g.events, key), ops, key);
}

/// The operation is the edge upsert of the capture for some principal among
/// the first `k`, some resource and some event.
pub open spec fn is_edge_operation_of(c: EventCaptureView, op: OperationView, k: int) -> bool {
    exists|p: int, r: int, e: int|
        0 <= p < k && 0 <= r < c.resources.len() && 0 <= e < c.events.len() && op
            == #[trigger] event_operation(c, p, r, e)
}

proof fn lemma_pair_operations(c: EventCaptureView, p: int, r: int, n: nat)
    ensures
        pair_operations(c, p, r, n).len() == n,
        forall|e: int| 0 <= e < n ==> pair_operations(c, p, r, n)[e] == event_operation(c, p, r, e),
    decreases n,
{
    if n > 0 {
        lemma_pair_operations(c, p, r, (n - 1) as nat);
    }
}

/// The operation is the edge upsert of the capture for principal `p`, some
/// resource among the first `m` and some event.
pub open spec fn is_principal_operation_of(c: EventCaptureView, op: OperationView, p: int, m: int) -> bool {
    exists|r: int, e: int|
        0 <= r < m && 0 <= e < c.events.len() && op == #[trigger] event_operation(c, p, r, e)
}

proof fn lemma_principal_operations(c: EventCaptureView, p: int, m: nat)
    ensures
        forall|i: int|
            0 <= i < principal_operations(c, p, m).len() ==> is_principal_operation_of(
                c,
                #[trigger] principal_operations(c, p, m)[i],
                p,
                m as int,
            ),
        forall|r: int, e: int|
            0 <= r < m && 0 <= e < c.events.len() ==> principal_operations(c, p, m).contains(
                #[trigger] event_operation(c, p, r, e),
            ),
    decreases m,
{
    if m > 0 {
        let front = principal_operations(c, p, (m - 1) as nat);
        let row = pair_operations(c, p, m - 1, c.events.len());
        let all = principal_operations(c, p, m);
        lemma_principal_operations(c, p, (m - 1) as nat);
        lemma_pair_operations(c, p, m - 1, c.events.len());
        assert(all == front + row);
        assert forall|i: int| 0 <= i < all.len() implies is_principal_operation_of(
            c,
            #[trigger] all[i],
            p,
            m as int,
        ) by {
            if i < front.len() {
                assert(all[i] == front[i]);
                assert(is_principal_operation_of(c, front[i], p, m - 1));
                let (r, e) = choose|r: int, e: int|
                    0 <= r < m - 1 && 0 <= e < c.events.len() && front[i]
                        == #[trigger] event_operation(c, p, r, e);
                assert(all[i] == event_operation(c, p, r, e));
            } else {
                let e = i - front.len();
                assert(all[i] == row[e]);
                assert(all[i] == event_operation(c, p, m - 1, e));
            }
        }
        assert forall|r: int, e: int| 0 <= r < m && 0 <= e < c.events.len() implies all.contains(
            #[trigger] event_operation(c, p, r, e),
        ) by {
            if r < m - 1 {
                assert(front.contains(event_operation(c, p, r, e)));
                let i = choose|i: int|
                    0 <= i < front.len() && front[i] == event_operation(c, p, r, e);
                assert(all[i] == front[i]);
            } else {
                assert(all[front.len() + e] == row[e]);
            }
        }
    }
}

proof fn lemma_edge_operations(c: EventCaptureView, k: nat)
    ensures
        forall|i: int|
            0 <= i < edge_operations(c, k).len() ==> is_edge_operation_of(
                c,
                #[trigger] edge_operations(c, k)[i],
                k as int,
            ),
        forall|p: int, r: int, e: int|
            0 <= p < k && 0 <= r < c.resources.len() && 0 <= e < c.events.len()
                ==> edge_operations(c, k).contains(#[trigger] event_operation(c, p, r, e)),
    decreases k,
{
    if k > 0 {
        let front = edge_operations(c, (k - 1) as nat);
        let row = principal_operations(c, k - 1, c.resources.len());
        let all = edge_operations(c, k);
        lemma_edge_operations(c, (k - 1) as nat);
        lemma_principal_operations(c, k - 1, c.resources.len());
        assert(all == front + row);
        assert forall|i: int| 0 <= i < all.len() implies is_edge_operation_of(
            c,
            #[trigger] all[i],
            k as int,
        ) by {
            if i < front.len() {
                assert(all[i] == front[i]);
                assert(is_edge_operation_of(c, front[i], k - 1));
                let (p, r, e) = choose|p: int, r: int, e: int|
                    0 <= p < k - 1 && 0 <= r < c.resources.len() && 0 <= e < c.events.len()
                        && front[i] == #[trigger] event_operation(c, p, r, e);
                assert(all[i] == event_operation(c, p, r, e));
            } else {
                let j = i - front.len();
                assert(all[i] == row[j]);
                assert(is_principal_operation_of(c, row[j], k - 1, c.resources.len() as int));
                let (r, e) = choose|r: int, e: int|
                    0 <= r < c.resources.len() && 0 <= e < c.events.len() && row[j]
                        == #[trigger] event_operation(c, k - 1, r, e);
                assert(all[i] == event_operation(c, k - 1, r, e));
            }
        }
        assert forall|p: int, r: int, e: int|
            0 <= p < k && 0 <= r < c.resources.len() && 0 <= e < c.events.len() implies all.contains(
            #[trigger] event_operation(c, p, r, e),
        ) by {
            if p < k - 1 {
                assert(front.contains(event_operation(c, p, r, e)));
                let i = choose|i: int|
                    0 <= i < front.len() && front[i] == event_operation(c, p, r, e);
                assert(all[i] == front[i]);
            } else {
                assert(row.contains(event_operation(c, p, r, e)));
                let j = choose|j: int| 0 <= j < row.len() && row[j] == event_operation(c, p, r, e);
                assert(all[front.len() + j] == row[j]);
            }
        }
    }
}

/// The operations of a capture are the upsert of its chain and, for every
/// principal, resource and event of it, the upsert of their edge: each of
/// these is among them, and nothing else is.
pub proof fn lemma_capture_operations_members(c: EventCaptureView)
    ensures
        capture_operations(c).len() >= 1,
        capture_operations(c)[0] == chain_operation(c),
        forall|i: int|
            1 <= i < capture_operations(c).len() ==> is_edge_operation_of(
                c,
                #[trigger] capture_operations(c)[i],
                c.principals.len() as int,
            ),
        forall|p: int, r: int, e: int|
            0 <= p < c.principals.len() && 0 <= r < c.resources.len() && 0 <= e < c.events.len()
                ==> capture_operations(c).contains(#[trigger] event_operation(c, p, r, e)),
{
    let edges = edge_operations(c, c.principals.len());
    let all = capture_operations(c);
    lemma_edge_operations(c, c.principals.len());
    assert forall|i: int| 1 <= i < all.len() implies is_edge_operation_of(
        c,
        #[trigger] all[i],
        c.principals.len() as int,
    ) by {
        assert(all[i] == edges[i - 1]);
    }
    assert forall|p: int, r: int, e: int|
        0 <= p < c.principals.len() && 0 <= r < c.resources.len() && 0 <= e
            < c.events.len() implies all.contains(#[trigger] event_operation(c, p, r, e)) by {
        assert(edges.contains(event_operation(c, p, r, e)));
        let j = choose|j: int| 0 <= j < edges.len() && edges[j] == event_operation(c, p, r, e);
        assert(all[j + 1] == edges[j]);
    }
}

/// The capture names the resource of the key among its resources and the
/// event type of the key among its events.
pub open spec fn covers_target(c: EventCaptureView, key: EdgeKey) -> bool {
    &&& exists|r: int| 0 <= r < c.resources.len() && #[trigger] c.resources[r] == key.1
    &&& exists|e: int| 0 <= e < c.events.len() && (#[trigger] c.events[e]).ty == key.2
}

/// The capture produces the edge with the given key: some hop of its chain
/// is the key's principal, and it names the key's resource and event type.
pub open spec fn capture_touches(c: EventCaptureView, key: EdgeKey) -> bool {
    &&& exists|p: int| 0 <= p < c.principals.len() && (#[trigger] c.principals[p]).0 == key.0
    &&& covers_target(c, key)
}

/// The capture produces the edge with the given key through a chain whose
/// last hop is the key's principal.
pub open spec fn capture_ends_in_principal(c: EventCaptureView, key: EdgeKey) -> bool {
    &&& c.principals.len() > 0
    &&& c.principals.last().0 == key.0
    &&& covers_target(c, key)
}

/// A capture upserts an edge exactly if it produces it, and marks it as
/// directly observed exactly if its chain ends in the edge's principal.
pub proof fn lemma_capture_marks(c: EventCaptureView, key: EdgeKey)
    ensures
        touches(capture_operations(c), key) <==> capture_touches(c, key),
        marks_direct(capture_operations(c), key) <==> capture_ends_in_principal(c, key),
{
    let ops = capture_operations(c);
    lemma_capture_operations_members(c);
    if touches(ops, key) {
        let i = choose|i: int| 0 <= i < ops.len() && touches_edge(#[trigger] ops[i], key);
        assert(i >= 1);
        assert(is_edge_operation_of(c, ops[i], c.principals.len() as int));
        let (p, r, e) = choose|p: int, r: int, e: int|
            0 <= p < c.principals.len() && 0 <= r < c.resources.len() && 0 <= e < c.events.len()
                && ops[i] == #[trigger] event_operation(c, p, r, e);
        assert(c.principals[p].0 == key.0);
        assert(c.resources[r] == key.1);
        assert(c.events[e].ty == key.2);
    }
    if marks_direct(ops, key) {
        let i = choose|i: int|
            0 <= i < ops.len() && touches_edge(#[trigger] ops[i], key)
                && ops[i]->has_direct_principal_chain;
        assert(i >= 1);
        assert(is_edge_operation_of(c, ops[i], c.principals.len() as int));
        let (p, r, e) = choose|p: int, r: int, e: int|
            0 <= p < c.principals.len() && 0 <= r < c.resources.len() && 0 <= e < c.events.len()
                && ops[i] == #[trigger] event_operation(c, p, r, e);
        assert(c.principals[p] == c.principals.last());
        assert(c.resources[r] == key.1);
        assert(c.events[e].ty == key.2);
    }
    if capture_touches(c, key) {
        let p = choose|p: int|
            0 <= p < c.principals.len() && (#[trigger] c.principals[p]).0 == key.0;
        let r = choose|r: int| 0 <= r < c.resources.len() && #[trigger] c.resources[r] == key.1;
        let e = choose|e: int| 0 <= e < c.events.len() && (#[trigger] c.events[e]).ty == key.2;
        assert(ops.contains(event_operation(c, p, r, e)));
        let i = choose|i: int| 0 <= i < ops.len() && ops[i] == event_operation(c, p, r, e);
        assert(touches_edge(ops[i], key));
    }
    if capture_ends_in_principal(c, key) {
        let p = c.principals.len() - 1;
        let r = choose|r: int| 0 <= r < c.resources.len() && #[trigger] c.resources[r] == key.1;
        let e = choose|e: int| 0 <= e < c.events.len() && (#[trigger] c.events[e]).ty == key.2;
        assert(ops.contains(event_operation(c, p, r, e)));
        let i = choose|i: int| 0 <= i < ops.len() && ops[i] == event_operation(c, p, r, e);
        assert(touches_edge(ops[i], key) && ops[i]->has_direct_principal_chain);
    }
}

/// Whether a batch made of two batches upserts or marks an edge.
pub proof fn lemma_marks_concat(a: Seq<OperationView>, b: Seq<OperationView>, key: EdgeKey)
    ensures
        touches(a + b, key) <==> touches(a, key) || touches(b, key),
        marks_direct(a + b, key) <==> marks_direct(a, key) || marks_direct(b, key),
{
    let all = a + b;
    if touches(a, key) {
        let i = choose|i: int| 0 <= i < a.len() && touches_edge(#[trigger] a[i], key);
        assert(all[i] == a[i]);
    }
    if touches(b, key) {
        let i = choose|i: int| 0 <= i < b.len() && touches_edge(#[trigger] b[i], key);
        assert(all[a.len() + i] == b[i]);
    }
    if touches(all, key) {
        let i = choose|i: int| 0 <= i < all.len() && touches_edge(#[trigger] all[i], key);
        if i < a.len() {
            assert(a[i] == all[i]);
        } else {
            assert(b[i - a.len()] == all[i]);
        }
    }
    if marks_direct(a, key) {
        let i = choose|i: int|
            0 <= i < a.len() && touches_edge(#[trigger] a[i], key)
                && a[i]->has_direct_principal_chain;
        assert(all[i] == a[i]);
    }
    if marks_direct(b, key) {
        let i = choose|i: int|
            0 <= i < b.len() && touches_edge(#[trigger] b[i], key)
                && b[i]->has_direct_principal_chain;
        assert(all[a.len() + i] == b[i]);
    }
    if marks_direct(all, key) {
        let i = choose|i: int|
            0 <= i < all.len() && touches_edge(#[trigger] all[i], key)
                && all[i]->has_direct_principal_chain;
        if i < a.len() {
            assert(a[i] == all[i]);
        } else {
            assert(b[i - a.len()] == all[i]);
        }
    }
}

/// Among the first `n` captures, one produces the edge through a chain whose
/// last hop is the edge's principal.
pub open spec fn some_chain_ends_in_principal(
    captures: Seq<EventCaptureView>,
    n: int,
    key: EdgeKey,
) -> bool {
    exists|i: int| 0 <= i < n && capture_ends_in_principal(#[trigger] captures[i], key)
}

/// Among the first `n` captures, one produces the edge.
pub open spec fn some_capture_touches(captures: Seq<EventCaptureView>, n: int, key: EdgeKey) -> bool {
    exists|i: int| 0 <= i < n && capture_touches(#[trigger] captures[i], key)
}

proof fn lemma_captures_mark(captures: Seq<EventCaptureView>, n: nat, key: EdgeKey)
    requires
        n <= captures.len(),
    ensures
        touches(captures_operations(captures, n), key) <==> some_capture_touches(
            captures,
            n as int,
            key,
        ),
        marks_direct(captures_operations(captures, n), key) <==> some_chain_ends_in_principal(
            captures,
            n as int,
            key,
        ),
    decreases n,
{
    if n == 0 {
    } else {
        lemma_captures_mark(captures, (n - 1) as nat, key);
        lemma_capture_marks(captures[n - 1], key);
        lemma_marks_concat(
            captures_operations(captures, (n - 1) as nat),
            capture_operations(captures[n - 1]),
            key,
        );
        if some_chain_ends_in_principal(captures, n - 1, key) {
            let i = choose|i: int|
                0 <= i < n - 1 && capture_ends_in_principal(#[trigger] captures[i], key);
            assert(capture_ends_in_principal(captures[i], key));
        }
        if some_capture_touches(captures, n - 1, key) {
            let i = choose|i: int| 0 <= i < n - 1 && capture_touches(#[trigger] captures[i], key);
            assert(capture_touches(captures[i], key));
        }
        if capture_ends_in_principal(captures[n - 1], key) {
            assert(some_chain_ends_in_principal(captures, n as int, key));
        }
        if capture_touches(captures[n - 1], key) {
            assert(some_capture_touches(captures, n as int, key));
        }
    }
}

/// After any number of event captures have been ingested, an edge is marked
/// as directly observed exactly if it was so before or one of the captures
/// produced it through a chain whose last hop is the edge's principal. In
/// particular the mark is never taken back.
pub proof fn lemma_direct_iff_some_chain_ends_in_principal(
    g: GraphView,
    captures: Seq<EventCaptureView>,
    key: EdgeKey,
)
    ensures
        ({
            let after = apply_operations(g, captures_operations(captures, captures.len()));
            &&& is_direct(row_at(after.events, key)) <==> is_direct(row_at(g.events, key))
                || some_chain_ends_in_principal(captures, captures.len() as int, key)
            &&& row_at(after.events, key) is Some <==> row_at(g.events, key) is Some
                || some_capture_touches(captures, captures.len() as int, key)
        }),
{
    let ops = captures_operations(captures, captures.len());
    lemma_edge_after(g, ops, key);
    lemma_direct_after(row_at(g.events, key), ops, key);
    lemma_captures_mark(captures, captures.len(), key);
}

/// The latest `last_seen_at` among the operations of a batch that upsert the
/// edge with the given key, if there is such an operation.
pub open spec fn latest_touch(ops: Seq<OperationView>, key: EdgeKey) -> Option<Timestamp>
    decreases ops.len(),
{
    if ops.len() == 0 {
        None
    } else if touches_edge(ops.last(), key) {
        Some(max_opt(latest_touch(ops.drop_last(), key), ops.last()->UpsertEvent_last_seen_at))
    } else {
        latest_touch(ops.drop_last(), key)
    }
}

/// The instant is the `last_seen_at` of some operation of the batch that
/// upserts the edge, and no such operation has a later one.
pub open spec fn is_latest_touch(t: Timestamp, ops: Seq<OperationView>, key: EdgeKey) -> bool {
    &&& exists|i: int|
        0 <= i < ops.len() && touches_edge(#[trigger] ops[i], key)
            && ops[i]->UpsertEvent_last_seen_at == t
    &&& forall|i: int|
        0 <= i < ops.len() && touches_edge(#[trigger] ops[i], key)
            ==> ops[i]->UpsertEvent_last_seen_at.le(t)
}

/// `latest_touch` is what its name says.
pub proof fn lemma_latest_touch(ops: Seq<OperationView>, key: EdgeKey)
    ensures
        latest_touch(ops, key) is Some <==> touches(ops, key),
        latest_touch(ops, key) is Some ==> is_latest_touch(latest_touch(ops, key)->0, ops, key),
    decreases ops.len(),
{
    if ops.len() > 0 {
        let front = ops.drop_last();
        lemma_latest_touch(front, key);
        lemma_marks_concat(front, seq![ops.last()], key);
        assert(front + seq![ops.last()] =~= ops);
        if touches_edge(ops.last(), key) {
            assert(touches_edge(seq![ops.last()][0], key));
            let last = ops.last()->UpsertEvent_last_seen_at;
            let t = latest_touch(ops, key)->0;
            assert(ops[ops.len() - 1] == ops.last());
            match latest_touch(front, key) {
                Some(before) => {
                    let i = choose|i: int|
                        0 <= i < front.len() && touches_edge(#[trigger] front[i], key)
                            && front[i]->UpsertEvent_last_seen_at == before;
                    assert(ops[i] == front[i]);
                    assert forall|j: int|
                        0 <= j < ops.len() && touches_edge(
                            #[trigger] ops[j],
                            key,
                        ) implies ops[j]->UpsertEvent_last_seen_at.le(t) by {
                        if j < front.len() {
                            assert(front[j] == ops[j]);
                            crate::timestamp::lemma_timestamp_order(
                                ops[j]->UpsertEvent_last_seen_at,
                                before,
                                t,
                            );
                        }
                    }
                },
                None => {
                    assert forall|j: int|
                        0 <= j < ops.len() && touches_edge(
                            #[trigger] ops[j],
                            key,
                        ) implies ops[j]->UpsertEvent_last_seen_at.le(t) by {
                        if j < front.len() {
                            assert(front[j] == ops[j]);
                            assert(touches(front, key));
                        }
                    }
                },
            }
        } else {
            if touches(seq![ops.last()], key) {
                let i = choose|i: int|
                    0 <= i < 1 && touches_edge(#[trigger] seq![ops.last()][i], key);
                assert(false);
            }
            if latest_touch(front, key) is Some {
                let t = latest_touch(front, key)->0;
                let i = choose|i: int|
                    0 <= i < front.len() && touches_edge(#[trigger] front[i], key)
                        && front[i]->UpsertEvent_last_seen_at == t;
                assert(ops[i] == front[i]);
                assert forall|j: int|
                    0 <= j < ops.len() && touches_edge(
                        #[trigger] ops[j],
                        key,
                    ) implies ops[j]->UpsertEvent_last_seen_at.le(t) by {
                    if j < front.len() {
                        assert(front[j] == ops[j]);
                    }
                }
            }
        }
    }
}

/// Two instants that are both the latest of the same operations are equal.
pub proof fn lemma_latest_touch_unique(
    a: Timestamp,
    b: Timestamp,
    ops: Seq<OperationView>,
    key: EdgeKey,
)
    requires
        is_latest_touch(a, ops, key),
        is_latest_touch(b, ops, key),
    ensures
        a == b,
{
    crate::timestamp::lemma_timestamp_order(a, b, a);
}

/// The `last_seen_at` of an edge that may be missing.
pub open spec fn last_seen_of(row: Option<EdgeRow>) -> Option<Timestamp> {
    match row {
        Some(r) => Some(r.last_seen_at),
        None => None,
    }
}

/// The later of two instants that may each be missing.
pub open spec fn later_of(a: Option<Timestamp>, b: Option<Timestamp>) -> Option<Timestamp> {
    match (a, b) {
        (Some(x), Some(y)) => Some(x.max(y)),
        (Some(x), None) => Some(x),
        (None, y) => y,
    }
}

/// After a batch, the `last_seen_at` of an edge is the later of what it was
/// before and the latest `last_seen_at` with which the batch upserted it.
pub proof fn lemma_last_seen_after(row: Option<EdgeRow>, ops: Seq<OperationView>, key: EdgeKey)
    ensures
        last_seen_of(edge_after(row, ops, key)) == later_of(
            last_seen_of(row),
            latest_touch(ops, key),
        ),
    decreases ops.len(),
{
    if ops.len() > 0 {
        let front = ops.drop_last();
        lemma_last_seen_after(row, front, key);
        lemma_direct_after(row, front, key);
        lemma_latest_touch(front, key);
        if touches_edge(ops.last(), key) {
            let l = ops.last()->UpsertEvent_last_seen_at;
            match (last_seen_of(row), latest_touch(front, key)) {
                (Some(x), Some(y)) => {
                    crate::timestamp::lemma_timestamp_order(x, y, l);
                },
                _ => {},
            }
        }
    }
}

/// Every operation of the batch that upserts the edge names the same chain.
pub open spec fn touches_with_chain(
    ops: Seq<OperationView>,
    key: EdgeKey,
    chain: crate::principal_chain::ChainModel,
) -> bool {
    forall|i: int|
        0 <= i < ops.len() && touches_edge(#[trigger] ops[i], key)
            ==> ops[i]->UpsertEvent_principal_chain == chain
}

/// The chains of an edge after it has been upserted with the given chain,
/// once or more often.
pub open spec fn chains_with(row: Option<EdgeRow>, chain: crate::principal_chain::ChainModel) -> Seq<
    crate::principal_chain::ChainModel,
> {
    match row {
        Some(r) => with_chain(r.principal_chains, chain),
        None => seq![chain],
    }
}

/// After a batch that upserts an edge with one chain only, the edge's chains
/// are those it had before and that chain, listed once.
pub proof fn lemma_chains_after(
    row: Option<EdgeRow>,
    ops: Seq<OperationView>,
    key: EdgeKey,
    chain: crate::principal_chain::ChainModel,
)
    requires
        touches_with_chain(ops, key, chain),
    ensures
        !touches(ops, key) ==> edge_after(row, ops, key) == row,
        touches(ops, key) ==> edge_after(row, ops, key) is Some && edge_after(
            row,
            ops,
            key,
        )->0.principal_chains == chains_with(row, chain),
    decreases ops.len(),
{
    if ops.len() > 0 {
        let front = ops.drop_last();
        assert forall|i: int|
            0 <= i < front.len() && touches_edge(
                #[trigger] front[i],
                key,
            ) implies front[i]->UpsertEvent_principal_chain == chain by {
            assert(front[i] == ops[i]);
        }
        lemma_chains_after(row, front, key, chain);
        lemma_marks_concat(front, seq![ops.last()], key);
        assert(front + seq![ops.last()] =~= ops);
        if touches_edge(ops.last(), key) {
            assert(touches_edge(seq![ops.last()][0], key));
            assert(ops[ops.len() - 1] == ops.last());
            let before = edge_after(row, front, key);
            if touches(front, key) {
                let chains = chains_with(row, chain);
                assert(chains.contains(chain)) by {
                    match row {
                        Some(r) => {
                            if !r.principal_chains.contains(chain) {
                                assert(chains[r.principal_chains.len() as int] == chain);
                            }
                        },
                        None => {
                            assert(chains[0] == chain);
                        },
                    }
                }
            }
        } else {
            if touches(seq![ops.last()], key) {
                let i = choose|i: int|
                    0 <= i < 1 && touches_edge(#[trigger] seq![ops.last()][i], key);
                assert(false);
            }
        }
    }
}

/// The instant is the `last_seen_at` of some event of the given type, and no
/// event of that type has a later one.
pub open spec fn is_latest_of_type(t: Timestamp, events: Seq<EventView>, ty: Seq<char>) -> bool {
    &&& exists|e: int|
        0 <= e < events.len() && (#[trigger] events[e]).ty == ty && events[e].last_seen_at == t
    &&& forall|e: int|
        0 <= e < events.len() && (#[trigger] events[e]).ty == ty ==> events[e].last_seen_at.le(t)
}

/// What ingesting one event capture does to an edge that the capture
/// produces: the edge is there afterwards; it lists the capture's chain once,
/// besides the chains it had; and its `last_seen_at` is the later of what it
/// was and the latest `last_seen_at` of the capture's events of that type.
pub proof fn lemma_capture_effect(
    g: GraphView,
    c: EventCaptureView,
    key: EdgeKey,
    t: Timestamp,
)
    requires
        capture_touches(c, key),
        is_latest_of_type(t, c.events, key.2),
    ensures
        ({
            let before = row_at(g.events, key);
            let after = row_at(apply_operations(g, capture_operations(c)).events, key);
            &&& after is Some
            &&& after->0.principal_chains == chains_with(before, c.principals)
            &&& after->0.last_seen_at == max_opt(last_seen_of(before), t)
            &&& is_direct(after) <==> is_direct(before) || capture_ends_in_principal(c, key)
        }),
{
    let ops = capture_operations(c);
    let before = row_at(g.events, key);
    lemma_edge_after(g, ops, key);
    lemma_capture_marks(c, key);
    lemma_direct_after(before, ops, key);
    lemma_capture_operations_members(c);
    assert(touches_with_chain(ops, key, c.principals)) by {
        assert forall|i: int|
            0 <= i < ops.len() && touches_edge(
                #[trigger] ops[i],
                key,
            ) implies ops[i]->UpsertEvent_principal_chain == c.principals by {
            assert(i >= 1);
            assert(is_edge_operation_of(c, ops[i], c.principals.len() as int));
        }
    }
    lemma_chains_after(before, ops, key, c.principals);
    lemma_last_seen_after(before, ops, key);
    lemma_latest_touch(ops, key);
    let found = latest_touch(ops, key)->0;
    assert(is_latest_touch(t, ops, key)) by {
        let e = choose|e: int|
            0 <= e < c.events.len() && (#[trigger] c.events[e]).ty == key.2
                && c.events[e].last_seen_at == t;
        let p = choose|p: int|
            0 <= p < c.principals.len() && (#[trigger] c.principals[p]).0 == key.0;
        let r = choose|r: int| 0 <= r < c.resources.len() && #[trigger] c.resources[r] == key.1;
        assert(ops.contains(event_operation(c, p, r, e)));
        let i = choose|i: int| 0 <= i < ops.len() && ops[i] == event_operation(c, p, r, e);
        assert(touches_edge(ops[i], key) && ops[i]->UpsertEvent_last_seen_at == t);
        assert forall|j: int|
            0 <= j < ops.len() && touches_edge(
                #[trigger] ops[j],
                key,
            ) implies ops[j]->UpsertEvent_last_seen_at.le(t) by {
            assert(j >= 1);
            assert(is_edge_operation_of(c, ops[j], c.principals.len() as int));
            let (q, s, f) = choose|q: int, s: int, f: int|
                0 <= q < c.principals.len() && 0 <= s < c.resources.len() && 0 <= f
                    < c.events.len() && ops[j] == #[trigger] event_operation(c, q, s, f);
            assert(c.events[f].ty == key.2);
        }
    }
    lemma_latest_touch_unique(t, found, ops, key);
}

/// Two event captures that produce the same edge leave one edge, which
/// lists both their chains, and whose `last_seen_at` is the latest among
/// what it was before and the events of that type of both captures. Where
/// the edge was not there before and the two chains differ, it lists exactly
/// these two.
pub proof fn lemma_shared_edge(
    g: GraphView,
    first: EventCaptureView,
    second: EventCaptureView,
    key: EdgeKey,
    t1: Timestamp,
    t2: Timestamp,
)
    requires
        capture_touches(first, key),
        capture_touches(second, key),
        is_latest_of_type(t1, first.events, key.2),
        is_latest_of_type(t2, second.events, key.2),
    ensures
        ({
            let before = row_at(g.events, key);
            let after = row_at(
                apply_operations(
                    g,
                    capture_operations(first) + capture_operations(second),
                ).events,
                key,
            );
            &&& after is Some
            &&& after->0.principal_chains.contains(first.principals)
            &&& after->0.principal_chains.contains(second.principals)
            &&& after->0.last_seen_at == max_opt(last_seen_of(before), t1).max(t2)
            &&& before is None && first.principals != second.principals
                ==> after->0.principal_chains == seq![first.principals, second.principals]
            &&& before is None ==> after->0.last_seen_at == t1.max(t2)
        }),
{
    let mid = apply_operations(g, capture_operations(first));
    lemma_apply_operations_concat(g, capture_operations(first), capture_operations(second));
    lemma_capture_effect(g, first, key, t1);
    lemma_capture_effect(mid, second, key, t2);
    let before = row_at(g.events, key);
    let between = row_at(mid.events, key)->0;
    let chains1 = between.principal_chains;
    assert(chains1.contains(first.principals)) by {
        match before {
            Some(r) => {
                if !r.principal_chains.contains(first.principals) {
                    assert(chains1[r.principal_chains.len() as int] == first.principals);
                }
            },
            None => {
                assert(chains1[0] == first.principals);
            },
        }
    }
    let chains2 = with_chain(chains1, second.principals);
    if !chains1.contains(second.principals) {
        assert(chains2[chains1.len() as int] == second.principals);
        let i = choose|i: int| 0 <= i < chains1.len() && chains1[i] == first.principals;
        assert(chains2[i] == first.principals);
    }
    if before is None && first.principals != second.principals {
        assert(chains1 =~= seq![first.principals]);
        assert(!chains1.contains(second.principals)) by {
            if chains1.contains(second.principals) {
                let i = choose|i: int| 0 <= i < chains1.len() && chains1[i] == second.principals;
                assert(false);
            }
        }
        assert(chains2 =~= seq![first.principals, second.principals]);
    }
}

/// The upsert of a node's own row.
pub open spec fn node_upsert(path: IdModel, node: NodeView) -> OperationView {
    OperationView::UpsertResource {
        id: path,
        first_seen_at: node.first_seen_at,
        last_seen_at: node.last_seen_at,
    }
}

/// The operations for a tree begin with the upsert of its root, stored under
/// the root's path.
pub proof fn lemma_node_operations_begin(prefix: IdModel, node: NodeView)
    ensures
        node_operations(prefix, node).len() >= 1,
        node_operations(prefix, node)[0] == node_upsert(node_path(prefix, node), node),
{
    lemma_node_operations(prefix, node);
}

/// A globally unique node is stored under its own type and id alone, and the
/// operations for its tree are the same wherever the node is found.
pub proof fn lemma_globally_unique_ignores_prefix(prefix: IdModel, other: IdModel, node: NodeView)
    requires
        node.globally_unique == Some(true),
    ensures
        node_path(prefix, node) == seq![node.part],
        node_operations(prefix, node) == node_operations(other, node),
        node_operations(prefix, node)[0] == node_upsert(seq![node.part], node),
{
    lemma_node_operations(prefix, node);
    lemma_node_operations(other, node);
}

/// `part` occurs in `ops` as a run of consecutive operations.
pub open spec fn has_run(ops: Seq<OperationView>, part: Seq<OperationView>) -> bool {
    exists|before: Seq<OperationView>, after: Seq<OperationView>|
        ops == #[trigger] (before + part + after)
}

/// A run of a run is a run.
pub proof fn lemma_has_run_transitive(
    ops: Seq<OperationView>,
    mid: Seq<OperationView>,
    part: Seq<OperationView>,
)
    requires
        has_run(ops, mid),
        has_run(mid, part),
    ensures
        has_run(ops, part),
{
    let (a, b) = choose|a: Seq<OperationView>, b: Seq<OperationView>|
        ops == #[trigger] (a + mid + b);
    let (c, d) = choose|c: Seq<OperationView>, d: Seq<OperationView>|
        mid == #[trigger] (c + part + d);
    assert(ops =~= (a + c) + part + (d + b));
}

/// The operations for a list of trees hold those of each tree as a run.
pub proof fn lemma_forest_has_tree(prefix: IdModel, nodes: Seq<NodeView>, i: int)
    requires
        0 <= i < nodes.len(),
    ensures
        has_run(forest_operations(prefix, nodes), node_operations(prefix, nodes[i])),
    decreases nodes.len(),
{
    let front = nodes.drop_last();
    crate::report::lemma_forest_operations_push(prefix, front, nodes.last());
    assert(front.push(nodes.last()) =~= nodes);
    let all = forest_operations(prefix, nodes);
    if i == nodes.len() - 1 {
        assert(all =~= forest_operations(prefix, front) + node_operations(prefix, nodes[i])
            + Seq::empty());
    } else {
        lemma_forest_has_tree(prefix, front, i);
        assert(front[i] == nodes[i]);
        let part = node_operations(prefix, nodes[i]);
        let (a, b) = choose|a: Seq<OperationView>, b: Seq<OperationView>|
            forest_operations(prefix, front) == #[trigger] (a + part + b);
        assert(all =~= a + part + (b + node_operations(prefix, nodes.last())));
    }
}

/// A node nested in a tree, with the path of its container.
pub ghost struct Nested {
    pub container: IdModel,
    pub node: NodeView,
}

/// The node reached from `node` by descending through the children at the
/// given positions, with the path of its container; `node` is found under
/// `prefix`.
pub open spec fn descend(prefix: IdModel, node: NodeView, steps: Seq<int>) -> Option<Nested>
    decreases steps.len(),
{
    if steps.len() == 0 {
        Some(Nested { container: prefix, node })
    } else {
        match node.contains {
            Some(children) => if 0 <= steps[0] < children.len() {
                descend(node_path(prefix, node), children[steps[0]], steps.drop_first())
            } else {
                None
            },
            None => None,
        }
    }
}

/// The operations for a tree hold, as a run, those for each tree nested in
/// it.
pub proof fn lemma_tree_has_nested(prefix: IdModel, node: NodeView, steps: Seq<int>)
    requires
        descend(prefix, node, steps) is Some,
    ensures
        has_run(
            node_operations(prefix, node),
            node_operations(
                descend(prefix, node, steps)->0.container,
                descend(prefix, node, steps)->0.node,
            ),
        ),
    decreases steps.len(),
{
    let ops = node_operations(prefix, node);
    if steps.len() == 0 {
        assert(ops =~= Seq::empty() + ops + Seq::empty());
    } else {
        let children = node.contains->0;
        let path = node_path(prefix, node);
        let child = children[steps[0]];
        lemma_tree_has_nested(path, child, steps.drop_first());
        lemma_forest_has_tree(path, children, steps[0]);
        lemma_node_operations(prefix, node);
        let below = forest_operations(path, children);
        assert(ops =~= own_operations(path, node) + below + Seq::empty());
        assert(has_run(ops, below));
        lemma_has_run_transitive(ops, below, node_operations(path, child));
        lemma_has_run_transitive(
            ops,
            node_operations(path, child),
            node_operations(
                descend(prefix, node, steps)->0.container,
                descend(prefix, node, steps)->0.node,
            ),
        );
    }
}

/// However deep a globally unique node is nested, and under whatever
/// ancestors, ingesting the tree upserts a resource keyed by that node's own
/// type and id alone.
pub proof fn lemma_nested_globally_unique(prefix: IdModel, root: NodeView, steps: Seq<int>)
    requires
        descend(prefix, root, steps) is Some,
        descend(prefix, root, steps)->0.node.globally_unique == Some(true),
    ensures
        node_operations(prefix, root).contains(
            node_upsert(
                seq![descend(prefix, root, steps)->0.node.part],
                descend(prefix, root, steps)->0.node,
            ),
        ),
{
    let container = descend(prefix, root, steps)->0.container;
    let node = descend(prefix, root, steps)->0.node;
    let ops = node_operations(prefix, root);
    let part = node_operations(container, node);
    lemma_tree_has_nested(prefix, root, steps);
    lemma_globally_unique_ignores_prefix(container, prefix, node);
    lemma_node_operations_begin(container, node);
    let (a, b) = choose|a: Seq<OperationView>, b: Seq<OperationView>|
        ops == #[trigger] (a + part + b);
    assert(ops[a.len() as int] == part[0]);
}

/// A node without children.
pub open spec fn is_leaf(node: NodeView) -> bool {
    match node.contains {
        Some(children) => children.len() == 0,
        None => true,
    }
}

/// What ingesting a leaf does to the graph: its row is there afterwards; a
/// new row takes the node's two instants; an existing row keeps its
/// `first_seen_at` and has its `last_seen_at` advanced, never set back. No
/// other resource row changes.
pub proof fn lemma_leaf_effect(g: GraphView, prefix: IdModel, node: NodeView)
    requires
        is_leaf(node),
    ensures
        ({
            let id = node_path(prefix, node);
            let after = apply_operations(g, node_operations(prefix, node));
            let before = row_at(g.resources, id);
            let row = row_at(after.resources, id);
            &&& row is Some
            &&& row->0.first_seen_at == upserted_resource(
                before,
                node.first_seen_at,
                node.last_seen_at,
            ).first_seen_at
            &&& row->0.last_seen_at == Some(max_opt(
                match before {
                    Some(r) => r.last_seen_at,
                    None => None,
                },
                node.last_seen_at,
            ))
            &&& after.resources.dom() == g.resources.dom().insert(id)
            &&& forall|other: IdModel|
                other != id ==> row_at(after.resources, other) == row_at(g.resources, other)
        }),
{
    let id = node_path(prefix, node);
    let ops = node_operations(prefix, node);
    lemma_node_operations(prefix, node);
    let own = own_operations(id, node);
    assert(forest_operations(id, Seq::empty()) =~= Seq::<OperationView>::empty());
    assert(ops =~= own);
    let first = apply_operation(g, own[0]);
    assert(apply_operations(g, own.subrange(0, 1)) == first) by {
        assert(own.subrange(0, 1).drop_last() =~= Seq::<OperationView>::empty());
        assert(own.subrange(0, 1).last() == own[0]);
        assert(apply_operations(g, Seq::<OperationView>::empty()) == g);
    }
    if own.len() == 1 {
        assert(own.subrange(0, 1) =~= own);
        assert(first.resources.dom() =~= g.resources.dom().insert(id));
    } else {
        assert(own.len() == 2);
        assert(own.drop_last() =~= own.subrange(0, 1));
        let second = apply_operation(first, own[1]);
        assert(apply_operations(g, own) == second);
        assert(second.resources.dom() =~= g.resources.dom().insert(id));
    }
}

/// Ingesting the same leaf twice, whatever the instants of the two
/// observations, leaves one row for its identity. The row's `first_seen_at`
/// is what the first ingestion left, and its `last_seen_at` is the later of
/// what the first ingestion left and the second observation. Where the
/// resource was unknown before, these are the first observation's
/// `first_seen_at` and the later of the two `last_seen_at`.
pub proof fn lemma_leaf_ingested_twice(
    g: GraphView,
    prefix: IdModel,
    first: NodeView,
    second: NodeView,
)
    requires
        is_leaf(first),
        is_leaf(second),
        first.part == second.part,
        first.globally_unique == second.globally_unique,
    ensures
        ({
            let id = node_path(prefix, first);
            let once = apply_operations(g, node_operations(prefix, first));
            let twice = apply_operations(once, node_operations(prefix, second));
            &&& twice.resources.dom() == once.resources.dom()
            &&& twice.resources.dom().contains(id)
            &&& twice.resources[id].first_seen_at == once.resources[id].first_seen_at
            &&& twice.resources[id].last_seen_at == Some(
                max_opt(once.resources[id].last_seen_at, second.last_seen_at),
            )
            &&& !g.resources.dom().contains(id) ==> {
                &&& twice.resources[id].first_seen_at == Some(first.first_seen_at)
                &&& twice.resources[id].last_seen_at == Some(
                    first.last_seen_at.max(second.last_seen_at),
                )
            }
        }),
{
    let id = node_path(prefix, first);
    let once = apply_operations(g, node_operations(prefix, first));
    lemma_leaf_effect(g, prefix, first);
    lemma_leaf_effect(once, prefix, second);
    let twice = apply_operations(once, node_operations(prefix, second));
    assert(twice.resources.dom() =~= once.resources.dom());
}

/// An instant that may be missing is not later than another.
pub open spec fn not_after(before: Option<Timestamp>, after: Option<Timestamp>) -> bool {
    match before {
        Some(t) => after is Some && t.le(after->0),
        None => true,
    }
}

/// What holds of a resource row before and after any ingestion: the row is
/// still there, its environments and its `first_seen_at` are what they were,
/// and its `last_seen_at` did not go back.
pub open spec fn resource_is_kept(before: GraphView, after: GraphView, id: IdModel) -> bool {
    &&& after.resources.dom().contains(id)
    &&& after.resources[id].environments == before.resources[id].environments
    &&& after.resources[id].first_seen_at == before.resources[id].first_seen_at
    &&& not_after(before.resources[id].last_seen_at, after.resources[id].last_seen_at)
}

/// No batch of operations removes a resource row, changes its environments
/// or its `first_seen_at`, or sets its `last_seen_at` back.
pub proof fn lemma_resource_is_kept(g: GraphView, ops: Seq<OperationView>, id: IdModel)
    requires
        g.resources.dom().contains(id),
    ensures
        resource_is_kept(g, apply_operations(g, ops), id),
    decreases ops.len(),
{
    if ops.len() == 0 {
        match g.resources[id].last_seen_at {
            Some(t) => {
                crate::timestamp::lemma_timestamp_order(t, t, t);
            },
            None => {},
        }
    } else {
        let mid = apply_operations(g, ops.drop_last());
        lemma_resource_is_kept(g, ops.drop_last(), id);
        let after = apply_operation(mid, ops.last());
        match (g.resources[id].last_seen_at, mid.resources[id].last_seen_at) {
            (Some(a), Some(b)) => {
                let c = after.resources[id].last_seen_at->0;
                crate::timestamp::lemma_timestamp_order(b, c, c);
                crate::timestamp::lemma_timestamp_order(a, b, c);
                match ops.last() {
                    OperationView::UpsertResource { id: other, last_seen_at, .. } => {
                        crate::timestamp::lemma_timestamp_order(b, last_seen_at, b);
                    },
                    _ => {},
                }
            },
            _ => {},
        }
    }
}

/// What holds of a chain record before and after any ingestion: the record
/// is still there, its `first_seen_at` is what it was, and its
/// `last_seen_at` did not go back.
pub open spec fn chain_is_kept(
    before: GraphView,
    after: GraphView,
    id: crate::principal_chain::ChainModel,
) -> bool {
    &&& after.principal_chains.dom().contains(id)
    &&& after.principal_chains[id].first_seen_at == before.principal_chains[id].first_seen_at
    &&& before.principal_chains[id].last_seen_at.le(after.principal_chains[id].last_seen_at)
}

/// No batch of operations removes a chain record, changes its
/// `first_seen_at`, or sets its `last_seen_at` back.
pub proof fn lemma_chain_is_kept(
    g: GraphView,
    ops: Seq<OperationView>,
    id: crate::principal_chain::ChainModel,
)
    requires
        g.principal_chains.dom().contains(id),
    ensures
        chain_is_kept(g, apply_operations(g, ops), id),
    decreases ops.len(),
{
    let a = g.principal_chains[id].last_seen_at;
    if ops.len() == 0 {
        crate::timestamp::lemma_timestamp_order(a, a, a);
    } else {
        let mid = apply_operations(g, ops.drop_last());
        lemma_chain_is_kept(g, ops.drop_last(), id);
        let after = apply_operation(mid, ops.last());
        let b = mid.principal_chains[id].last_seen_at;
        let c = after.principal_chains[id].last_seen_at;
        match ops.last() {
            OperationView::UpsertPrincipalChain { last_seen_at, .. } => {
                crate::timestamp::lemma_timestamp_order(b, last_seen_at, b);
            },
            _ => {},
        }
        crate::timestamp::lemma_timestamp_order(b, c, c);
        crate::timestamp::lemma_timestamp_order(a, b, c);
    }
}

/// What holds of an event edge before and after any ingestion: the edge is
/// still there, its `first_seen_at` is what it was, its `last_seen_at` did
/// not go back, it lists every chain that it listed, and it is still marked
/// as directly observed if it was.
pub open spec fn edge_is_kept(before: EdgeRow, after: Option<EdgeRow>) -> bool {
    &&& after is Some
    &&& after->0.first_seen_at == before.first_seen_at
    &&& before.last_seen_at.le(after->0.last_seen_at)
    &&& forall|c: crate::principal_chain::ChainModel|
        before.principal_chains.contains(c) ==> #[trigger] after->0.principal_chains.contains(c)
    &&& before.has_direct_principal_chain ==> after->0.has_direct_principal_chain
}

/// No batch of operations removes an event edge, changes its
/// `first_seen_at`, sets its `last_seen_at` back, takes a chain from it, or
/// takes back the mark of direct observation.
pub proof fn lemma_edge_is_kept(g: GraphView, ops: Seq<OperationView>, key: EdgeKey)
    requires
        g.events.dom().contains(key),
    ensures
        edge_is_kept(g.events[key], row_at(apply_operations(g, ops).events, key)),
    decreases ops.len(),
{
    let before = g.events[key];
    let a = before.last_seen_at;
    if ops.len() == 0 {
        crate::timestamp::lemma_timestamp_order(a, a, a);
    } else {
        let mid = apply_operations(g, ops.drop_last());
        lemma_edge_is_kept(g, ops.drop_last(), key);
        let after = apply_operation(mid, ops.last());
        let between = mid.events[key];
        let row = after.events[key];
        let b = between.last_seen_at;
        let c = row.last_seen_at;
        match ops.last() {
            OperationView::UpsertEvent { last_seen_at, principal_chain, .. } => {
                crate::timestamp::lemma_timestamp_order(b, last_seen_at, b);
                assert forall|chain: crate::principal_chain::ChainModel|
                    between.principal_chains.contains(chain) implies with_chain(
                    between.principal_chains,
                    principal_chain,
                ).contains(chain) by {
                    let i = choose|i: int|
                        0 <= i < between.principal_chains.len() && between.principal_chains[i]
                            == chain;
                    assert(with_chain(between.principal_chains, principal_chain)[i] == chain);
                }
            },
            _ => {},
        }
        crate::timestamp::lemma_timestamp_order(b, c, c);
        crate::timestamp::lemma_timestamp_order(a, b, c);
        assert forall|chain: crate::principal_chain::ChainModel|
            before.principal_chains.contains(chain) implies #[trigger] row.principal_chains.contains(
            chain,
        ) by {
            assert(between.principal_chains.contains(chain));
        }
    }
}

} // verus!
