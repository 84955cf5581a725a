//! Snapshots of the graph: which statements a read-only snapshot query is
//! made of, and which resource identities its result refers to.

use vstd::prelude::*;
use crate::event::Event;
use crate::global_container::GlobalContainer;
use crate::resource::{IdModel, Resource, ResourceId};
use crate::text::str_eq;

verus! {

/// The kind of snapshot that is asked for.
#[derive(Clone, Copy, Debug, PartialEq, Eq, Structural)]
pub enum QueryType {
    /// Every resource and every event.
    All,
    /// The resources and events that the filter for secrets selects.
    Secrets,
}

/// The statement that begins a transaction.
#[derive(Clone, Copy, Debug, PartialEq, Eq, Structural)]
pub struct BeginStatement {
    /// Whether the transaction only reads.
    pub readonly: bool,
}

/// The statement that begins the transaction of a snapshot query. The
/// managed service's store is told that the transaction only reads; the
/// store of a self-hosted backend has no such notion.
pub fn begin_readonly_statement(deployment: crate::account::Deployment) -> (r: BeginStatement)
    ensures
        r.readonly == (deployment == crate::account::Deployment::Managed),
{
    match deployment {
        crate::account::Deployment::Managed => BeginStatement { readonly: true },
        crate::account::Deployment::SelfHosted => BeginStatement { readonly: false },
    }
}

/// One statement of a snapshot query.
#[derive(Clone, Copy, Debug, PartialEq, Eq, Structural)]
pub enum SnapshotStatement {
    /// Begins a transaction that only reads.
    BeginReadonly,
    /// Declares the two result sets, both empty.
    Declare,
    /// Selects every resource but the sentinel root with the empty path.
    Resources,
    /// Selects every event.
    Events,
    /// Selects resources and events by the filter with this name. A filter
    /// is one of a fixed list and never text that a client sent.
    Filter(QueryType),
    /// Returns the two result sets and, resolved by the store from the
    /// distinct union of all the resource identities that they refer to,
    /// the global containers; then commits.
    Finish,
}

/// The statements of a snapshot query of the given kind.
pub open spec fn snapshot_statements(ty: QueryType) -> Seq<SnapshotStatement> {
    match ty {
        QueryType::All => seq![
            SnapshotStatement::BeginReadonly,
            SnapshotStatement::Declare,
            SnapshotStatement::Resources,
            SnapshotStatement::Events,
            SnapshotStatement::Finish,
        ],
        QueryType::Secrets => seq![
            SnapshotStatement::BeginReadonly,
            SnapshotStatement::Declare,
            SnapshotStatement::Filter(QueryType::Secrets),
            SnapshotStatement::Finish,
        ],
    }
}

impl QueryType {
    /// The kind of snapshot with the given name.
    pub fn parse(name: &str) -> (r: Option<QueryType>)
        ensures
            r == if name@ == "all"@ {
                Some(QueryType::All)
            } else if name@ == "secrets"@ {
                Some(QueryType::Secrets)
            } else {
                None
            },
    {
        if str_eq(name, "all") {
            Some(QueryType::All)
        } else if str_eq(name, "secrets") {
            Some(QueryType::Secrets)
        } else {
            None
        }
    }
}

impl SnapshotStatement {
    /// The text of the statement, for the statements that are the same in
    /// every deployment. How a read-only transaction begins, and what a
    /// named filter selects, is for the deployment to say.
    pub open spec fn text_spec(self) -> Option<Seq<char>> {
        match self {
            SnapshotStatement::BeginReadonly => None,
            SnapshotStatement::Declare => Some(
                "LET $resources: set<object> = []; LET $events: set<object> = [];"@,
            ),
            SnapshotStatement::Resources => Some(
                "$resources = SELECT * FROM resource WHERE id != resource:[] PARALLEL;"@,
            ),
            SnapshotStatement::Events => Some("$events = SELECT * OMIT id FROM event PARALLEL;"@),
            SnapshotStatement::Filter(_) => None,
            SnapshotStatement::Finish => Some(
                "{ resources: $resources, events: $events, global_containers: fn::fetch_global_containers(array::concat($resources.map(|$resource| $resource.id), $events.map(|$event| $event.in), $events.map(|$event| $event.out)).distinct()) }; COMMIT;"@,
            ),
        }
    }

    /// The text of the statement, where it has one that is the same in
    /// every deployment.
    pub fn text(&self) -> (r: Option<&'static str>)
        ensures
            match r {
                Some(t) => self.text_spec() == Some(t@),
                None => self.text_spec() is None,
            },
    {
        match self {
            SnapshotStatement::BeginReadonly => None,
            SnapshotStatement::Declare => Some(
                "LET $resources: set<object> = []; LET $events: set<object> = [];",
            ),
            SnapshotStatement::Resources => Some(Resource::get_all()),
            SnapshotStatement::Events => Some(Event::get_all()),
            SnapshotStatement::Filter(_) => None,
            SnapshotStatement::Finish => Some(
                "{ resources: $resources, events: $events, global_containers: fn::fetch_global_containers(array::concat($resources.map(|$resource| $resource.id), $events.map(|$event| $event.in), $events.map(|$event| $event.out)).distinct()) }; COMMIT;",
            ),
        }
    }
}

/// Assembles the snapshot query of the given kind. The result of the query
/// is the result of its last statement but one of the transaction, the
/// statement `Finish`.
pub fn query(ty: QueryType) -> (r: Vec<SnapshotStatement>)
    ensures
        r@ == snapshot_statements(ty),
{
    let mut statements: Vec<SnapshotStatement> = Vec::new();
    statements.push(SnapshotStatement::BeginReadonly);
    statements.push(SnapshotStatement::Declare);
    match ty {
        QueryType::All => {
            statements.push(SnapshotStatement::Resources);
            statements.push(SnapshotStatement::Events);
        },
        QueryType::Secrets => {
            statements.push(SnapshotStatement::Filter(QueryType::Secrets));
        },
    }
    statements.push(SnapshotStatement::Finish);
    assert(statements@ =~= snapshot_statements(ty));
    statements
}

/// What a snapshot query returns.
#[derive(Debug, PartialEq, Eq)]
pub struct QueryResponse {
    pub resources: Vec<Resource>,
    pub events: Option<Vec<Event>>,
    pub global_containers: Vec<GlobalContainer>,
}

/// The identities of a list, each once, in the order in which they first
/// occur.
pub open spec fn distinct(ids: Seq<IdModel>) -> Seq<IdModel>
    decreases ids.len(),
{
    if ids.len() == 0 {
        Seq::empty()
    } else {
        let front = distinct(ids.drop_last());
        if front.contains(ids.last()) {
            front
        } else {
            front.push(ids.last())
        }
    }
}

/// `distinct` holds an identity exactly if the list does.
pub proof fn lemma_distinct_contains(ids: Seq<IdModel>, id: IdModel)
    ensures
        distinct(ids).contains(id) <==> ids.contains(id),
    decreases ids.len(),
{
    if ids.len() > 0 {
        let front = ids.drop_last();
        let d = distinct(front);
        let all = distinct(ids);
        lemma_distinct_contains(front, id);
        if all.contains(id) {
            let k = choose|k: int| 0 <= k < all.len() && all[k] == id;
            if k < d.len() {
                assert(d[k] == id);
                assert(d.contains(id));
                assert(front.contains(id));
                let m = choose|m: int| 0 <= m < front.len() && front[m] == id;
                assert(ids[m] == id);
            } else {
                assert(ids[ids.len() - 1] == id);
            }
        }
        if ids.contains(id) {
            let m = choose|m: int| 0 <= m < ids.len() && ids[m] == id;
            if m < front.len() {
                assert(front[m] == id);
                assert(front.contains(id));
                assert(d.contains(id));
                let k = choose|k: int| 0 <= k < d.len() && d[k] == id;
                assert(all[k] == id);
            } else {
                if d.contains(ids.last()) {
                    assert(all == d);
                } else {
                    assert(all[d.len() as int] == id);
                }
            }
        }
    }
}

/// `distinct` lists no identity twice.
pub proof fn lemma_distinct_no_duplicates(ids: Seq<IdModel>)
    ensures
        forall|i: int, j: int|
            0 <= i < j < distinct(ids).len() ==> distinct(ids)[i] != distinct(ids)[j],
    decreases ids.len(),
{
    if ids.len() > 0 {
        let front = ids.drop_last();
        let d = distinct(front);
        let all = distinct(ids);
        lemma_distinct_no_duplicates(front);
        assert forall|i: int, j: int| 0 <= i < j < all.len() implies all[i] != all[j] by {
            if j >= d.len() {
                assert(d[i] == all[i]);
                assert(d.contains(d[i]));
            } else {
                assert(d[i] == all[i] && d[j] == all[j]);
            }
        }
    }
}

/// The identities that the rows of a snapshot refer to, one after the other:
/// the identities of the resources, the principals of the events and the
/// resources of the events.
pub open spec fn referred_ids(resources: Seq<Resource>, events: Seq<Event>) -> Seq<IdModel> {
    Seq::new(resources.len(), |i: int| resources[i].id@) + Seq::new(
        events.len(),
        |i: int| events[i].principal@,
    ) + Seq::new(events.len(), |i: int| events[i].resource@)
}

/// The models of a list of identities.
pub open spec fn ids_model(ids: Seq<ResourceId>) -> Seq<IdModel> {
    Seq::new(ids.len(), |i: int| ids[i]@)
}

/// Adds an identity to a list unless the list holds it.
pub fn add_distinct(out: &mut Vec<ResourceId>, id: &ResourceId)
    ensures
        ids_model(final(out)@) == if ids_model(old(out)@).contains(id@) {
            ids_model(old(out)@)
        } else {
            ids_model(old(out)@).push(id@)
        },
{
    let ghost before = ids_model(out@);
    let mut i: usize = 0;
    while i < out.len()
        invariant
            i <= out@.len(),
            before == ids_model(out@),
            forall|j: int| 0 <= j < i ==> before[j] != id@,
        decreases out@.len() - i,
    {
        if out[i].same(id) {
            assert(before[i as int] == id@);
            return ;
        }
        i += 1;
    }
    out.push(id.clone());
    assert(ids_model(out@) =~= before.push(id@));
}

/// The distinct union of all the resource identities that the rows of a
/// snapshot refer to. The store resolves the global containers from it.
pub fn referenced_ids(resources: &Vec<Resource>, events: &Vec<Event>) -> (r: Vec<ResourceId>)
    ensures
        ids_model(r@) == distinct(referred_ids(resources@, events@)),
{
    let ghost all = referred_ids(resources@, events@);
    let mut out: Vec<ResourceId> = Vec::new();
    assert(ids_model(out@) =~= distinct(all.subrange(0, 0)));
    let mut i: usize = 0;
    while i < resources.len()
        invariant
            all == referred_ids(resources@, events@),
            i <= resources@.len(),
            ids_model(out@) == distinct(all.subrange(0, i as int)),
        decreases resources@.len() - i,
    {
        proof {
            assert(all.subrange(0, i + 1).drop_last() =~= all.subrange(0, i as int));
            assert(all.subrange(0, i + 1).last() == resources@[i as int].id@);
        }
        add_distinct(&mut out, &resources[i].id);
        i += 1;
    }
    let n = resources.len();
    let mut j: usize = 0;
    while j < events.len()
        invariant
            all == referred_ids(resources@, events@),
            n == resources@.len(),
            j <= events@.len(),
            ids_model(out@) == distinct(all.subrange(0, n + j)),
        decreases events@.len() - j,
    {
        proof {
            assert(all.subrange(0, n + j + 1).drop_last() =~= all.subrange(0, n + j));
            assert(all.subrange(0, n + j + 1).last() == events@[j as int].principal@);
        }
        add_distinct(&mut out, &events[j].principal);
        j += 1;
    }
    let m = events.len();
    let mut k: usize = 0;
    while k < events.len()
        invariant
            all == referred_ids(resources@, events@),
            n == resources@.len(),
            m == events@.len(),
            k <= events@.len(),
            ids_model(out@) == distinct(all.subrange(0, n + m + k)),
        decreases events@.len() - k,
    {
        proof {
            assert(all.subrange(0, n + m + k + 1).drop_last() =~= all.subrange(0, n + m + k));
            assert(all.subrange(0, n + m + k + 1).last() == events@[k as int].resource@);
        }
        add_distinct(&mut out, &events[k].resource);
        k += 1;
    }
    assert(all.subrange(0, n + m + k) =~= all);
    out
}

/// A copy of a list of strings.
pub fn clone_strings(items: &Vec<String>) -> (r: Vec<String>)
    ensures
        r@.len() == items@.len(),
        forall|i: int| 0 <= i < items@.len() ==> r@[i]@ == items@[i]@,
{
    let mut out: Vec<String> = Vec::new();
    let mut i: usize = 0;
    while i < items.len()
        invariant
            i <= items@.len(),
            out@.len() == i,
            forall|j: int| 0 <= j < i ==> out@[j]@ == items@[j]@,
        decreases items@.len() - i,
    {
        out.push(items[i].clone());
        i += 1;
    }
    out
}

/// Two resource rows hold the same.
pub open spec fn same_resource(a: Resource, b: Resource) -> bool {
    &&& a.id@ == b.id@
    &&& a.environments@.len() == b.environments@.len()
    &&& forall|i: int| 0 <= i < a.environments@.len() ==> a.environments@[i]@ == b.environments@[i]@
    &&& a.first_seen_at == b.first_seen_at
    &&& a.last_seen_at == b.last_seen_at
    &&& crate::resource::opt_value_view(a.attributes) == crate::resource::opt_value_view(
        b.attributes,
    )
}

/// Two event edges hold the same.
pub open spec fn same_event(a: Event, b: Event) -> bool {
    a.key() == b.key() && a.row() == b.row()
}

/// A copy of a resource row.
pub fn clone_resource(row: &Resource) -> (r: Resource)
    ensures
        same_resource(r, *row),
{
    Resource {
        id: row.id.clone(),
        environments: clone_strings(&row.environments),
        first_seen_at: row.first_seen_at,
        last_seen_at: row.last_seen_at,
        attributes: match &row.attributes {
            Some(attributes) => Some(attributes.deep_clone()),
            None => None,
        },
    }
}

/// A copy of an event edge.
pub fn clone_event(row: &Event) -> (r: Event)
    ensures
        same_event(r, *row),
{
    let mut chains: Vec<crate::principal_chain::PrincipalChainId> = Vec::new();
    let mut i: usize = 0;
    while i < row.principal_chains.len()
        invariant
            i <= row.principal_chains@.len(),
            chains@.len() == i,
            forall|j: int| 0 <= j < i ==> chains@[j]@ == row.principal_chains@[j]@,
        decreases row.principal_chains@.len() - i,
    {
        chains.push(row.principal_chains[i].clone());
        i += 1;
    }
    assert(crate::event::chains_view(chains@) =~= crate::event::chains_view(
        row.principal_chains@,
    ));
    Event {
        principal: row.principal.clone(),
        ty: row.ty.clone(),
        resource: row.resource.clone(),
        principal_chains: chains,
        has_direct_principal_chain: row.has_direct_principal_chain,
        first_seen_at: row.first_seen_at,
        last_seen_at: row.last_seen_at,
    }
}

/// A full snapshot of a graph: its resources but the sentinel root, all its
/// events, and the identities from which the store resolves the global
/// containers.
#[derive(Debug, PartialEq, Eq)]
pub struct Snapshot {
    pub resources: Vec<Resource>,
    pub events: Vec<Event>,
    pub referenced_ids: Vec<ResourceId>,
}

/// The positions of the rows that a full snapshot selects among the first
/// `n` resource rows: those whose path is not empty, in order.
pub open spec fn selected(rows: Seq<Resource>, n: nat) -> Seq<int>
    decreases n,
{
    if n == 0 {
        Seq::empty()
    } else if rows[n - 1].id@.len() == 0 {
        selected(rows, (n - 1) as nat)
    } else {
        selected(rows, (n - 1) as nat).push(n - 1)
    }
}

/// The positions that a full snapshot selects are positions of rows whose
/// path is not empty, in rising order, and no such row is left out.
pub proof fn lemma_selected(rows: Seq<Resource>, n: nat)
    requires
        n <= rows.len(),
    ensures
        forall|j: int|
            0 <= j < selected(rows, n).len() ==> 0 <= (#[trigger] selected(rows, n)[j]) < n
                && rows[selected(rows, n)[j]].id@.len() > 0,
        forall|j: int, k: int|
            0 <= j < k < selected(rows, n).len() ==> selected(rows, n)[j] < selected(rows, n)[k],
        forall|i: int|
            0 <= i < n && (#[trigger] rows[i]).id@.len() > 0 ==> selected(rows, n).contains(i),
    decreases n,
{
    if n > 0 {
        let front = selected(rows, (n - 1) as nat);
        let all = selected(rows, n);
        lemma_selected(rows, (n - 1) as nat);
        assert forall|i: int| 0 <= i < n && (#[trigger] rows[i]).id@.len() > 0 implies all.contains(
            i,
        ) by {
            if i < n - 1 {
                assert(front.contains(i));
                let j = choose|j: int| 0 <= j < front.len() && front[j] == i;
                assert(all[j] == i);
            } else {
                assert(all[all.len() - 1] == i);
            }
        }
    }
}

/// What `snapshot` is of the given rows.
pub open spec fn is_snapshot(s: Snapshot, resources: Seq<Resource>, events: Seq<Event>) -> bool {
    let chosen = selected(resources, resources.len());
    &&& s.resources@.len() == chosen.len()
    &&& forall|i: int|
        0 <= i < chosen.len() ==> same_resource(#[trigger] s.resources@[i], resources[chosen[i]])
    &&& s.events@.len() == events.len()
    &&& forall|i: int| 0 <= i < events.len() ==> same_event(#[trigger] s.events@[i], events[i])
    &&& ids_model(s.referenced_ids@) == distinct(referred_ids(s.resources@, s.events@))
}

/// Takes a full snapshot of the given rows.
pub fn snapshot(resources: &Vec<Resource>, events: &Vec<Event>) -> (r: Snapshot)
    ensures
        is_snapshot(r, resources@, events@),
        forall|i: int| 0 <= i < r.resources@.len() ==> (#[trigger] r.resources@[i]).id@.len() > 0,
{
    let mut copied: Vec<Event> = Vec::new();
    let mut j: usize = 0;
    while j < events.len()
        invariant
            j <= events@.len(),
            copied@.len() == j,
            forall|k: int| 0 <= k < j ==> same_event(#[trigger] copied@[k], events@[k]),
        decreases events@.len() - j,
    {
        copied.push(clone_event(&events[j]));
        j += 1;
    }
    let mut chosen: Vec<Resource> = Vec::new();
    let mut i: usize = 0;
    while i < resources.len()
        invariant
            i <= resources@.len(),
            copied@.len() == events@.len(),
            forall|k: int| 0 <= k < events@.len() ==> same_event(#[trigger] copied@[k], events@[k]),
            chosen@.len() == selected(resources@, i as nat).len(),
            forall|j: int|
                0 <= j < chosen@.len() ==> same_resource(
                    #[trigger] chosen@[j],
                    resources@[selected(resources@, i as nat)[j]],
                ) && chosen@[j].id@.len() > 0,
        decreases resources@.len() - i,
    {
        if !resources[i].id.is_empty() {
            chosen.push(clone_resource(&resources[i]));
        }
        i += 1;
    }
    let referenced = referenced_ids(&chosen, &copied);
    Snapshot { resources: chosen, events: copied, referenced_ids: referenced }
}

} // verus!
