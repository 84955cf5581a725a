use archodex_backend::json::JsonValue;
use archodex_backend::operation::Operation;
use archodex_backend::principal_chain::{PrincipalChainId, PrincipalChainIdPart};
use archodex_backend::report::{Event, EventCapture, ReportError, Request, ResourceTreeNode};
use archodex_backend::resource::{ResourceId, ResourceIdPart};
use archodex_backend::store::GraphStore;
use archodex_backend::timestamp::Timestamp;
use archodex_backend::value::Value;

fn t(secs: i64) -> Timestamp {
    Timestamp::new(secs, 0)
}

fn node(ty: &str, id: &str, first: i64, last: i64) -> ResourceTreeNode {
    ResourceTreeNode {
        id: ResourceIdPart::new(ty, id),
        globally_unique: None,
        first_seen_at: t(first),
        last_seen_at: t(last),
        attributes: None,
        contains: None,
    }
}

fn resources(nodes: Vec<ResourceTreeNode>) -> Request {
    Request {
        resource_captures: nodes,
        event_captures: vec![],
    }
}

fn hop(ty: &str, id: &str) -> PrincipalChainIdPart {
    PrincipalChainIdPart {
        id: ResourceId::from_parts(vec![(ty, id)]),
        event: None,
    }
}

fn capture(principals: Vec<PrincipalChainIdPart>, resource: (&str, &str), ty: &str, first: i64, last: i64) -> Request {
    Request {
        resource_captures: vec![],
        event_captures: vec![EventCapture {
            principals,
            resources: vec![ResourceId::from_parts(vec![resource])],
            events: vec![Event {
                ty: ty.to_string(),
                first_seen_at: t(first),
                last_seen_at: t(last),
            }],
        }],
    }
}

#[test]
fn host_is_stored_once_and_its_last_seen_advances() {
    let (t0, t1, t2) = (100, 200, 300);
    let mut store = GraphStore::new();

    store.ingest(&resources(vec![node("Host", "h1", t0, t1)])).unwrap();
    assert_eq!(store.resources.len(), 1);
    assert_eq!(store.principal_chains.len(), 0);
    assert_eq!(store.events.len(), 0);
    let row = &store.resources[0];
    assert_eq!(row.id, ResourceId::from_parts(vec![("Host", "h1")]));
    assert_eq!(row.first_seen_at, Some(t(t0)));
    assert_eq!(row.last_seen_at, Some(t(t1)));

    store.ingest(&resources(vec![node("Host", "h1", t0, t2)])).unwrap();
    assert_eq!(store.resources.len(), 1);
    let row = &store.resources[0];
    assert_eq!(row.id, ResourceId::from_parts(vec![("Host", "h1")]));
    assert_eq!(row.first_seen_at, Some(t(t0)));
    assert_eq!(row.last_seen_at, Some(t(t2)));
}

#[test]
fn reingesting_a_node_keeps_first_seen_and_takes_the_later_last_seen() {
    let mut store = GraphStore::new();
    store.ingest(&resources(vec![node("Host", "h1", 50, 200)])).unwrap();
    store.ingest(&resources(vec![node("Host", "h1", 10, 150)])).unwrap();
    let id = ResourceId::from_parts(vec![("Host", "h1")]);
    let row = store.resource(&id).unwrap();
    assert_eq!(store.resources.len(), 1);
    assert_eq!(row.first_seen_at, Some(t(50)));
    assert_eq!(row.last_seen_at, Some(t(200)));

    store.ingest(&resources(vec![node("Host", "h1", 10, 201)])).unwrap();
    let row = store.resource(&id).unwrap();
    assert_eq!(store.resources.len(), 1);
    assert_eq!(row.first_seen_at, Some(t(50)));
    assert_eq!(row.last_seen_at, Some(t(201)));
}

#[test]
fn identical_report_twice_changes_nothing() {
    let mut once = GraphStore::new();
    let mut child = node("Pod", "p", 3, 4);
    child.attributes = Some(vec![("image".to_string(), JsonValue::Text("nginx".to_string()))]);
    let mut root = node("Host", "h", 1, 2);
    root.contains = Some(vec![child]);
    let req = Request {
        resource_captures: vec![root],
        event_captures: vec![EventCapture {
            principals: vec![hop("User", "u")],
            resources: vec![ResourceId::from_parts(vec![("Host", "h")])],
            events: vec![Event {
                ty: "login".to_string(),
                first_seen_at: t(1),
                last_seen_at: t(2),
            }],
        }],
    };
    once.ingest(&req).unwrap();
    let mut twice = GraphStore::new();
    twice.ingest(&req).unwrap();
    twice.ingest(&req).unwrap();
    assert_eq!(once, twice);
}

#[test]
fn globally_unique_node_three_levels_deep_is_keyed_by_itself() {
    let mut api = node("Api", "stripe", 7, 8);
    api.globally_unique = Some(true);
    let mut pod = node("Pod", "p", 5, 6);
    pod.contains = Some(vec![api]);
    let mut host = node("Host", "h", 3, 4);
    host.contains = Some(vec![pod]);
    let mut account = node("Account", "a", 1, 2);
    account.contains = Some(vec![host]);

    let mut store = GraphStore::new();
    store.ingest(&resources(vec![account])).unwrap();

    let own = ResourceId::from_parts(vec![("Api", "stripe")]);
    let row = store.resource(&own).unwrap();
    assert_eq!(row.first_seen_at, Some(t(7)));
    assert_eq!(row.last_seen_at, Some(t(8)));

    let by_ancestors = ResourceId::from_parts(vec![
        ("Account", "a"),
        ("Host", "h"),
        ("Pod", "p"),
        ("Api", "stripe"),
    ]);
    assert!(store.resource(&by_ancestors).is_none());
    assert_eq!(store.resources.len(), 4);
}

#[test]
fn globally_unique_node_is_one_row_whoever_discovers_it() {
    let make = |account: &str| {
        let mut api = node("Api", "stripe", 7, 8);
        api.globally_unique = Some(true);
        let mut root = node("Account", account, 1, 2);
        root.contains = Some(vec![api]);
        root
    };
    let mut store = GraphStore::new();
    store.ingest(&resources(vec![make("a"), make("b")])).unwrap();
    assert_eq!(store.resources.len(), 3);
    assert!(store
        .resource(&ResourceId::from_parts(vec![("Api", "stripe")]))
        .is_some());
}

#[test]
fn two_chains_share_one_edge() {
    let mut store = GraphStore::new();
    let first = vec![hop("User", "alice"), hop("Role", "admin")];
    let second = vec![hop("User", "bob"), hop("Role", "admin")];
    store
        .ingest(&capture(first.clone(), ("Bucket", "b"), "read", 10, 40))
        .unwrap();
    store
        .ingest(&capture(second.clone(), ("Bucket", "b"), "read", 20, 30))
        .unwrap();

    let role = ResourceId::from_parts(vec![("Role", "admin")]);
    let bucket = ResourceId::from_parts(vec![("Bucket", "b")]);
    let edges: Vec<_> = store
        .events
        .iter()
        .filter(|e| e.principal == role && e.resource == bucket && e.ty == "read")
        .collect();
    assert_eq!(edges.len(), 1);
    let edge = store.event(&role, &bucket, "read").unwrap();
    assert_eq!(
        edge.principal_chains,
        vec![PrincipalChainId(first), PrincipalChainId(second)]
    );
    assert_eq!(edge.first_seen_at, t(10));
    assert_eq!(edge.last_seen_at, t(40));
    assert_eq!(store.principal_chains.len(), 2);
    assert_eq!(store.events.len(), 3);
}

#[test]
fn shared_edge_takes_the_later_last_seen_of_the_second_capture() {
    let mut store = GraphStore::new();
    store
        .ingest(&capture(vec![hop("User", "alice"), hop("Role", "admin")], ("Bucket", "b"), "read", 10, 20))
        .unwrap();
    store
        .ingest(&capture(vec![hop("Role", "admin")], ("Bucket", "b"), "read", 5, 99))
        .unwrap();
    let role = ResourceId::from_parts(vec![("Role", "admin")]);
    let bucket = ResourceId::from_parts(vec![("Bucket", "b")]);
    let edge = store.event(&role, &bucket, "read").unwrap();
    assert_eq!(edge.last_seen_at, t(99));
    assert_eq!(edge.first_seen_at, t(10));
    assert_eq!(edge.principal_chains.len(), 2);
}

#[test]
fn same_chain_is_listed_once() {
    let mut store = GraphStore::new();
    let chain = vec![hop("User", "alice")];
    for last in [20, 30, 25] {
        store
            .ingest(&capture(chain.clone(), ("Bucket", "b"), "read", 10, last))
            .unwrap();
    }
    let edge = store
        .event(
            &ResourceId::from_parts(vec![("User", "alice")]),
            &ResourceId::from_parts(vec![("Bucket", "b")]),
            "read",
        )
        .unwrap();
    assert_eq!(edge.principal_chains, vec![PrincipalChainId(chain.clone())]);
    assert_eq!(edge.last_seen_at, t(30));
    let record = store.principal_chain(&PrincipalChainId(chain)).unwrap();
    assert_eq!(record.first_seen_at, t(10));
    assert_eq!(record.last_seen_at, t(30));
    assert_eq!(store.principal_chains.len(), 1);
}

#[test]
fn direct_flag_is_set_by_a_chain_that_ends_in_the_principal_and_never_unset() {
    let role = ResourceId::from_parts(vec![("Role", "admin")]);
    let user = ResourceId::from_parts(vec![("User", "alice")]);
    let bucket = ResourceId::from_parts(vec![("Bucket", "b")]);
    let mut store = GraphStore::new();

    store
        .ingest(&capture(vec![hop("Role", "admin"), hop("User", "alice")], ("Bucket", "b"), "read", 1, 2))
        .unwrap();
    assert!(!store.event(&role, &bucket, "read").unwrap().has_direct_principal_chain);
    assert!(store.event(&user, &bucket, "read").unwrap().has_direct_principal_chain);

    store
        .ingest(&capture(vec![hop("User", "bob"), hop("Role", "admin")], ("Bucket", "b"), "read", 3, 4))
        .unwrap();
    assert!(store.event(&role, &bucket, "read").unwrap().has_direct_principal_chain);

    store
        .ingest(&capture(vec![hop("Role", "admin"), hop("User", "carol")], ("Bucket", "b"), "read", 5, 6))
        .unwrap();
    assert!(store.event(&role, &bucket, "read").unwrap().has_direct_principal_chain);
    assert!(store.event(&user, &bucket, "read").unwrap().has_direct_principal_chain);
    assert_eq!(store.event(&role, &bucket, "read").unwrap().principal_chains.len(), 3);
}

#[test]
fn edge_of_an_intermediate_hop_stays_indirect() {
    let mut store = GraphStore::new();
    for last in [2, 4] {
        store
            .ingest(&capture(vec![hop("Role", "admin"), hop("User", "alice")], ("Bucket", "b"), "read", 1, last))
            .unwrap();
    }
    let edge = store
        .event(
            &ResourceId::from_parts(vec![("Role", "admin")]),
            &ResourceId::from_parts(vec![("Bucket", "b")]),
            "read",
        )
        .unwrap();
    assert!(!edge.has_direct_principal_chain);
}

#[test]
fn edges_are_keyed_by_principal_resource_and_type() {
    let mut store = GraphStore::new();
    store
        .ingest(&capture(vec![hop("User", "alice")], ("Bucket", "b"), "read", 1, 2))
        .unwrap();
    store
        .ingest(&capture(vec![hop("User", "alice")], ("Bucket", "b"), "write", 1, 2))
        .unwrap();
    store
        .ingest(&capture(vec![hop("User", "alice")], ("Bucket", "c"), "read", 1, 2))
        .unwrap();
    assert_eq!(store.events.len(), 3);
    assert!(store
        .event(
            &ResourceId::from_parts(vec![("User", "alice")]),
            &ResourceId::from_parts(vec![("Bucket", "c")]),
            "write"
        )
        .is_none());
}

#[test]
fn attributes_are_merged_not_replaced() {
    let mut store = GraphStore::new();
    let mut first = node("Host", "h", 1, 2);
    first.attributes = Some(vec![
        ("os".to_string(), JsonValue::Text("linux".to_string())),
        ("cpus".to_string(), JsonValue::Int(4)),
        (
            "labels".to_string(),
            JsonValue::Object(vec![
                ("env".to_string(), JsonValue::Text("prod".to_string())),
                ("team".to_string(), JsonValue::Text("core".to_string())),
            ]),
        ),
    ]);
    let mut second = node("Host", "h", 1, 3);
    second.attributes = Some(vec![
        ("cpus".to_string(), JsonValue::Int(8)),
        ("zone".to_string(), JsonValue::Text("a".to_string())),
        (
            "labels".to_string(),
            JsonValue::Object(vec![("env".to_string(), JsonValue::Text("test".to_string()))]),
        ),
    ]);
    store.ingest(&resources(vec![first])).unwrap();
    store.ingest(&resources(vec![second])).unwrap();
    let row = store
        .resource(&ResourceId::from_parts(vec![("Host", "h")]))
        .unwrap();
    assert_eq!(
        row.attributes,
        Some(Value::Object(vec![
            ("os".to_string(), Value::Strand("linux".to_string())),
            ("cpus".to_string(), Value::Int(8)),
            (
                "labels".to_string(),
                Value::Object(vec![
                    ("env".to_string(), Value::Strand("test".to_string())),
                    ("team".to_string(), Value::Strand("core".to_string())),
                ])
            ),
            ("zone".to_string(), Value::Strand("a".to_string())),
        ]))
    );
}

#[test]
fn report_without_attributes_leaves_attributes_alone() {
    let mut store = GraphStore::new();
    let mut first = node("Host", "h", 1, 2);
    first.attributes = Some(vec![("os".to_string(), JsonValue::Text("linux".to_string()))]);
    store.ingest(&resources(vec![first])).unwrap();
    let before = store.resources[0].attributes.as_ref().map(|v| v.deep_clone());
    store.ingest(&resources(vec![node("Host", "h", 1, 5)])).unwrap();
    let mut empty = node("Host", "h", 1, 6);
    empty.attributes = Some(vec![]);
    store.ingest(&resources(vec![empty])).unwrap();
    assert_eq!(store.resources[0].attributes, before);
    assert_eq!(store.resources[0].last_seen_at, Some(t(6)));
}

#[test]
fn ingestion_does_not_touch_environments() {
    let mut store = GraphStore::new();
    store.ingest(&resources(vec![node("Host", "h", 1, 2)])).unwrap();
    let id = ResourceId::from_parts(vec![("Host", "h")]);
    store.set_environments(&id, vec!["prod".to_string()]);
    store.ingest(&resources(vec![node("Host", "h", 1, 9)])).unwrap();
    assert_eq!(store.resources[0].environments, vec!["prod".to_string()]);
    assert_eq!(store.resources[0].last_seen_at, Some(t(9)));
    assert_eq!(store.resources[0].first_seen_at, Some(t(1)));
}

#[test]
fn environments_are_set_for_known_resources_only() {
    let mut store = GraphStore::new();
    let known = ResourceId::from_parts(vec![("Host", "h")]);
    let unknown = ResourceId::from_parts(vec![("Host", "x")]);
    store.ingest(&resources(vec![node("Host", "h", 1, 2)])).unwrap();
    store.set_environments(&unknown, vec!["prod".to_string()]);
    assert_eq!(store.resources.len(), 1);
    assert!(store.resources[0].environments.is_empty());
    store.set_environments(&known, vec!["prod".to_string(), "eu".to_string()]);
    store.set_environments(&known, vec!["test".to_string()]);
    assert_eq!(store.resource(&known).unwrap().environments, vec!["test".to_string()]);
    assert_eq!(store.resource(&known).unwrap().last_seen_at, Some(t(2)));
}

#[test]
fn merge_for_an_unknown_resource_changes_nothing() {
    let mut store = GraphStore::new();
    store.apply(&Operation::MergeAttributes {
        id: ResourceId::from_parts(vec![("Host", "h")]),
        attributes: Value::Object(vec![("a".to_string(), Value::Int(1))]),
    });
    assert_eq!(store, GraphStore::new());
}

#[test]
fn refused_report_changes_nothing() {
    let mut store = GraphStore::new();
    store.ingest(&resources(vec![node("Host", "h", 1, 2)])).unwrap();
    let bad = Request {
        resource_captures: vec![node("Host", "other", 1, 2)],
        event_captures: vec![EventCapture {
            principals: vec![hop("User", "u")],
            resources: vec![],
            events: vec![],
        }],
    };
    assert_eq!(
        store.ingest(&bad),
        Err(ReportError::EmptyEventList { capture: 0 })
    );
    assert_eq!(store.resources.len(), 1);
    assert_eq!(store.events.len(), 0);
    assert_eq!(store.principal_chains.len(), 0);
}

#[test]
fn apply_batch_is_apply_in_order() {
    let ops = vec![
        Operation::UpsertResource {
            id: ResourceId::from_parts(vec![("Host", "h")]),
            first_seen_at: t(5),
            last_seen_at: t(6),
        },
        Operation::UpsertResource {
            id: ResourceId::from_parts(vec![("Host", "h")]),
            first_seen_at: t(1),
            last_seen_at: t(3),
        },
    ];
    let mut whole = GraphStore::new();
    whole.apply_batch(&ops);
    let mut stepwise = GraphStore::new();
    for op in &ops {
        stepwise.apply(op);
    }
    assert_eq!(whole, stepwise);
    assert_eq!(whole.resources[0].first_seen_at, Some(t(5)));
    assert_eq!(whole.resources[0].last_seen_at, Some(t(6)));
    assert_eq!(whole.find_resource(&ResourceId::from_parts(vec![("Host", "h")])), Some(0));
    assert_eq!(whole.find_resource(&ResourceId::from_parts(vec![("Host", "x")])), None);
}

#[test]
fn full_snapshot_leaves_out_the_sentinel_root() {
    let mut store = GraphStore::new();
    store.apply(&Operation::UpsertResource {
        id: ResourceId::from_parts(vec![]),
        first_seen_at: t(0),
        last_seen_at: t(0),
    });
    let mut host = node("Host", "h", 1, 2);
    host.contains = Some(vec![node("Pod", "p", 3, 4)]);
    store.ingest(&resources(vec![host])).unwrap();
    store
        .ingest(&capture(vec![hop("User", "u"), hop("Host", "h")], ("Bucket", "b"), "read", 5, 6))
        .unwrap();
    assert_eq!(store.resources.len(), 3);

    let snapshot = store.snapshot();
    let ids: Vec<ResourceId> = snapshot.resources.iter().map(|r| r.id.clone()).collect();
    assert_eq!(
        ids,
        vec![
            ResourceId::from_parts(vec![("Host", "h")]),
            ResourceId::from_parts(vec![("Host", "h"), ("Pod", "p")]),
        ]
    );
    assert_eq!(snapshot.resources[0], store.resources[1]);
    assert_eq!(snapshot.events, store.events);
    assert_eq!(
        snapshot.referenced_ids,
        vec![
            ResourceId::from_parts(vec![("Host", "h")]),
            ResourceId::from_parts(vec![("Host", "h"), ("Pod", "p")]),
            ResourceId::from_parts(vec![("User", "u")]),
            ResourceId::from_parts(vec![("Bucket", "b")]),
        ]
    );
    assert_eq!(GraphStore::new().snapshot().resources.len(), 0);
}
