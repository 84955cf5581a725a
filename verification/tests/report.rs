use archodex_backend::json::JsonValue;
use archodex_backend::operation::Operation;
use archodex_backend::principal_chain::{PrincipalChainId, PrincipalChainIdPart};
use archodex_backend::report::{
    events_time_range, report, surrealdb_value_from_principal_chain, upsert_events,
    upsert_resource_tree_node, Event, EventCapture, ReportError, Request, ResourceTreeNode,
};
use archodex_backend::resource::{ResourceId, ResourceIdPart};
use archodex_backend::timestamp::Timestamp;
use archodex_backend::value::Value;

fn t(secs: i64) -> Timestamp {
    Timestamp::new(secs, 0)
}

fn node(ty: &str, id: &str, first: i64, last: i64) -> ResourceTreeNode {
    ResourceTreeNode {
        id: ResourceIdPart::new(ty, id),
        globally_unique: None,
        first_seen_at: t(first),
        last_seen_at: t(last),
        attributes: None,
        contains: None,
    }
}

fn upsert(parts: Vec<(&str, &str)>, first: i64, last: i64) -> Operation {
    Operation::UpsertResource {
        id: ResourceId::from_parts(parts),
        first_seen_at: t(first),
        last_seen_at: t(last),
    }
}

fn hop(parts: Vec<(&str, &str)>, event: Option<&str>) -> PrincipalChainIdPart {
    PrincipalChainIdPart {
        id: ResourceId::from_parts(parts),
        event: event.map(|e| e.to_string()),
    }
}

fn seen(ty: &str, first: i64, last: i64) -> Event {
    Event {
        ty: ty.to_string(),
        first_seen_at: t(first),
        last_seen_at: t(last),
    }
}

#[test]
fn leaf_node_becomes_one_upsert() {
    let mut batch = Vec::new();
    let prefix = ResourceId::from_parts(vec![]);
    upsert_resource_tree_node(&mut batch, &prefix, &node("Host", "h1", 10, 20));
    assert_eq!(batch, vec![upsert(vec![("Host", "h1")], 10, 20)]);
}

#[test]
fn node_extends_the_prefix_of_its_container() {
    let mut batch = Vec::new();
    let prefix = ResourceId::from_parts(vec![("Account", "1"), ("Region", "eu")]);
    upsert_resource_tree_node(&mut batch, &prefix, &node("Host", "h1", 10, 20));
    assert_eq!(
        batch,
        vec![upsert(
            vec![("Account", "1"), ("Region", "eu"), ("Host", "h1")],
            10,
            20
        )]
    );
}

#[test]
fn batch_keeps_what_it_held() {
    let mut batch = vec![upsert(vec![("Old", "o")], 1, 2)];
    let prefix = ResourceId::from_parts(vec![]);
    upsert_resource_tree_node(&mut batch, &prefix, &node("Host", "h1", 10, 20));
    assert_eq!(
        batch,
        vec![
            upsert(vec![("Old", "o")], 1, 2),
            upsert(vec![("Host", "h1")], 10, 20)
        ]
    );
}

#[test]
fn children_are_walked_depth_first_and_prefix_does_not_leak() {
    let mut a = node("A", "a", 1, 2);
    let mut b = node("B", "b", 3, 4);
    b.contains = Some(vec![node("C", "c", 5, 6)]);
    a.contains = Some(vec![b, node("D", "d", 7, 8)]);
    let mut batch = Vec::new();
    upsert_resource_tree_node(&mut batch, &ResourceId::from_parts(vec![]), &a);
    assert_eq!(
        batch,
        vec![
            upsert(vec![("A", "a")], 1, 2),
            upsert(vec![("A", "a"), ("B", "b")], 3, 4),
            upsert(vec![("A", "a"), ("B", "b"), ("C", "c")], 5, 6),
            upsert(vec![("A", "a"), ("D", "d")], 7, 8),
        ]
    );
}

#[test]
fn globally_unique_node_resets_the_path() {
    let mut api = node("Api", "stripe", 5, 6);
    api.globally_unique = Some(true);
    api.contains = Some(vec![node("Endpoint", "charges", 7, 8)]);
    let mut pod = node("Pod", "p", 3, 4);
    pod.contains = Some(vec![api, node("Container", "c", 9, 10)]);
    let mut host = node("Host", "h", 1, 2);
    host.contains = Some(vec![pod]);
    let mut account = node("Account", "a", 0, 1);
    account.contains = Some(vec![host]);

    let mut batch = Vec::new();
    upsert_resource_tree_node(&mut batch, &ResourceId::from_parts(vec![]), &account);
    assert_eq!(
        batch,
        vec![
            upsert(vec![("Account", "a")], 0, 1),
            upsert(vec![("Account", "a"), ("Host", "h")], 1, 2),
            upsert(vec![("Account", "a"), ("Host", "h"), ("Pod", "p")], 3, 4),
            upsert(vec![("Api", "stripe")], 5, 6),
            upsert(vec![("Api", "stripe"), ("Endpoint", "charges")], 7, 8),
            upsert(
                vec![
                    ("Account", "a"),
                    ("Host", "h"),
                    ("Pod", "p"),
                    ("Container", "c")
                ],
                9,
                10
            ),
        ]
    );
}

#[test]
fn nested_global_reset_discards_the_outer_global_prefix() {
    let mut inner = node("Inner", "i", 3, 4);
    inner.globally_unique = Some(true);
    inner.contains = Some(vec![node("Leaf", "l", 5, 6)]);
    let mut outer = node("Outer", "o", 1, 2);
    outer.globally_unique = Some(true);
    outer.contains = Some(vec![inner]);
    let mut batch = Vec::new();
    let prefix = ResourceId::from_parts(vec![("Account", "a")]);
    upsert_resource_tree_node(&mut batch, &prefix, &outer);
    assert_eq!(
        batch,
        vec![
            upsert(vec![("Outer", "o")], 1, 2),
            upsert(vec![("Inner", "i")], 3, 4),
            upsert(vec![("Inner", "i"), ("Leaf", "l")], 5, 6),
        ]
    );
}

#[test]
fn globally_unique_false_is_not_a_reset() {
    let mut n = node("Host", "h", 1, 2);
    n.globally_unique = Some(false);
    let mut batch = Vec::new();
    upsert_resource_tree_node(&mut batch, &ResourceId::from_parts(vec![("A", "a")]), &n);
    assert_eq!(batch, vec![upsert(vec![("A", "a"), ("Host", "h")], 1, 2)]);
}

#[test]
fn attributes_become_a_separate_merge() {
    let mut n = node("Host", "h", 1, 2);
    n.attributes = Some(vec![
        ("os".to_string(), JsonValue::Text("linux".to_string())),
        ("cpus".to_string(), JsonValue::Int(8)),
    ]);
    let mut batch = Vec::new();
    upsert_resource_tree_node(&mut batch, &ResourceId::from_parts(vec![]), &n);
    assert_eq!(
        batch,
        vec![
            upsert(vec![("Host", "h")], 1, 2),
            Operation::MergeAttributes {
                id: ResourceId::from_parts(vec![("Host", "h")]),
                attributes: Value::Object(vec![
                    ("os".to_string(), Value::Strand("linux".to_string())),
                    ("cpus".to_string(), Value::Int(8)),
                ]),
            },
        ]
    );
}

#[test]
fn empty_attributes_become_no_merge() {
    let mut n = node("Host", "h", 1, 2);
    n.attributes = Some(vec![]);
    let mut batch = Vec::new();
    upsert_resource_tree_node(&mut batch, &ResourceId::from_parts(vec![]), &n);
    assert_eq!(batch, vec![upsert(vec![("Host", "h")], 1, 2)]);
}

#[test]
fn chain_time_range_spans_all_events() {
    let events = vec![seen("read", 50, 60), seen("write", 10, 20), seen("list", 30, 90)];
    assert_eq!(events_time_range(&events), Some((t(10), t(90))));
    assert_eq!(events_time_range(&vec![seen("read", 5, 6)]), Some((t(5), t(6))));
    assert_eq!(events_time_range(&vec![]), None);
    let close = vec![
        Event {
            ty: "a".to_string(),
            first_seen_at: Timestamp::new(7, 500),
            last_seen_at: Timestamp::new(9, 1),
        },
        Event {
            ty: "b".to_string(),
            first_seen_at: Timestamp::new(7, 499),
            last_seen_at: Timestamp::new(9, 2),
        },
    ];
    assert_eq!(
        events_time_range(&close),
        Some((Timestamp::new(7, 499), Timestamp::new(9, 2)))
    );
}

#[test]
fn capture_becomes_chain_upsert_and_cross_product_of_edges() {
    let capture = EventCapture {
        principals: vec![hop(vec![("User", "u")], Some("assume")), hop(vec![("Role", "r")], None)],
        resources: vec![
            ResourceId::from_parts(vec![("Bucket", "b1")]),
            ResourceId::from_parts(vec![("Bucket", "b2")]),
        ],
        events: vec![seen("read", 10, 20), seen("write", 5, 30)],
    };
    let chain = PrincipalChainId(vec![
        hop(vec![("User", "u")], Some("assume")),
        hop(vec![("Role", "r")], None),
    ]);
    let mut batch = Vec::new();
    assert!(upsert_events(&mut batch, &capture));

    let edge = |principal: Vec<(&str, &str)>, bucket: &str, ty: &str, direct: bool, f: i64, l: i64| {
        Operation::UpsertEvent {
            principal: ResourceId::from_parts(principal),
            resource: ResourceId::from_parts(vec![("Bucket", bucket)]),
            ty: ty.to_string(),
            principal_chain: chain.clone(),
            has_direct_principal_chain: direct,
            first_seen_at: t(f),
            last_seen_at: t(l),
        }
    };
    let expected = vec![
        Operation::UpsertPrincipalChain {
            id: chain.clone(),
            first_seen_at: t(5),
            last_seen_at: t(30),
        },
        edge(vec![("User", "u")], "b1", "read", false, 10, 20),
        edge(vec![("User", "u")], "b1", "write", false, 5, 30),
        edge(vec![("User", "u")], "b2", "read", false, 10, 20),
        edge(vec![("User", "u")], "b2", "write", false, 5, 30),
        edge(vec![("Role", "r")], "b1", "read", true, 10, 20),
        edge(vec![("Role", "r")], "b1", "write", true, 5, 30),
        edge(vec![("Role", "r")], "b2", "read", true, 10, 20),
        edge(vec![("Role", "r")], "b2", "write", true, 5, 30),
    ];
    assert_eq!(batch, expected);
}

#[test]
fn a_hop_equal_to_the_last_hop_is_direct_too() {
    let capture = EventCapture {
        principals: vec![
            hop(vec![("Role", "r")], None),
            hop(vec![("User", "u")], None),
            hop(vec![("Role", "r")], None),
        ],
        resources: vec![ResourceId::from_parts(vec![("Bucket", "b")])],
        events: vec![seen("read", 1, 2)],
    };
    let mut batch = Vec::new();
    upsert_events(&mut batch, &capture);
    let flags: Vec<bool> = batch
        .iter()
        .filter_map(|op| match op {
            Operation::UpsertEvent {
                has_direct_principal_chain,
                ..
            } => Some(*has_direct_principal_chain),
            _ => None,
        })
        .collect();
    assert_eq!(flags, vec![true, false, true]);
}

#[test]
fn a_hop_with_another_event_note_than_the_last_is_not_direct() {
    let capture = EventCapture {
        principals: vec![hop(vec![("Role", "r")], Some("assume")), hop(vec![("Role", "r")], None)],
        resources: vec![ResourceId::from_parts(vec![("Bucket", "b")])],
        events: vec![seen("read", 1, 2)],
    };
    let mut batch = Vec::new();
    upsert_events(&mut batch, &capture);
    let flags: Vec<bool> = batch
        .iter()
        .filter_map(|op| match op {
            Operation::UpsertEvent {
                has_direct_principal_chain,
                ..
            } => Some(*has_direct_principal_chain),
            _ => None,
        })
        .collect();
    assert_eq!(flags, vec![false, true]);
}

#[test]
fn capture_without_principals_or_resources_upserts_only_the_chain() {
    let capture = EventCapture {
        principals: vec![],
        resources: vec![ResourceId::from_parts(vec![("Bucket", "b")])],
        events: vec![seen("read", 1, 2)],
    };
    let mut batch = Vec::new();
    upsert_events(&mut batch, &capture);
    assert_eq!(
        batch,
        vec![Operation::UpsertPrincipalChain {
            id: PrincipalChainId(vec![]),
            first_seen_at: t(1),
            last_seen_at: t(2),
        }]
    );

    let capture = EventCapture {
        principals: vec![hop(vec![("User", "u")], None)],
        resources: vec![],
        events: vec![seen("read", 1, 2)],
    };
    let mut batch = Vec::new();
    upsert_events(&mut batch, &capture);
    assert_eq!(batch.len(), 1);
}

#[test]
fn capture_without_events_adds_nothing() {
    let capture = EventCapture {
        principals: vec![hop(vec![("User", "u")], None)],
        resources: vec![ResourceId::from_parts(vec![("Bucket", "b")])],
        events: vec![],
    };
    let mut batch = vec![upsert(vec![("Old", "o")], 1, 2)];
    assert!(!upsert_events(&mut batch, &capture));
    assert_eq!(batch, vec![upsert(vec![("Old", "o")], 1, 2)]);
}

#[test]
fn report_puts_resources_before_events() {
    let req = Request {
        resource_captures: vec![node("Host", "h1", 1, 2), node("Host", "h2", 3, 4)],
        event_captures: vec![EventCapture {
            principals: vec![hop(vec![("User", "u")], None)],
            resources: vec![ResourceId::from_parts(vec![("Host", "h1")])],
            events: vec![seen("login", 5, 6)],
        }],
    };
    let batch = report(&req).unwrap();
    assert_eq!(batch.len(), 4);
    assert_eq!(batch[0], upsert(vec![("Host", "h1")], 1, 2));
    assert_eq!(batch[1], upsert(vec![("Host", "h2")], 3, 4));
    assert!(matches!(batch[2], Operation::UpsertPrincipalChain { .. }));
    assert!(matches!(batch[3], Operation::UpsertEvent { .. }));
}

#[test]
fn empty_report_is_an_empty_batch() {
    let req = Request {
        resource_captures: vec![],
        event_captures: vec![],
    };
    assert_eq!(report(&req), Ok(vec![]));
}

#[test]
fn report_refuses_a_capture_without_events() {
    let good = EventCapture {
        principals: vec![hop(vec![("User", "u")], None)],
        resources: vec![ResourceId::from_parts(vec![("Host", "h1")])],
        events: vec![seen("login", 5, 6)],
    };
    let bad = EventCapture {
        principals: vec![hop(vec![("User", "u")], None)],
        resources: vec![ResourceId::from_parts(vec![("Host", "h1")])],
        events: vec![],
    };
    let also_bad = EventCapture {
        principals: vec![],
        resources: vec![],
        events: vec![],
    };
    let req = Request {
        resource_captures: vec![node("Host", "h1", 1, 2)],
        event_captures: vec![good, bad, also_bad],
    };
    let err = report(&req).unwrap_err();
    assert_eq!(err, ReportError::EmptyEventList { capture: 1 });
    assert!(!err.message().is_empty());
}

#[test]
fn principal_chain_value_is_the_array_of_its_hops() {
    let chain = vec![hop(vec![("User", "u")], Some("assume")), hop(vec![("Role", "r")], None)];
    let value = surrealdb_value_from_principal_chain(&chain);
    assert_eq!(
        value,
        Value::Array(vec![chain[0].to_value(), chain[1].to_value()])
    );
    assert_eq!(PrincipalChainId::try_from_value(&value).unwrap().0, chain);
}
