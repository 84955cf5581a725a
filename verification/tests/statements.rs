use archodex_backend::account::Account;
use archodex_backend::operation::Operation;
use archodex_backend::principal_chain::{PrincipalChainId, PrincipalChainIdPart};
use archodex_backend::queries::{
    create_account_query, create_report_api_key_query, delete_account_query, get_account_by_id,
    list_report_api_keys_query, report_api_key_is_valid_query, revoke_report_api_key_query,
};
use archodex_backend::report_api_key::ReportApiKey;
use archodex_backend::resource::ResourceId;
use archodex_backend::statement::{get_principal_chain, set_environments, transaction, Statement};
use archodex_backend::timestamp::Timestamp;
use archodex_backend::user::User;
use archodex_backend::value::Value;

fn t(secs: i64) -> Value {
    Value::Datetime(Timestamp::new(secs, 0))
}

fn b(name: &str, value: Value) -> (String, Value) {
    (name.to_string(), value)
}

fn record(table: &str, key: Value) -> Value {
    Value::Record(table.to_string(), Box::new(key))
}

#[test]
fn resource_upsert_statement() {
    let id = ResourceId::from_parts(vec![("Host", "h1")]);
    let op = Operation::UpsertResource {
        id: id.clone(),
        first_seen_at: Timestamp::new(1, 0),
        last_seen_at: Timestamp::new(2, 0),
    };
    let mut counter = 7;
    let statement = op.statement(&mut counter);
    assert_eq!(counter, 10);
    assert_eq!(
        statement,
        Statement {
            text: "INSERT INTO resource (id, first_seen_at, last_seen_at) VALUES ($bind_7, $bind_8, $bind_9) ON DUPLICATE KEY UPDATE last_seen_at = time::max([last_seen_at, $bind_9]) RETURN NONE;".to_string(),
            bindings: vec![b("bind_7", id.to_value()), b("bind_8", t(1)), b("bind_9", t(2))],
        }
    );
}

#[test]
fn attribute_merge_statement() {
    let id = ResourceId::from_parts(vec![("Host", "h1")]);
    let attributes = Value::Object(vec![b("os", Value::Strand("linux".to_string()))]);
    let op = Operation::MergeAttributes {
        id: id.clone(),
        attributes: attributes.deep_clone(),
    };
    let mut counter = 0;
    let statement = op.statement(&mut counter);
    assert_eq!(counter, 2);
    assert_eq!(
        statement,
        Statement {
            text: "UPDATE $bind_0 MERGE { attributes: $bind_1 } RETURN NONE;".to_string(),
            bindings: vec![b("bind_0", id.to_record()), b("bind_1", attributes)],
        }
    );
}

#[test]
fn chain_and_event_statements() {
    let chain = PrincipalChainId(vec![PrincipalChainIdPart {
        id: ResourceId::from_parts(vec![("User", "u")]),
        event: None,
    }]);
    let mut counter = 0;
    let statement = Operation::UpsertPrincipalChain {
        id: chain.clone(),
        first_seen_at: Timestamp::new(1, 0),
        last_seen_at: Timestamp::new(2, 0),
    }
    .statement(&mut counter);
    assert_eq!(
        statement,
        Statement {
            text: "INSERT INTO principal_chain (id, first_seen_at, last_seen_at) VALUES ($bind_0, $bind_1, $bind_2) ON DUPLICATE KEY UPDATE last_seen_at = time::max([last_seen_at, $bind_2]) RETURN NONE;".to_string(),
            bindings: vec![b("bind_0", chain.to_value()), b("bind_1", t(1)), b("bind_2", t(2))],
        }
    );

    let user = ResourceId::from_parts(vec![("User", "u")]);
    let bucket = ResourceId::from_parts(vec![("Bucket", "b")]);
    let edge = |direct: bool| Operation::UpsertEvent {
        principal: user.clone(),
        resource: bucket.clone(),
        ty: "read".to_string(),
        principal_chain: chain.clone(),
        has_direct_principal_chain: direct,
        first_seen_at: Timestamp::new(1, 0),
        last_seen_at: Timestamp::new(2, 0),
    };
    let statement = edge(true).statement(&mut counter);
    assert_eq!(counter, 10);
    assert_eq!(
        statement.text,
        "INSERT RELATION INTO event (in, out, type, principal_chains, has_direct_principal_chain, first_seen_at, last_seen_at) VALUES ($bind_3, $bind_4, $bind_5, [$bind_6], $bind_7, $bind_8, $bind_9) ON DUPLICATE KEY UPDATE principal_chains += $bind_6, last_seen_at = time::max([last_seen_at, $bind_9]), has_direct_principal_chain = true RETURN NONE;"
    );
    assert_eq!(
        statement.bindings,
        vec![
            b("bind_3", user.to_record()),
            b("bind_4", bucket.to_record()),
            b("bind_5", Value::Strand("read".to_string())),
            b("bind_6", record("principal_chain", chain.to_value())),
            b("bind_7", Value::Bool(true)),
            b("bind_8", t(1)),
            b("bind_9", t(2)),
        ]
    );
    let statement = edge(false).statement(&mut counter);
    assert!(statement.text.ends_with(
        "last_seen_at = time::max([last_seen_at, $bind_16]) RETURN NONE;"
    ));
    assert_eq!(statement.bindings[4], b("bind_14", Value::Bool(false)));
}

#[test]
fn transaction_frames_the_batch_and_names_every_parameter_once() {
    let batch = vec![
        Operation::UpsertResource {
            id: ResourceId::from_parts(vec![("Host", "h1")]),
            first_seen_at: Timestamp::new(1, 0),
            last_seen_at: Timestamp::new(2, 0),
        },
        Operation::MergeAttributes {
            id: ResourceId::from_parts(vec![("Host", "h1")]),
            attributes: Value::Object(vec![]),
        },
        Operation::UpsertResource {
            id: ResourceId::from_parts(vec![("Host", "h2")]),
            first_seen_at: Timestamp::new(1, 0),
            last_seen_at: Timestamp::new(2, 0),
        },
    ];
    let mut counter = 100;
    let statements = transaction(&batch, &mut counter);
    assert_eq!(counter, 108);
    assert_eq!(statements.len(), 5);
    assert_eq!(
        statements[0],
        Statement {
            text: "BEGIN TRANSACTION;".to_string(),
            bindings: vec![]
        }
    );
    assert_eq!(
        statements[4],
        Statement {
            text: "COMMIT TRANSACTION;".to_string(),
            bindings: vec![]
        }
    );
    let mut expected_counter = 100;
    for (i, op) in batch.iter().enumerate() {
        assert_eq!(statements[i + 1], op.statement(&mut expected_counter));
    }
    let names: Vec<&String> = statements
        .iter()
        .flat_map(|s| s.bindings.iter().map(|(name, _)| name))
        .collect();
    let expected: Vec<String> = (100..108).map(|n| format!("bind_{n}")).collect();
    assert_eq!(names, expected.iter().collect::<Vec<_>>());

    let mut counter = 0;
    assert_eq!(transaction(&vec![], &mut counter).len(), 2);
    assert_eq!(counter, 0);
}

#[test]
fn environment_and_chain_statements() {
    let id = ResourceId::from_parts(vec![("Host", "h1")]);
    let statement = set_environments(&id, &vec!["prod".to_string(), "eu".to_string()]);
    assert_eq!(
        statement,
        Statement {
            text: "BEGIN; UPDATE resource SET environments = $envs WHERE id = $resource_id; COMMIT;"
                .to_string(),
            bindings: vec![
                b(
                    "envs",
                    Value::Array(vec![
                        Value::Strand("prod".to_string()),
                        Value::Strand("eu".to_string())
                    ])
                ),
                b("resource_id", id.to_record()),
            ],
        }
    );
    let chain = PrincipalChainId(vec![]);
    assert_eq!(
        get_principal_chain(&chain),
        Statement {
            text: "SELECT first_seen_at, last_seen_at FROM type::thing('principal_chain', $id)"
                .to_string(),
            bindings: vec![b("id", Value::Array(vec![]))],
        }
    );
}

#[test]
fn key_statements() {
    assert_eq!(
        list_report_api_keys_query(),
        Statement {
            text: "SELECT * FROM report_api_key WHERE type::is::none(revoked_at)".to_string(),
            bindings: vec![]
        }
    );
    let key = ReportApiKey {
        id: 123456,
        description: Some("ci".to_string()),
        created_at: None,
        created_by: User::new(9),
        revoked_at: None,
        revoked_by: None,
    };
    let key_record = record("report_api_key", Value::Int(123456));
    let user_record = record("user", Value::Uuid(9));
    let mut counter = 0;
    assert_eq!(
        create_report_api_key_query(&key, &mut counter),
        Statement {
            text: "CREATE $bind_0 CONTENT { description: $bind_1, created_by: $bind_2 }".to_string(),
            bindings: vec![
                b("bind_0", key_record.deep_clone()),
                b("bind_1", Value::Strand("ci".to_string())),
                b("bind_2", user_record.deep_clone()),
            ],
        }
    );
    assert_eq!(
        revoke_report_api_key_query(123456, &User::new(9), &mut counter),
        Statement {
            text: "UPDATE $bind_3 SET revoked_at = time::now(), revoked_by = $bind_4 WHERE revoked_at IS NONE".to_string(),
            bindings: vec![b("bind_3", key_record.deep_clone()), b("bind_4", user_record)],
        }
    );
    assert_eq!(
        report_api_key_is_valid_query(123456, &mut counter),
        Statement {
            text: "SELECT type::is::none(revoked_at) AS valid FROM $bind_5".to_string(),
            bindings: vec![b("bind_5", key_record)],
        }
    );
    assert_eq!(counter, 6);
    let mut plain = key;
    plain.description = None;
    assert_eq!(
        create_report_api_key_query(&plain, &mut counter).bindings[1],
        b("bind_7", Value::Absent)
    );
}

#[test]
fn account_statements() {
    let account = Account::new_for_testing("1234567890".to_string(), vec![1, 2, 3]);
    let account_record = record("account", Value::Strand("1234567890".to_string()));
    let user = User::new(9);
    let user_record = record("user", Value::Uuid(9));
    let mut counter = 0;
    let statements = create_account_query(&account, &user, &mut counter);
    assert_eq!(counter, 8);
    assert_eq!(statements.len(), 4);
    assert_eq!(statements[0].text, "BEGIN TRANSACTION;");
    assert_eq!(
        statements[1],
        Statement {
            text: "CREATE $bind_0 CONTENT { endpoint: $bind_1, service_data_surrealdb_url: $bind_2, salt: $bind_3, api_private_key: $bind_4, created_by: $bind_5 } RETURN NONE".to_string(),
            bindings: vec![
                b("bind_0", account_record.deep_clone()),
                b("bind_1", Value::Absent),
                b("bind_2", Value::Absent),
                b("bind_3", Value::Bytes(vec![1, 2, 3])),
                b("bind_4", Value::Absent),
                b("bind_5", user_record.deep_clone()),
            ],
        }
    );
    assert_eq!(
        statements[2],
        Statement {
            text: "RELATE $bind_6->has_access->$bind_7 RETURN NONE".to_string(),
            bindings: vec![
                b("bind_6", user_record.deep_clone()),
                b("bind_7", account_record.deep_clone())
            ],
        }
    );
    assert_eq!(statements[3].text, "COMMIT TRANSACTION;");
    assert_eq!(
        get_account_by_id("1234567890", &mut counter),
        Statement {
            text: "SELECT * FROM ONLY $bind_8".to_string(),
            bindings: vec![b("bind_8", account_record.deep_clone())],
        }
    );
    assert_eq!(
        delete_account_query(&account, &user, &mut counter),
        Statement {
            text: "UPDATE $bind_9 CONTENT { deleted_at: time::now(), deleted_by: $bind_10 }"
                .to_string(),
            bindings: vec![b("bind_9", account_record), b("bind_10", user_record)],
        }
    );
}
