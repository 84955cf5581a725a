use archodex_backend::account::Account;
use archodex_backend::error::{PublicError, StatusCode};
use archodex_backend::event::Event;
use archodex_backend::global_container::GlobalContainer;
use archodex_backend::principal_chain::MalformedChain;
use archodex_backend::query::QueryResponse;
use archodex_backend::records::{
    accounts_of, api_private_key_of, has_keys_once, num_user_accounts_of,
};
use archodex_backend::report::ReportError;
use archodex_backend::report_api_key::{
    route_key_id, KeyError, ReportApiKey, ReportApiKeyIsValidQueryResponse,
};
use archodex_backend::resource::{MalformedIdentity, Resource, ResourceId};
use archodex_backend::shapes::{parse_list, GetResponse, Malformed};
use archodex_backend::timestamp::Timestamp;
use archodex_backend::user::User;
use archodex_backend::value::Value;

fn s(text: &str) -> Value {
    Value::Strand(text.to_string())
}

fn obj(entries: Vec<(&str, Value)>) -> Value {
    Value::Object(entries.into_iter().map(|(k, v)| (k.to_string(), v)).collect())
}

fn record(table: &str, key: Value) -> Value {
    Value::Record(table.to_string(), Box::new(key))
}

fn at(secs: i64) -> Value {
    Value::Datetime(Timestamp::new(secs, 0))
}

fn host() -> ResourceId {
    ResourceId::from_parts(vec![("Host", "h1")])
}

#[test]
fn resource_is_read_from_a_row() {
    let row = obj(vec![
        ("id", host().to_record()),
        ("environments", Value::Array(vec![s("prod"), s("eu")])),
        ("first_seen_at", at(1)),
        ("last_seen_at", at(2)),
        ("attributes", obj(vec![("os", s("linux"))])),
        ("other", Value::Int(1)),
    ]);
    assert_eq!(
        Resource::parse(&row),
        Ok(Resource {
            id: host(),
            environments: vec!["prod".to_string(), "eu".to_string()],
            first_seen_at: Some(Timestamp::new(1, 0)),
            last_seen_at: Some(Timestamp::new(2, 0)),
            attributes: Some(obj(vec![("os", s("linux"))])),
        })
    );
    assert_eq!(
        Resource::parse(&obj(vec![("id", host().to_value())])),
        Ok(Resource {
            id: host(),
            environments: vec![],
            first_seen_at: None,
            last_seen_at: None,
            attributes: None,
        })
    );
    assert_eq!(
        Resource::parse(&obj(vec![
            ("id", host().to_value()),
            ("first_seen_at", Value::Null),
            ("last_seen_at", Value::Absent),
            ("attributes", Value::Null),
        ]))
        .unwrap()
        .first_seen_at,
        None
    );
}

#[test]
fn malformed_resources_are_refused() {
    let bad = vec![
        obj(vec![]),
        obj(vec![("id", s("h1"))]),
        obj(vec![("id", host().to_value()), ("id", host().to_value())]),
        obj(vec![("id", host().to_value()), ("environments", s("prod"))]),
        obj(vec![("id", host().to_value()), ("environments", Value::Array(vec![Value::Int(1)]))]),
        obj(vec![("id", host().to_value()), ("first_seen_at", s("yesterday"))]),
        obj(vec![("id", host().to_value()), ("last_seen_at", at(1)), ("last_seen_at", at(2))]),
        obj(vec![("id", host().to_value()), ("attributes", Value::Array(vec![]))]),
        Value::Array(vec![]),
    ];
    for v in bad {
        assert_eq!(Resource::parse(&v), Err(Malformed), "{v:?}");
    }
}

#[test]
fn global_container_is_read_from_a_row() {
    let api = ResourceId::from_parts(vec![("Api", "stripe")]);
    let inside = ResourceId::from_parts(vec![("Api", "stripe"), ("Endpoint", "charges")]);
    let row = obj(vec![("id", api.to_record()), ("contains", inside.to_value())]);
    assert_eq!(
        GlobalContainer::parse(&row),
        Ok(GlobalContainer {
            id: api.clone(),
            contains: inside
        })
    );
    assert_eq!(GlobalContainer::parse(&obj(vec![("id", api.to_value())])), Err(Malformed));
    assert_eq!(
        GlobalContainer::parse(&obj(vec![("id", api.to_value()), ("contains", s("x"))])),
        Err(Malformed)
    );
    assert_eq!(GlobalContainer::parse(&Value::Null), Err(Malformed));
}

#[test]
fn snapshot_is_read_from_the_document_of_the_query() {
    let resource = obj(vec![("id", host().to_record())]);
    let container = obj(vec![("id", host().to_value()), ("contains", host().to_value())]);
    let full = obj(vec![
        ("resources", Value::Array(vec![resource.deep_clone()])),
        ("events", Value::Array(vec![])),
        ("global_containers", Value::Array(vec![container])),
    ]);
    let response = QueryResponse::parse(&full).unwrap();
    assert_eq!(response.resources.len(), 1);
    assert_eq!(response.resources[0].id, host());
    assert_eq!(response.events, Some(vec![]));
    assert_eq!(response.global_containers.len(), 1);

    let without_events = obj(vec![
        ("resources", Value::Array(vec![])),
        ("global_containers", Value::Array(vec![])),
    ]);
    assert_eq!(
        QueryResponse::parse(&without_events),
        Ok(QueryResponse {
            resources: vec![],
            events: None,
            global_containers: vec![]
        })
    );

    let bad = vec![
        obj(vec![("resources", Value::Array(vec![]))]),
        obj(vec![("global_containers", Value::Array(vec![]))]),
        obj(vec![
            ("resources", Value::Array(vec![s("x")])),
            ("global_containers", Value::Array(vec![])),
        ]),
        obj(vec![
            ("resources", Value::Array(vec![])),
            ("global_containers", Value::Array(vec![])),
            ("events", Value::Array(vec![Value::Null])),
        ]),
        obj(vec![
            ("resources", Value::Array(vec![])),
            ("global_containers", s("none")),
        ]),
        Value::Array(vec![]),
    ];
    for v in bad {
        assert_eq!(QueryResponse::parse(&v), Err(Malformed), "{v:?}");
    }
    assert_eq!(parse_list::<Event>(&Value::Array(vec![])), Ok(vec![]));
    assert_eq!(parse_list::<Resource>(&Value::Array(vec![resource])).unwrap().len(), 1);
    assert_eq!(parse_list::<Resource>(&Value::Null), Err(Malformed));
}

#[test]
fn time_range_of_a_chain_is_read_or_not_found() {
    let row = obj(vec![("first_seen_at", at(1)), ("last_seen_at", at(9))]);
    let range = GetResponse::parse(&row).unwrap();
    assert_eq!(
        range,
        GetResponse {
            first_seen_at: Timestamp::new(1, 0),
            last_seen_at: Timestamp::new(9, 0)
        }
    );
    assert_eq!(GetResponse::parse(&obj(vec![("first_seen_at", at(1))])), Err(Malformed));
    assert_eq!(
        GetResponse::parse(&obj(vec![("first_seen_at", at(1)), ("last_seen_at", Value::Null)])),
        Err(Malformed)
    );
    assert_eq!(GetResponse::found(Some(range)), Ok(range));
    let e = GetResponse::found(None).unwrap_err();
    assert_eq!(e.status_code, StatusCode::NotFound);
    assert_eq!(e.message, "Principal chain does not exist");
}

#[test]
fn key_record_is_read_from_a_row() {
    let row = obj(vec![
        ("id", record("report_api_key", Value::Int(123456))),
        ("description", s("ci")),
        ("created_at", at(5)),
        ("created_by", record("user", Value::Uuid(7))),
        ("revoked_at", Value::Absent),
    ]);
    assert_eq!(
        ReportApiKey::parse(&row),
        Ok(ReportApiKey {
            id: 123456,
            description: Some("ci".to_string()),
            created_at: Some(Timestamp::new(5, 0)),
            created_by: User::new(7),
            revoked_at: None,
            revoked_by: None,
        })
    );
    let revoked = obj(vec![
        ("id", Value::Int(123456)),
        ("created_by", Value::Uuid(7)),
        ("revoked_at", at(6)),
        ("revoked_by", record("user", Value::Uuid(8))),
    ]);
    let key = ReportApiKey::parse(&revoked).unwrap();
    assert_eq!(key.revoked_at, Some(Timestamp::new(6, 0)));
    assert_eq!(key.revoked_by, Some(User::new(8)));
    assert_eq!(key.description, None);

    let bad = vec![
        obj(vec![("created_by", Value::Uuid(7))]),
        obj(vec![("id", Value::Int(1))]),
        obj(vec![("id", Value::Int(-1)), ("created_by", Value::Uuid(7))]),
        obj(vec![("id", Value::Int(1)), ("created_by", s("someone"))]),
        obj(vec![("id", Value::Int(1)), ("created_by", Value::Uuid(7)), ("description", Value::Int(1))]),
        obj(vec![("id", Value::Int(1)), ("created_by", Value::Uuid(7)), ("id", Value::Int(1))]),
        obj(vec![("id", Value::Int(1)), ("created_by", Value::Uuid(7)), ("revoked_by", s("x"))]),
        Value::Null,
    ];
    for v in bad {
        assert_eq!(ReportApiKey::parse(&v), Err(Malformed), "{v:?}");
    }
}

#[test]
fn account_record_is_read_from_a_row() {
    let row = obj(vec![
        ("id", record("account", s("1234567890"))),
        ("salt", Value::Bytes(vec![1; 16])),
        ("api_private_key", Value::Bytes(vec![2; 16])),
        ("created_by", record("user", Value::Uuid(7))),
        ("created_at", at(5)),
        ("endpoint", Value::Absent),
    ]);
    assert_eq!(
        Account::parse(&row),
        Ok(Account {
            id: "1234567890".to_string(),
            endpoint: None,
            service_data_surrealdb_url: None,
            salt: vec![1; 16],
            api_private_key: Some(vec![2; 16]),
            created_at: Some(Timestamp::new(5, 0)),
            created_by: Some(User::new(7)),
            deleted_at: None,
            deleted_by: None,
        })
    );
    let managed = obj(vec![
        ("id", s("7")),
        ("salt", Value::Bytes(vec![])),
        ("endpoint", s("https://e")),
        ("service_data_surrealdb_url", s("dynamodb://x")),
        ("deleted_at", at(9)),
        ("deleted_by", Value::Uuid(3)),
    ]);
    let account = Account::parse(&managed).unwrap();
    assert_eq!(account.endpoint, Some("https://e".to_string()));
    assert_eq!(account.service_data_surrealdb_url(), Some("dynamodb://x"));
    assert_eq!(account.deleted_by, Some(User::new(3)));

    let bad = vec![
        obj(vec![("salt", Value::Bytes(vec![]))]),
        obj(vec![("id", s("7"))]),
        obj(vec![("id", Value::Int(7)), ("salt", Value::Bytes(vec![]))]),
        obj(vec![("id", s("7")), ("salt", s("salt"))]),
        obj(vec![("id", s("7")), ("salt", Value::Bytes(vec![])), ("api_private_key", s("k"))]),
        obj(vec![("id", s("7")), ("salt", Value::Bytes(vec![])), ("created_at", s("now"))]),
        obj(vec![("id", s("7")), ("salt", Value::Bytes(vec![])), ("salt", Value::Bytes(vec![]))]),
        Value::Absent,
    ];
    for v in bad {
        assert_eq!(Account::parse(&v), Err(Malformed), "{v:?}");
    }
    assert!(has_keys_once(&vec![("a".to_string(), Value::Null), ("b".to_string(), Value::Null)]));
    assert!(!has_keys_once(&vec![
        ("a".to_string(), Value::Null),
        ("b".to_string(), Value::Null),
        ("a".to_string(), Value::Null)
    ]));
}

#[test]
fn errors_of_malformed_input_are_bad_requests() {
    let e = PublicError::malformed_identity(MalformedIdentity::PartNotAPair);
    assert_eq!(e.status_code, StatusCode::BadRequest);
    assert_eq!(e.message, MalformedIdentity::PartNotAPair.message());
    let e = PublicError::malformed_chain(MalformedChain::MissingId);
    assert_eq!(
        e.to_text(),
        "400 Bad Request: principal chain part is an object missing the `id` key"
    );
    assert_eq!(
        PublicError::malformed_chain(MalformedChain::Id(MalformedIdentity::NotAnArray)).message,
        "resource id is not an array"
    );
    let e = PublicError::refused_report(ReportError::EmptyEventList { capture: 3 });
    assert_eq!(e.to_text(), "400 Bad Request: event capture lists no events");

    assert_eq!(KeyError::MissingPrefix.status_code(), StatusCode::BadRequest);
    assert_eq!(KeyError::InvalidBase64.status_code(), StatusCode::BadRequest);
    assert_eq!(KeyError::InvalidSaltLength.status_code(), StatusCode::BadRequest);
    assert_eq!(KeyError::IncorrectEndpoint.status_code(), StatusCode::Unauthorized);
    assert_eq!(KeyError::DecryptionFailed.status_code(), StatusCode::Unauthorized);
    assert_eq!(KeyError::AccountIdOutOfRange.status_code(), StatusCode::Unauthorized);
    assert_eq!(KeyError::EncryptionFailed.status_code(), StatusCode::InternalServerError);
}

#[test]
fn small_answers_of_the_store_are_read() {
    assert_eq!(
        ReportApiKeyIsValidQueryResponse::parse(&obj(vec![("valid", Value::Bool(true))])),
        Ok(ReportApiKeyIsValidQueryResponse { valid: true })
    );
    assert_eq!(
        ReportApiKeyIsValidQueryResponse::parse(&obj(vec![("valid", Value::Bool(false))])),
        Ok(ReportApiKeyIsValidQueryResponse { valid: false })
    );
    assert_eq!(
        ReportApiKeyIsValidQueryResponse::parse(&obj(vec![("valid", Value::Int(1))])),
        Err(Malformed)
    );
    assert_eq!(ReportApiKeyIsValidQueryResponse::parse(&obj(vec![])), Err(Malformed));
    assert_eq!(ReportApiKeyIsValidQueryResponse::parse(&Value::Bool(true)), Err(Malformed));

    assert_eq!(
        api_private_key_of(&obj(vec![("api_private_key", Value::Bytes(vec![1, 2]))])),
        Ok(Some(vec![1, 2]))
    );
    assert_eq!(api_private_key_of(&obj(vec![("api_private_key", Value::Absent)])), Ok(None));
    assert_eq!(api_private_key_of(&obj(vec![])), Ok(None));
    assert_eq!(api_private_key_of(&obj(vec![("api_private_key", s("k"))])), Err(Malformed));
    assert_eq!(api_private_key_of(&Value::Null), Err(Malformed));

    let account = obj(vec![("id", s("7")), ("salt", Value::Bytes(vec![9]))]);
    let listed = accounts_of(&obj(vec![("accounts", Value::Array(vec![account]))])).unwrap();
    assert_eq!(listed.len(), 1);
    assert_eq!(listed[0].id(), "7");
    assert_eq!(accounts_of(&obj(vec![])), Ok(vec![]));
    assert_eq!(accounts_of(&obj(vec![("accounts", Value::Array(vec![s("x")]))])), Err(Malformed));
    assert_eq!(accounts_of(&Value::Array(vec![])), Err(Malformed));

    assert_eq!(num_user_accounts_of(&obj(vec![("num_user_accounts", Value::Int(3))])), Ok(3));
    assert_eq!(
        num_user_accounts_of(&obj(vec![("num_user_accounts", Value::Int(-3))])),
        Err(Malformed)
    );
    assert_eq!(num_user_accounts_of(&obj(vec![])), Err(Malformed));

    assert_eq!(route_key_id("123456"), Ok(123456));
    let e = route_key_id("12x").unwrap_err();
    assert_eq!(e.to_text(), "400 Bad Request: Invalid route key ID");
}
