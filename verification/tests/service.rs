use archodex_backend::account::{namespace, Account, AccountPublic, Deployment, ServiceDataError};
use archodex_backend::auth::{
    AuthContext, AuthError, AuthProvider, Authorization, DashboardAuth, FixedAuthProvider,
    RealAuthProvider, ReportApiKeyAuth,
};
use archodex_backend::db::{check_first_real_error, surface, Failure, FirstError, StatementError};
use archodex_backend::env::{
    decode_hex, env_with_default_for_empty, select_api_private_key, Env, EnvError, EnvVars,
    KeyCache, KeyMaterialError,
};
use archodex_backend::error::{PublicError, StatusCode};
use archodex_backend::event::Event;
use archodex_backend::next_binding;
use archodex_backend::provisioning::{
    find_field_end, least_loaded, partition_range, table_name_start, wait_step, Wait,
};
use archodex_backend::query::{query, referenced_ids, QueryType, SnapshotStatement};
use archodex_backend::report_api_key::{
    KeyError, ReportApiKey, ReportApiKeyIsValidQueryResponse, ReportApiKeyPublic,
};
use archodex_backend::resource::{Resource, ResourceId};
use archodex_backend::state::{connection_kind, ConnectionError, ConnectionKind, GlobalResourcesDbFactory};
use archodex_backend::timestamp::Timestamp;
use archodex_backend::user::User;

const ENDPOINT: &str = "https://api.example.com";
const KEY: [u8; 16] = [1; 16];

fn err(statement: usize, failure: Failure) -> StatementError {
    StatementError { statement, failure }
}

#[test]
fn bindings_are_numbered_and_the_counter_wraps() {
    let mut counter = 0u64;
    assert_eq!(next_binding(&mut counter), "bind_0");
    assert_eq!(next_binding(&mut counter), "bind_1");
    assert_eq!(counter, 2);
    let mut counter = 1234567890123u64;
    assert_eq!(next_binding(&mut counter), "bind_1234567890123");
    let mut counter = u64::MAX;
    assert_eq!(next_binding(&mut counter), "bind_18446744073709551615");
    assert_eq!(counter, 0);
}

#[test]
fn no_errors_is_success() {
    assert_eq!(check_first_real_error(&vec![]), Ok(()));
    assert_eq!(surface(&vec![], "exists"), Ok(()));
}

#[test]
fn first_real_error_is_the_one_of_the_earliest_statement() {
    let errors = vec![
        err(0, Failure::NotExecuted),
        err(5, Failure::Other),
        err(1, Failure::NotExecuted),
        err(3, Failure::Conflict),
        err(4, Failure::Other),
        err(2, Failure::NotExecuted),
    ];
    assert_eq!(check_first_real_error(&errors), Err(FirstError::Real(3)));
    let e = surface(&errors, "Account already exists").unwrap_err();
    assert_eq!(e.status_code, StatusCode::Conflict);
    assert_eq!(e.message, "Account already exists");

    let errors = vec![err(2, Failure::Other), err(2, Failure::Conflict), err(0, Failure::NotExecuted)];
    assert_eq!(check_first_real_error(&errors), Err(FirstError::Real(0)));
    let e = surface(&errors, "exists").unwrap_err();
    assert_eq!(e.status_code, StatusCode::InternalServerError);
    assert_eq!(e.message, "Internal Server Error");
}

#[test]
fn only_not_executed_errors_are_reported_as_such() {
    let errors = vec![err(0, Failure::NotExecuted), err(1, Failure::NotExecuted)];
    assert_eq!(check_first_real_error(&errors), Err(FirstError::OnlyNotExecuted));
    assert_eq!(
        surface(&errors, "exists").unwrap_err().status_code,
        StatusCode::InternalServerError
    );
}

#[test]
fn snapshot_queries_have_their_statements() {
    assert_eq!(
        query(QueryType::All),
        vec![
            SnapshotStatement::BeginReadonly,
            SnapshotStatement::Declare,
            SnapshotStatement::Resources,
            SnapshotStatement::Events,
            SnapshotStatement::Finish,
        ]
    );
    assert_eq!(
        query(QueryType::Secrets),
        vec![
            SnapshotStatement::BeginReadonly,
            SnapshotStatement::Declare,
            SnapshotStatement::Filter(QueryType::Secrets),
            SnapshotStatement::Finish,
        ]
    );
    assert_eq!(QueryType::parse("all"), Some(QueryType::All));
    assert_eq!(QueryType::parse("secrets"), Some(QueryType::Secrets));
    assert_eq!(QueryType::parse("All"), None);
    assert_eq!(QueryType::parse(""), None);
    assert_eq!(
        SnapshotStatement::Resources.text(),
        Some("$resources = SELECT * FROM resource WHERE id != resource:[] PARALLEL;")
    );
    assert_eq!(SnapshotStatement::Resources.text(), Some(Resource::get_all()));
    assert_eq!(SnapshotStatement::Events.text(), Some(Event::get_all()));
    assert_eq!(
        Event::get_all(),
        "$events = SELECT * OMIT id FROM event PARALLEL;"
    );
    assert!(SnapshotStatement::Declare.text().unwrap().starts_with("LET $resources"));
    assert!(SnapshotStatement::Finish.text().unwrap().ends_with("COMMIT;"));
    assert_eq!(SnapshotStatement::BeginReadonly.text(), None);
    assert_eq!(SnapshotStatement::Filter(QueryType::Secrets).text(), None);
}

#[test]
fn referenced_ids_are_the_distinct_union_in_order_of_first_occurrence() {
    let id = |name: &str| ResourceId::from_parts(vec![("R", name)]);
    let resource = |name: &str| Resource {
        id: id(name),
        environments: vec![],
        first_seen_at: None,
        last_seen_at: None,
        attributes: None,
    };
    let event = |p: &str, r: &str| Event {
        principal: id(p),
        ty: "t".to_string(),
        resource: id(r),
        principal_chains: vec![],
        has_direct_principal_chain: false,
        first_seen_at: Timestamp::new(0, 0),
        last_seen_at: Timestamp::new(0, 0),
    };
    let resources = vec![resource("a"), resource("b"), resource("a")];
    let events = vec![event("c", "a"), event("b", "d"), event("c", "e")];
    assert_eq!(
        referenced_ids(&resources, &events),
        vec![id("a"), id("b"), id("c"), id("d"), id("e")]
    );
    assert_eq!(referenced_ids(&vec![], &vec![]), Vec::<ResourceId>::new());
}

#[test]
fn real_provider_authenticates_a_key_value() {
    let key = ReportApiKey {
        id: 123456,
        description: None,
        created_at: None,
        created_by: User::new(1),
        revoked_at: None,
        revoked_by: None,
    };
    let value = key
        .generate_value("1234567890", vec![0; 16], ENDPOINT, &KEY)
        .unwrap();
    let context = RealAuthProvider
        .authenticate(Authorization::Value(&value), ENDPOINT, &KEY)
        .unwrap();
    assert_eq!(
        context,
        AuthContext {
            account_id: "1234567890".to_string(),
            key_id: 123456
        }
    );
    assert_eq!(context.clone(), context);
    assert_eq!(
        RealAuthProvider.authenticate(Authorization::Missing, ENDPOINT, &KEY),
        Err(AuthError::MissingAuthorization)
    );
    assert_eq!(
        RealAuthProvider.authenticate(Authorization::Unreadable, ENDPOINT, &KEY),
        Err(AuthError::UnreadableAuthorization)
    );
    assert_eq!(
        RealAuthProvider.authenticate(Authorization::Value("Bearer x"), ENDPOINT, &KEY),
        Err(AuthError::InvalidKey(KeyError::MissingPrefix))
    );
    assert_eq!(
        RealAuthProvider.authenticate(Authorization::Value(&value), "https://other", &KEY),
        Err(AuthError::InvalidKey(KeyError::IncorrectEndpoint))
    );

    let auth = ReportApiKeyAuth::authenticate(Authorization::Value(&value), ENDPOINT, &KEY).unwrap();
    assert_eq!(auth.account_id(), "1234567890");
    assert_eq!(auth.key_id, 123456);
}

#[test]
fn every_failed_authentication_is_answered_alike() {
    let answers = [
        ReportApiKeyAuth::authenticate(Authorization::Missing, ENDPOINT, &KEY).unwrap_err(),
        ReportApiKeyAuth::authenticate(Authorization::Unreadable, ENDPOINT, &KEY).unwrap_err(),
        ReportApiKeyAuth::authenticate(Authorization::Value("nonsense"), ENDPOINT, &KEY).unwrap_err(),
        ReportApiKeyAuth::authenticate(
            Authorization::Value("archodex_report_api_key_123456_AAAA"),
            ENDPOINT,
            &KEY,
        )
        .unwrap_err(),
    ];
    let auth = ReportApiKeyAuth::from_credentials("1234567890".to_string(), 123456);
    let access = [
        auth.validate_account_access(None).unwrap_err(),
        auth.validate_account_access(Some(false)).unwrap_err(),
    ];
    for e in answers.iter().chain(access.iter()) {
        assert_eq!(e, &PublicError::unauthorized());
        assert_eq!(e.status_code, StatusCode::Unauthorized);
        assert_eq!(e.to_text(), "401 Unauthorized: Unauthorized");
    }
    assert_eq!(auth.validate_account_access(Some(true)), Ok(()));
}

#[test]
fn fixed_provider_returns_its_context() {
    let provider = FixedAuthProvider::new("test_account_123", 99999);
    for header in [Authorization::Missing, Authorization::Value("anything")] {
        let context = provider.authenticate(header, ENDPOINT, &KEY).unwrap();
        assert_eq!(context.account_id, "test_account_123");
        assert_eq!(context.key_id, 99999);
    }
}

#[test]
fn dashboard_access_is_not_found_without_access() {
    let auth = DashboardAuth {
        principal: User::new(5),
    };
    assert_eq!(auth.principal(), &User::new(5));
    assert_eq!(auth.validate_account_access(true), Ok(()));
    let e = auth.validate_account_access(false).unwrap_err();
    assert_eq!(e.status_code, StatusCode::NotFound);
    assert_eq!(e.to_text(), "404 Not Found: Account not found");
}

#[test]
fn public_errors_have_status_and_text() {
    assert_eq!(
        PublicError::conflict("Account already exists").to_text(),
        "409 Conflict: Account already exists"
    );
    assert_eq!(PublicError::bad_request("bad").to_text(), "400 Bad Request: bad");
    assert_eq!(PublicError::forbidden("no").to_text(), "403 Forbidden: no");
    assert_eq!(PublicError::not_found("gone").to_text(), "404 Not Found: gone");
    assert_eq!(
        PublicError::internal().to_text(),
        "500 Internal Server Error: Internal Server Error"
    );
    assert_eq!(PublicError::new(StatusCode::Conflict, "x").status_code.code(), 409);
    let codes: Vec<u16> = [
        StatusCode::BadRequest,
        StatusCode::Unauthorized,
        StatusCode::Forbidden,
        StatusCode::NotFound,
        StatusCode::Conflict,
        StatusCode::InternalServerError,
    ]
    .iter()
    .map(|s| s.code())
    .collect();
    assert_eq!(codes, vec![400, 401, 403, 404, 409, 500]);
    assert_eq!(StatusCode::NotFound.canonical_reason(), "Not Found");
}

#[test]
fn key_records_are_shown_without_their_history() {
    let key = ReportApiKey {
        id: 123456,
        description: Some("ci".to_string()),
        created_at: Some(Timestamp::new(5, 0)),
        created_by: User::new(1),
        revoked_at: Some(Timestamp::new(6, 0)),
        revoked_by: Some(User::new(2)),
    };
    assert_eq!(
        ReportApiKeyPublic::from(key),
        ReportApiKeyPublic {
            id: 123456,
            description: Some("ci".to_string()),
            created_at: Some(Timestamp::new(5, 0)),
        }
    );
    assert!(ReportApiKeyIsValidQueryResponse { valid: true }.is_valid());
    assert!(!ReportApiKeyIsValidQueryResponse { valid: false }.is_valid());
}

#[test]
fn account_ids_are_ten_digit_numbers_within_the_limit_of_accounts() {
    let user = User::new(9);
    for owned in 0..5 {
        for _ in 0..50 {
            let id = user.next_account_id(owned).unwrap();
            assert_eq!(id.len(), 10);
            let n: u64 = id.parse().unwrap();
            assert!((1_000_000_000..=9_999_999_999).contains(&n));
        }
    }
    for owned in [5, 6, u32::MAX] {
        let e = user.next_account_id(owned).unwrap_err();
        assert_eq!(e.status_code, StatusCode::Conflict);
        assert_eq!(e.message, "User account limit exceeded");
    }
    assert_eq!(Env::user_account_limit(), 5);
    let drawn: std::collections::HashSet<String> = (0..200)
        .map(|_| user.next_account_id(0).unwrap())
        .collect();
    assert!(drawn.len() > 1);
}

#[test]
fn new_accounts_have_a_salt_and_maybe_a_key() {
    let a = Account::new_self_hosted("1".to_string(), User::new(1), false);
    assert_eq!(a.salt().len(), 16);
    assert_eq!(a.api_private_key.as_ref().map(|k| k.len()), Some(16));
    assert_eq!(a.created_by, Some(User::new(1)));
    let b = Account::new_self_hosted("1".to_string(), User::new(1), true);
    assert_eq!(b.api_private_key, None);
    assert_ne!(a.salt, b.salt);
    let c = Account::new_managed(
        "https://e".to_string(),
        "7".to_string(),
        User::new(2),
        Some("dynamodb://x".to_string()),
    );
    assert_eq!(c.id(), "7");
    assert_eq!(c.endpoint, Some("https://e".to_string()));
    assert_eq!(c.service_data_surrealdb_url(), Some("dynamodb://x"));
    assert_eq!(c.salt.len(), 16);
    let t = Account::new_for_testing("t".to_string(), vec![1, 2]);
    assert_eq!(t.salt(), &[1, 2]);
    assert_eq!(t.created_by, None);
    assert_eq!(
        AccountPublic::from(c),
        AccountPublic {
            id: "7".to_string(),
            endpoint: Some("https://e".to_string())
        }
    );
    assert!(Account::hosts_service_data("https://e", "https://e"));
    assert!(!Account::hosts_service_data("https://e", "https://f"));
}

#[test]
fn stores_are_located_by_deployment() {
    let hosted = Account::new_managed(
        "e".to_string(),
        "7".to_string(),
        User::new(2),
        Some("dynamodb://x".to_string()),
    );
    let remote = Account::new_managed("e".to_string(), "8".to_string(), User::new(2), None);
    assert_eq!(hosted.resources_url(Deployment::Managed, "rocksdb://db"), Ok("dynamodb://x"));
    assert_eq!(
        remote.resources_url(Deployment::Managed, "rocksdb://db"),
        Err(ServiceDataError::NoServiceDataUrl)
    );
    assert_eq!(remote.resources_url(Deployment::SelfHosted, "rocksdb://db"), Ok("rocksdb://db"));
    assert_eq!(namespace(Deployment::Managed, "1234567890"), "a1234567890");
    assert_eq!(namespace(Deployment::SelfHosted, "1234567890"), "archodex");

    let factory = GlobalResourcesDbFactory;
    assert_eq!(factory.resources_url(Deployment::Managed, Some("u"), "d"), Ok("u"));
    assert_eq!(factory.resources_url(Deployment::SelfHosted, Some("u"), "d"), Ok("u"));
    assert_eq!(factory.resources_url(Deployment::SelfHosted, None, "d"), Ok("d"));
    assert_eq!(
        factory.resources_url(Deployment::Managed, None, "d"),
        Err(ConnectionError::MissingServiceUrl)
    );
    assert_eq!(connection_kind("rocksdb://db"), ConnectionKind::Nonconcurrent);
    assert_eq!(connection_kind("rocksdb:"), ConnectionKind::Nonconcurrent);
    assert_eq!(connection_kind("ws://localhost:8000"), ConnectionKind::Concurrent);
    assert_eq!(connection_kind("rocksdb"), ConnectionKind::Concurrent);
    assert_eq!(connection_kind(""), ConnectionKind::Concurrent);
}

fn vars() -> EnvVars {
    EnvVars {
        port: None,
        archodex_domain: None,
        accounts_surrealdb_url: None,
        surrealdb_url: None,
        surrealdb_username: None,
        surrealdb_password: None,
        endpoint: None,
        cognito_user_pool_id: None,
        cognito_client_id: None,
    }
}

#[test]
fn self_hosted_environment_has_defaults() {
    let env = Env::from_vars(vars(), Deployment::SelfHosted).unwrap();
    assert_eq!(env.port(), 5732);
    assert_eq!(env.archodex_domain(), "archodex.com");
    assert_eq!(env.accounts_surrealdb_url(), "rocksdb://db");
    assert_eq!(env.surrealdb_url, Some("rocksdb://db".to_string()));
    assert_eq!(env.surrealdb_creds(), &None);
    assert_eq!(env.endpoint(), None);
    assert_eq!(env.surrealdb_url(), Some("rocksdb://db"));
    assert_eq!(env.cognito_user_pool_id(), "us-west-2_Mf1K95El6");
    assert_eq!(env.cognito_client_id(), "1a5vsre47o6pa39p3p81igfken");
}

#[test]
fn environment_values_are_read_and_checked() {
    let mut v = vars();
    v.port = Some("8080".to_string());
    v.archodex_domain = Some("".to_string());
    v.surrealdb_url = Some("ws://db:8000".to_string());
    v.surrealdb_username = Some("root".to_string());
    v.surrealdb_password = Some("secret".to_string());
    v.cognito_client_id = Some("client".to_string());
    let env = Env::from_vars(v, Deployment::SelfHosted).unwrap();
    assert_eq!(env.port, 8080);
    assert_eq!(env.archodex_domain, "archodex.com");
    assert_eq!(env.accounts_surrealdb_url, "ws://db:8000");
    let creds = env.surrealdb_creds.unwrap();
    assert_eq!((creds.username.as_str(), creds.password.as_str()), ("root", "secret"));
    assert_eq!(env.cognito_client_id, "client");

    let mut m = vars();
    m.accounts_surrealdb_url = Some("ws://accounts".to_string());
    m.endpoint = Some("https://e".to_string());
    let env = Env::from_vars(m, Deployment::Managed).unwrap();
    assert_eq!(env.port, 5731);
    assert_eq!(env.accounts_surrealdb_url, "ws://accounts");
    assert_eq!(env.surrealdb_url, None);
    assert_eq!(env.endpoint, Some("https://e".to_string()));
    let mut h = vars();
    h.endpoint = Some("https://self".to_string());
    assert_eq!(
        Env::from_vars(h, Deployment::SelfHosted).unwrap().endpoint(),
        Some("https://self")
    );
}

#[test]
fn environment_errors_are_named() {
    let check = |change: &dyn Fn(&mut EnvVars), deployment: Deployment, expected: EnvError| {
        let mut v = vars();
        if deployment == Deployment::Managed {
            v.accounts_surrealdb_url = Some("ws://accounts".to_string());
            v.endpoint = Some("https://e".to_string());
        }
        change(&mut v);
        assert_eq!(Env::from_vars(v, deployment), Err(expected));
    };
    for port in ["", "http", "65536", "-1", "80 "] {
        check(&|v| v.port = Some(port.to_string()), Deployment::SelfHosted, EnvError::InvalidPort);
    }
    check(
        &|v| v.accounts_surrealdb_url = Some("x".to_string()),
        Deployment::SelfHosted,
        EnvError::UnexpectedAccountsUrl,
    );
    check(&|v| v.accounts_surrealdb_url = None, Deployment::Managed, EnvError::MissingAccountsUrl);
    check(
        &|v| v.surrealdb_url = Some("x".to_string()),
        Deployment::Managed,
        EnvError::UnexpectedStoreUrl,
    );
    check(&|v| v.endpoint = None, Deployment::Managed, EnvError::MissingEndpoint);
    check(
        &|v| v.surrealdb_username = Some("root".to_string()),
        Deployment::SelfHosted,
        EnvError::IncompleteCredentials,
    );
    check(
        &|v| {
            v.surrealdb_username = Some("".to_string());
            v.surrealdb_password = Some("p".to_string());
        },
        Deployment::Managed,
        EnvError::IncompleteCredentials,
    );
    assert_eq!(env_with_default_for_empty(&None, "d"), "d");
    assert_eq!(env_with_default_for_empty(&Some("".to_string()), "d"), "d");
    assert_eq!(env_with_default_for_empty(&Some("v".to_string()), "d"), "v");
}

#[test]
fn hexadecimal_text_is_decoded() {
    assert_eq!(decode_hex(b""), Some(vec![]));
    assert_eq!(decode_hex(b"00ff10Ab"), Some(vec![0x00, 0xff, 0x10, 0xab]));
    assert_eq!(decode_hex(b"DEADbeef"), Some(vec![0xde, 0xad, 0xbe, 0xef]));
    assert_eq!(decode_hex(b"0"), None);
    assert_eq!(decode_hex(b"0g"), None);
    assert_eq!(decode_hex(b"g0"), None);
    assert_eq!(decode_hex(b"00 1"), None);
    assert_eq!(decode_hex(b"0x10"), None);
}

#[test]
fn private_key_comes_from_exactly_one_source() {
    let hex = "000102030405060708090a0b0c0d0e0f".to_string();
    let bytes: Vec<u8> = (0..16).collect();
    let mut key = [0u8; 16];
    key.copy_from_slice(&bytes);
    assert_eq!(select_api_private_key(None, Some(hex.clone())), Ok(key));
    assert_eq!(select_api_private_key(Some(bytes.clone()), None), Ok(key));
    assert_eq!(
        select_api_private_key(Some(bytes.clone()), Some(hex)),
        Err(KeyMaterialError::BothSources)
    );
    assert_eq!(select_api_private_key(None, None), Err(KeyMaterialError::NoSource));
    assert_eq!(
        select_api_private_key(None, Some("zz".to_string())),
        Err(KeyMaterialError::InvalidHex)
    );
    assert_eq!(
        select_api_private_key(Some(bytes), Some("zz".to_string())),
        Err(KeyMaterialError::InvalidHex)
    );
    assert_eq!(
        select_api_private_key(None, Some("0011".to_string())),
        Err(KeyMaterialError::InvalidLength)
    );
    assert_eq!(
        select_api_private_key(Some(vec![1; 15]), None),
        Err(KeyMaterialError::InvalidLength)
    );
}

#[test]
fn key_cache_loads_once_and_clears_generated_keys_only() {
    let mut cache = KeyCache::new();
    assert_eq!(cache.get(), None);
    assert_eq!(cache.store([1; 16]), [1; 16]);
    assert_eq!(cache.store([2; 16]), [1; 16]);
    assert_eq!(cache.get(), Some([1; 16]));
    cache.clear(true);
    assert_eq!(cache.get(), Some([1; 16]));
    cache.clear(false);
    assert_eq!(cache.get(), None);
    assert_eq!(cache.store([3; 16]), [3; 16]);
}

#[test]
fn provisioning_decisions() {
    assert_eq!(least_loaded(&vec![]), None);
    assert_eq!(least_loaded(&vec![7]), Some(0));
    assert_eq!(least_loaded(&vec![5, 3, 9, 3, 4]), Some(1));
    assert_eq!(least_loaded(&vec![0, 0]), Some(0));
    assert_eq!(wait_step(true, 100), Wait::Done);
    assert_eq!(wait_step(false, 0), Wait::Retry);
    assert_eq!(wait_step(false, 30), Wait::Retry);
    assert_eq!(wait_step(false, 31), Wait::TimedOut);

    let arn = "arn:aws-us-gov:sts::123456789012:assumed-role/role/session";
    assert_eq!(partition_range(arn), Some((4, 14)));
    assert_eq!(&arn[4..14], "aws-us-gov");
    assert_eq!(partition_range("arn:aws"), Some((4, 7)));
    assert_eq!(partition_range("arn:"), Some((4, 4)));
    assert_eq!(partition_range("::"), Some((1, 1)));
    assert_eq!(partition_range("arn"), None);
    assert_eq!(partition_range(""), None);
    assert_eq!(find_field_end(b"ab:cd", 0), 2);
    assert_eq!(find_field_end(b"ab:cd", 2), 2);
    assert_eq!(find_field_end(b"ab:cd", 3), 5);
    assert_eq!(find_field_end(b"ab:cd", 5), 5);

    assert_eq!(table_name_start("dynamodb://arn:aws:dynamodb:us-west-2:1:table/t-"), Some(11));
    assert_eq!(table_name_start("dynamodb://"), Some(11));
    assert_eq!(table_name_start("dynamodb:/x"), None);
    assert_eq!(table_name_start("rocksdb://db"), None);
}
