//! Accounts: the tenants of the graph.

use vstd::prelude::*;
use vstd::string::*;
use crate::crypto::random_bytes;
use crate::principal_chain::{clone_opt_string, opt_str_view};
use crate::statement::{advance, name_at, Statement};
use crate::text::{copy_bytes, copy_str, str_eq};
use crate::timestamp::Timestamp;
use crate::user::User;
use crate::value::{entries_view, Value, ValueView};
use crate::next_binding;

verus! {

/// How the backend is deployed.
#[derive(Clone, Copy, Debug, PartialEq, Eq, Structural)]
pub enum Deployment {
    /// The managed service: many accounts, each with service data of its
    /// own, and one private key for all key values.
    Managed,
    /// A self-hosted backend: one account, whose private key may be kept in
    /// the account's record.
    SelfHosted,
}

/// An account as the store holds it.
#[derive(Debug, PartialEq, Eq)]
pub struct Account {
    pub id: String,
    /// The endpoint that serves the account, in the managed service.
    pub endpoint: Option<String>,
    /// Where the account's service data lies, in the managed service, if
    /// this deployment hosts it.
    pub service_data_surrealdb_url: Option<String>,
    pub salt: Vec<u8>,
    /// The private key for key values, where a self-hosted backend keeps it
    /// in the record.
    pub api_private_key: Option<Vec<u8>>,
    pub created_at: Option<Timestamp>,
    pub created_by: Option<User>,
    pub deleted_at: Option<Timestamp>,
    pub deleted_by: Option<User>,
}

/// What clients are told of an account.
#[derive(Debug, PartialEq, Eq)]
pub struct AccountPublic {
    pub id: String,
    pub endpoint: Option<String>,
}

/// Why the service data of an account cannot be reached.
#[derive(Clone, Copy, Debug, PartialEq, Eq, Structural)]
pub enum ServiceDataError {
    /// No location of the service data is configured for the account.
    NoServiceDataUrl,
}

impl AccountPublic {
    /// What clients are told of the account.
    pub fn from(record: Account) -> (r: AccountPublic)
        ensures
            r.id == record.id,
            r.endpoint == record.endpoint,
    {
        AccountPublic { id: record.id, endpoint: record.endpoint }
    }
}

impl Account {
    /// Whether this deployment hosts the service data of an account that is
    /// served by `endpoint`: it does so for its own endpoint only.
    pub fn hosts_service_data(endpoint: &str, own_endpoint: &str) -> (r: bool)
        ensures
            r == (endpoint@ == own_endpoint@),
    {
        str_eq(endpoint, own_endpoint)
    }

    /// A new account of the managed service, with a fresh random salt.
    /// `service_data_surrealdb_url` is where its service data was created,
    /// if this deployment hosts it.
    pub fn new_managed(
        endpoint: String,
        id: String,
        principal: User,
        service_data_surrealdb_url: Option<String>,
    ) -> (r: Account)
        ensures
            r.id == id,
            r.endpoint == Some(endpoint),
            r.service_data_surrealdb_url == service_data_surrealdb_url,
            r.salt@.len() == 16,
            r.api_private_key is None,
            r.created_at is None,
            r.created_by == Some(principal),
            r.deleted_at is None,
            r.deleted_by is None,
    {
        Account {
            id,
            endpoint: Some(endpoint),
            service_data_surrealdb_url,
            salt: random_bytes(),
            api_private_key: None,
            created_at: None,
            created_by: Some(principal),
            deleted_at: None,
            deleted_by: None,
        }
    }

    /// A new account of a self-hosted backend, with a fresh random salt.
    /// Where the private key is not given in the environment, a fresh random
    /// one is kept in the record.
    pub fn new_self_hosted(id: String, principal: User, key_in_environment: bool) -> (r: Account)
        ensures
            r.id == id,
            r.endpoint is None,
            r.service_data_surrealdb_url is None,
            r.salt@.len() == 16,
            r.api_private_key is Some <==> !key_in_environment,
            r.api_private_key matches Some(key) ==> key@.len() == 16,
            r.created_at is None,
            r.created_by == Some(principal),
            r.deleted_at is None,
            r.deleted_by is None,
    {
        let api_private_key = if key_in_environment {
            None
        } else {
            Some(random_bytes())
        };
        Account {
            id,
            endpoint: None,
            service_data_surrealdb_url: None,
            salt: random_bytes(),
            api_private_key,
            created_at: None,
            created_by: Some(principal),
            deleted_at: None,
            deleted_by: None,
        }
    }

    /// An account with the given id and salt and nothing else.
    pub fn new_for_testing(id: String, salt: Vec<u8>) -> (r: Account)
        ensures
            r.id == id,
            r.salt == salt,
            r.endpoint is None,
            r.service_data_surrealdb_url is None,
            r.api_private_key is None,
            r.created_at is None,
            r.created_by is None,
            r.deleted_at is None,
            r.deleted_by is None,
    {
        Account {
            id,
            endpoint: None,
            service_data_surrealdb_url: None,
            salt,
            api_private_key: None,
            created_at: None,
            created_by: None,
            deleted_at: None,
            deleted_by: None,
        }
    }

    pub fn id(&self) -> (r: &str)
        ensures
            r@ == self.id@,
    {
        self.id.as_str()
    }

    pub fn salt(&self) -> (r: &[u8])
        ensures
            r@ == self.salt@,
    {
        self.salt.as_slice()
    }

    pub fn service_data_surrealdb_url(&self) -> (r: Option<&str>)
        ensures
            match r {
                Some(url) => self.service_data_surrealdb_url is Some && url@
                    == self.service_data_surrealdb_url->0@,
                None => self.service_data_surrealdb_url is None,
            },
    {
        match &self.service_data_surrealdb_url {
            Some(url) => Some(url.as_str()),
            None => None,
        }
    }

    /// Where the account's resource graph lies: in the managed service,
    /// where the account's record says; in a self-hosted backend, in the
    /// backend's one store.
    pub fn resources_url<'a>(&'a self, deployment: Deployment, store_url: &'a str) -> (r: Result<
        &'a str,
        ServiceDataError,
    >)
        ensures
            match deployment {
                Deployment::SelfHosted => r matches Ok(url) && url@ == store_url@,
                Deployment::Managed => match self.service_data_surrealdb_url {
                    Some(own) => r matches Ok(url) && url@ == own@,
                    None => r == Err::<&str, ServiceDataError>(ServiceDataError::NoServiceDataUrl),
                },
            },
    {
        match deployment {
            Deployment::SelfHosted => Ok(store_url),
            Deployment::Managed => match &self.service_data_surrealdb_url {
                Some(url) => Ok(url.as_str()),
                None => Err(ServiceDataError::NoServiceDataUrl),
            },
        }
    }

    /// The record identifier of the account's record.
    pub open spec fn record(&self) -> ValueView {
        account_record(self.id@)
    }

    /// The record identifier of the account's record.
    pub fn to_record(&self) -> (r: Value)
        ensures
            r@ == self.record(),
    {
        account_record_value(self.id.as_str())
    }
}

/// The record identifier of the account with the given id.
pub open spec fn account_record(id: Seq<char>) -> ValueView {
    ValueView::Record("account"@, Box::new(ValueView::Strand(id)))
}

/// The record identifier of the account with the given id.
pub fn account_record_value(id: &str) -> (r: Value)
    ensures
        r@ == account_record(id@),
{
    let key = Value::Strand(copy_str(id));
    assert(key@ == ValueView::Strand(id@));
    Value::record("account", key)
}

/// The name of the namespace that holds an account's resource graph: in the
/// managed service, the letter `a` and the account id; in a self-hosted
/// backend, `archodex`.
pub open spec fn namespace_spec(deployment: Deployment, account_id: Seq<char>) -> Seq<char> {
    match deployment {
        Deployment::Managed => "a"@ + account_id,
        Deployment::SelfHosted => "archodex"@,
    }
}

/// The name of the namespace that holds an account's resource graph.
pub fn namespace(deployment: Deployment, account_id: &str) -> (r: String)
    ensures
        r@ == namespace_spec(deployment, account_id@),
{
    match deployment {
        Deployment::Managed => {
            let mut name = copy_str("a");
            name.append(account_id);
            name
        },
        Deployment::SelfHosted => copy_str("archodex"),
    }
}

} // verus!
