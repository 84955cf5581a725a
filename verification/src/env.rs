//! The configuration of a deployment, as read from its environment.

use vstd::prelude::*;
use vstd::string::*;
use crate::account::Deployment;
use crate::decimal::{parse_u32, parse_u32_spec};
use crate::principal_chain::opt_str_view;
use crate::text::copy_str;

verus! {

/// The variables of the environment that configure a deployment, each as it
/// was found: missing, or with its text.
#[derive(Debug, PartialEq, Eq)]
pub struct EnvVars {
    pub port: Option<String>,
    pub archodex_domain: Option<String>,
    pub accounts_surrealdb_url: Option<String>,
    pub surrealdb_url: Option<String>,
    pub surrealdb_username: Option<String>,
    pub surrealdb_password: Option<String>,
    pub endpoint: Option<String>,
    pub cognito_user_pool_id: Option<String>,
    pub cognito_client_id: Option<String>,
}

/// The name and the password with which the backend signs in to its store.
#[derive(Debug, PartialEq, Eq)]
pub struct Credentials {
    pub username: String,
    pub password: String,
}

/// The configuration of a deployment.
#[derive(Debug, PartialEq, Eq)]
pub struct Env {
    pub port: u16,
    pub archodex_domain: String,
    pub accounts_surrealdb_url: String,
    /// The location of the store of a self-hosted backend.
    pub surrealdb_url: Option<String>,
    pub surrealdb_creds: Option<Credentials>,
    /// The endpoint that key values are bound to. The managed service must
    /// be told its endpoint.
    pub endpoint: Option<String>,
    pub cognito_user_pool_id: String,
    pub cognito_client_id: String,
}

/// Why the environment does not configure a deployment.
#[derive(Clone, Copy, Debug, PartialEq, Eq, Structural)]
pub enum EnvError {
    /// `PORT` is no 16-bit number.
    InvalidPort,
    /// `ACCOUNTS_SURREALDB_URL` is set for a self-hosted backend.
    UnexpectedAccountsUrl,
    /// `ACCOUNTS_SURREALDB_URL` is missing in the managed service.
    MissingAccountsUrl,
    /// `SURREALDB_URL` is set in the managed service.
    UnexpectedStoreUrl,
    /// `ENDPOINT` is missing in the managed service.
    MissingEndpoint,
    /// Of `SURREALDB_USERNAME` and `SURREALDB_PASSWORD` only one is set.
    IncompleteCredentials,
}

/// The text of a variable, where it is set and not empty; else the default.
pub open spec fn or_default(value: Option<Seq<char>>, default: Seq<char>) -> Seq<char> {
    match value {
        Some(text) => if text.len() == 0 {
            default
        } else {
            text
        },
        None => default,
    }
}

/// The text of a variable, where it is set and not empty; else the default.
pub fn env_with_default_for_empty(value: &Option<String>, default: &str) -> (r: String)
    ensures
        r@ == or_default(opt_str_view(*value), default@),
{
    match value {
        Some(text) => if text.as_str().unicode_len() == 0 {
            copy_str(default)
        } else {
            text.clone()
        },
        None => copy_str(default),
    }
}

/// The text of a variable, where it is set and not empty.
pub open spec fn non_empty(value: Option<Seq<char>>) -> Option<Seq<char>> {
    match value {
        Some(text) => if text.len() == 0 {
            None
        } else {
            Some(text)
        },
        None => None,
    }
}

/// The text of a variable, where it is set and not empty.
pub fn set_and_not_empty(value: Option<String>) -> (r: Option<String>)
    ensures
        opt_str_view(r) == non_empty(opt_str_view(value)),
{
    match value {
        Some(text) => if text.as_str().unicode_len() == 0 {
            None
        } else {
            Some(text)
        },
        None => None,
    }
}

/// The port that a deployment listens on where none is configured.
pub open spec fn default_port(deployment: Deployment) -> u16 {
    match deployment {
        Deployment::Managed => 5731,
        Deployment::SelfHosted => 5732,
    }
}

/// The port that the text of `PORT` names.
pub open spec fn port_spec(port: Option<String>, deployment: Deployment) -> Option<u16> {
    match port {
        None => Some(default_port(deployment)),
        Some(text) => match parse_u32_spec(vstd::utf8::encode_utf8(text@)) {
            Some(n) => if n <= u16::MAX {
                Some(n as u16)
            } else {
                None
            },
            None => None,
        },
    }
}

/// Reads the port from the text of `PORT`.
pub fn parse_port(port: &Option<String>, deployment: Deployment) -> (r: Option<u16>)
    ensures
        r == port_spec(*port, deployment),
{
    match port {
        None => Some(
            match deployment {
                Deployment::Managed => 5731,
                Deployment::SelfHosted => 5732,
            },
        ),
        Some(text) => match parse_u32(text.as_str().as_bytes()) {
            Some(n) => if n <= 65535 {
                Some(n as u16)
            } else {
                None
            },
            None => None,
        },
    }
}

/// The value of a hexadecimal digit.
pub open spec fn hex_digit(b: u8) -> Option<u8> {
    if 48 <= b <= 57 {
        Some((b - 48) as u8)
    } else if 97 <= b <= 102 {
        Some((b - 87) as u8)
    } else if 65 <= b <= 70 {
        Some((b - 55) as u8)
    } else {
        None
    }
}

/// The bytes that hexadecimal text stands for: two digits for each byte, in
/// either case.
pub open spec fn decode_hex_spec(s: Seq<u8>) -> Option<Seq<u8>>
    decreases s.len(),
{
    if s.len() == 0 {
        Some(Seq::empty())
    } else if s.len() % 2 == 1 {
        None
    } else {
        match (
            decode_hex_spec(s.subrange(0, s.len() - 2)),
            hex_digit(s[s.len() - 2]),
            hex_digit(s[s.len() - 1]),
        ) {
            (Some(front), Some(high), Some(low)) => Some(front.push((high * 16 + low) as u8)),
            _ => None,
        }
    }
}

/// Where a prefix of even length is no hexadecimal text, the whole is none.
proof fn lemma_decode_hex_prefix(s: Seq<u8>, n: int)
    requires
        0 <= n <= s.len(),
        n % 2 == 0,
        s.len() % 2 == 0,
        decode_hex_spec(s.subrange(0, n)) is None,
    ensures
        decode_hex_spec(s) is None,
    decreases s.len() - n,
{
    if n == s.len() {
        assert(s.subrange(0, n) =~= s);
    } else {
        let next = s.subrange(0, n + 2);
        assert(next.subrange(0, next.len() - 2) =~= s.subrange(0, n));
        lemma_decode_hex_prefix(s, n + 2);
    }
}

/// Reads the value of a hexadecimal digit.
pub fn hex_digit_value(b: u8) -> (r: Option<u8>)
    ensures
        r == hex_digit(b),
{
    if 48 <= b && b <= 57 {
        Some(b - 48)
    } else if 97 <= b && b <= 102 {
        Some(b - 87)
    } else if 65 <= b && b <= 70 {
        Some(b - 55)
    } else {
        None
    }
}

/// Reads bytes from hexadecimal text.
pub fn decode_hex(text: &[u8]) -> (r: Option<Vec<u8>>)
    ensures
        crate::text::opt_bytes_view(r) == decode_hex_spec(text@),
{
    if text.len() % 2 == 1 {
        return None;
    }
    let mut out: Vec<u8> = Vec::new();
    let mut i: usize = 0;
    assert(text@.subrange(0, 0) =~= Seq::<u8>::empty());
    while i < text.len()
        invariant
            i <= text@.len(),
            i % 2 == 0,
            text@.len() % 2 == 0,
            decode_hex_spec(text@.subrange(0, i as int)) == Some(out@),
        decreases text@.len() - i,
    {
        let ghost next = text@.subrange(0, i + 2);
        proof {
            assert(next.subrange(0, next.len() - 2) =~= text@.subrange(0, i as int));
            assert(next[next.len() - 2] == text@[i as int]);
            assert(next[next.len() - 1] == text@[i + 1]);
        }
        match (hex_digit_value(text[i]), hex_digit_value(text[i + 1])) {
            (Some(high), Some(low)) => {
                out.push(high * 16 + low);
            },
            _ => {
                proof {
                    lemma_decode_hex_prefix(text@, i + 2);
                }
                return None;
            },
        }
        i += 2;
    }
    assert(text@.subrange(0, i as int) =~= text@);
    Some(out)
}

/// Why a deployment has no private key for key values.
#[derive(Clone, Copy, Debug, PartialEq, Eq, Structural)]
pub enum KeyMaterialError {
    /// The key in the environment is no hexadecimal text.
    InvalidHex,
    /// The key is not sixteen bytes long.
    InvalidLength,
    /// Both the environment and the account's record hold a key.
    BothSources,
    /// Neither the environment nor the account's record holds a key.
    NoSource,
}

/// The private key of a self-hosted backend: the key of the account's
/// record or the key in the environment, whichever there is. The key in the
/// environment is looked at first.
pub open spec fn select_key_spec(from_db: Option<Seq<u8>>, from_env: Option<Seq<u8>>) -> Result<
    Seq<u8>,
    KeyMaterialError,
> {
    match from_env {
        Some(text) => match decode_hex_spec(text) {
            None => Err(KeyMaterialError::InvalidHex),
            Some(bytes) => if bytes.len() != 16 {
                Err(KeyMaterialError::InvalidLength)
            } else if from_db is Some {
                Err(KeyMaterialError::BothSources)
            } else {
                Ok(bytes)
            },
        },
        None => match from_db {
            Some(bytes) => if bytes.len() != 16 {
                Err(KeyMaterialError::InvalidLength)
            } else {
                Ok(bytes)
            },
            None => Err(KeyMaterialError::NoSource),
        },
    }
}

/// A key of sixteen bytes, from a buffer of that length.
pub fn key_from_bytes(bytes: &Vec<u8>) -> (r: [u8; 16])
    requires
        bytes@.len() == 16,
    ensures
        r@ == bytes@,
{
    let mut key = [0u8;16];
    let mut i: usize = 0;
    while i < 16
        invariant
            i <= 16,
            bytes@.len() == 16,
            key@.len() == 16,
            forall|j: int| 0 <= j < i ==> key@[j] == bytes@[j],
        decreases 16 - i,
    {
        key[i] = bytes[i];
        i += 1;
    }
    assert(key@ =~= bytes@);
    key
}

/// Selects the private key of a self-hosted backend.
pub fn select_api_private_key(from_db: Option<Vec<u8>>, from_env: Option<String>) -> (r: Result<
    [u8; 16],
    KeyMaterialError,
>)
    ensures
        match r {
            Ok(key) => select_key_spec(
                crate::text::opt_bytes_view(from_db),
                match from_env {
                    Some(text) => Some(vstd::utf8::encode_utf8(text@)),
                    None => None,
                },
            ) == Ok::<Seq<u8>, KeyMaterialError>(key@),
            Err(e) => select_key_spec(
                crate::text::opt_bytes_view(from_db),
                match from_env {
                    Some(text) => Some(vstd::utf8::encode_utf8(text@)),
                    None => None,
                },
            ) == Err::<Seq<u8>, KeyMaterialError>(e),
        },
{
    match from_env {
        Some(text) => match decode_hex(text.as_str().as_bytes()) {
            None => Err(KeyMaterialError::InvalidHex),
            Some(bytes) => if bytes.len() != 16 {
                Err(KeyMaterialError::InvalidLength)
            } else if from_db.is_some() {
                Err(KeyMaterialError::BothSources)
            } else {
                Ok(key_from_bytes(&bytes))
            },
        },
        None => match from_db {
            Some(bytes) => if bytes.len() != 16 {
                Err(KeyMaterialError::InvalidLength)
            } else {
                Ok(key_from_bytes(&bytes))
            },
            None => Err(KeyMaterialError::NoSource),
        },
    }
}

/// The private key of a deployment, once it was loaded. The key is loaded
/// once and then kept; it is loaded again only after it was cleared.
#[derive(Clone, Copy, Debug, PartialEq, Eq)]
pub struct KeyCache {
    pub key: Option<[u8; 16]>,
}

impl KeyCache {
    /// The cache that holds no key yet.
    pub fn new() -> (r: KeyCache)
        ensures
            r.key is None,
    {
        KeyCache { key: None }
    }

    /// The key, if it was loaded.
    pub fn get(&self) -> (r: Option<[u8; 16]>)
        ensures
            r == self.key,
    {
        self.key
    }

    /// Keeps a key that was loaded, unless one is kept already: the key that
    /// was loaded first stays.
    pub fn store(&mut self, key: [u8; 16]) -> (r: [u8; 16])
        ensures
            final(self).key == Some(r),
            r == match old(self).key {
                Some(kept) => kept,
                None => key,
            },
    {
        match self.key {
            Some(kept) => kept,
            None => {
                self.key = Some(key);
                key
            },
        }
    }

    /// Forgets the key when the account is deleted, so that the next account
    /// gets a key of its own. A key that the environment gives is kept.
    pub fn clear(&mut self, key_in_environment: bool)
        ensures
            final(self).key == if key_in_environment {
                old(self).key
            } else {
                None
            },
    {
        if !key_in_environment {
            self.key = None;
        }
    }
}

impl Env {
    /// Reads the configuration of a deployment from its environment.
    pub fn from_vars(vars: EnvVars, deployment: Deployment) -> (r: Result<Env, EnvError>)
        ensures
            match r {
                Ok(env) => {
                    &&& port_spec(vars.port, deployment) == Some(env.port)
                    &&& env.archodex_domain@ == or_default(
                        opt_str_view(vars.archodex_domain),
                        "archodex.com"@,
                    )
                    &&& env.cognito_user_pool_id@ == or_default(
                        opt_str_view(vars.cognito_user_pool_id),
                        "us-west-2_Mf1K95El6"@,
                    )
                    &&& env.cognito_client_id@ == or_default(
                        opt_str_view(vars.cognito_client_id),
                        "1a5vsre47o6pa39p3p81igfken"@,
                    )
                    &&& match deployment {
                        Deployment::SelfHosted => {
                            &&& vars.accounts_surrealdb_url is None
                            &&& env.surrealdb_url is Some
                            &&& env.surrealdb_url->0@ == or_default(
                                opt_str_view(vars.surrealdb_url),
                                "rocksdb://db"@,
                            )
                            &&& env.accounts_surrealdb_url@ == env.surrealdb_url->0@
                            &&& opt_str_view(env.endpoint) == opt_str_view(vars.endpoint)
                        },
                        Deployment::Managed => {
                            &&& vars.surrealdb_url is None
                            &&& vars.accounts_surrealdb_url is Some
                            &&& env.accounts_surrealdb_url@ == vars.accounts_surrealdb_url->0@
                            &&& env.surrealdb_url is None
                            &&& vars.endpoint is Some
                            &&& opt_str_view(env.endpoint) == opt_str_view(vars.endpoint)
                        },
                    }
                    &&& match (
                        non_empty(opt_str_view(vars.surrealdb_username)),
                        non_empty(opt_str_view(vars.surrealdb_password)),
                    ) {
                        (Some(username), Some(password)) => env.surrealdb_creds is Some
                            && env.surrealdb_creds->0.username@ == username
                            && env.surrealdb_creds->0.password@ == password,
                        (None, None) => env.surrealdb_creds is None,
                        _ => false,
                    }
                },
                Err(EnvError::InvalidPort) => port_spec(vars.port, deployment) is None,
                Err(EnvError::UnexpectedAccountsUrl) => port_spec(vars.port, deployment) is Some
                    && deployment == Deployment::SelfHosted && vars.accounts_surrealdb_url
                    is Some,
                Err(EnvError::MissingAccountsUrl) => port_spec(vars.port, deployment) is Some
                    && deployment == Deployment::Managed && vars.accounts_surrealdb_url is None,
                Err(EnvError::UnexpectedStoreUrl) => port_spec(vars.port, deployment) is Some
                    && deployment == Deployment::Managed && vars.accounts_surrealdb_url is Some
                    && vars.surrealdb_url is Some,
                Err(EnvError::IncompleteCredentials) => {
                    &&& port_spec(vars.port, deployment) is Some
                    &&& deployment == Deployment::SelfHosted ==> vars.accounts_surrealdb_url
                        is None
                    &&& deployment == Deployment::Managed ==> vars.accounts_surrealdb_url is Some
                        && vars.surrealdb_url is None
                    &&& non_empty(opt_str_view(vars.surrealdb_username)) is Some != (non_empty(
                        opt_str_view(vars.surrealdb_password),
                    ) is Some)
                },
                Err(EnvError::MissingEndpoint) => {
                    &&& port_spec(vars.port, deployment) is Some
                    &&& deployment == Deployment::Managed
                    &&& vars.accounts_surrealdb_url is Some
                    &&& vars.surrealdb_url is None
                    &&& non_empty(opt_str_view(vars.surrealdb_username)) is Some == (non_empty(
                        opt_str_view(vars.surrealdb_password),
                    ) is Some)
                    &&& vars.endpoint is None
                },
            },
    {
        let port = match parse_port(&vars.port, deployment) {
            Some(port) => port,
            None => {
                return Err(EnvError::InvalidPort);
            },
        };
        let archodex_domain = env_with_default_for_empty(&vars.archodex_domain, "archodex.com");
        let (accounts_surrealdb_url, surrealdb_url) = match deployment {
            Deployment::SelfHosted => {
                if vars.accounts_surrealdb_url.is_some() {
                    return Err(EnvError::UnexpectedAccountsUrl);
                }
                let url = env_with_default_for_empty(&vars.surrealdb_url, "rocksdb://db");
                (url.clone(), Some(url))
            },
            Deployment::Managed => {
                let url = match vars.accounts_surrealdb_url {
                    Some(url) => url,
                    None => {
                        return Err(EnvError::MissingAccountsUrl);
                    },
                };
                if vars.surrealdb_url.is_some() {
                    return Err(EnvError::UnexpectedStoreUrl);
                }
                (url, None)
            },
        };
        let surrealdb_creds = match (
            set_and_not_empty(vars.surrealdb_username),
            set_and_not_empty(vars.surrealdb_password),
        ) {
            (Some(username), Some(password)) => Some(Credentials { username, password }),
            (None, None) => None,
            _ => {
                return Err(EnvError::IncompleteCredentials);
            },
        };
        let endpoint = match deployment {
            Deployment::SelfHosted => vars.endpoint,
            Deployment::Managed => match vars.endpoint {
                Some(endpoint) => Some(endpoint),
                None => {
                    return Err(EnvError::MissingEndpoint);
                },
            },
        };
        Ok(
            Env {
                port,
                archodex_domain,
                accounts_surrealdb_url,
                surrealdb_url,
                surrealdb_creds,
                endpoint,
                cognito_user_pool_id: env_with_default_for_empty(
                    &vars.cognito_user_pool_id,
                    "us-west-2_Mf1K95El6",
                ),
                cognito_client_id: env_with_default_for_empty(
                    &vars.cognito_client_id,
                    "1a5vsre47o6pa39p3p81igfken",
                ),
            },
        )
    }

    /// The number of accounts that one user of the managed service may
    /// have.
    pub fn user_account_limit() -> (r: u32)
        ensures
            r == crate::user::USER_ACCOUNT_LIMIT,
    {
        crate::user::USER_ACCOUNT_LIMIT
    }

    pub fn port(&self) -> (r: u16)
        ensures
            r == self.port,
    {
        self.port
    }

    pub fn archodex_domain(&self) -> (r: &str)
        ensures
            r@ == self.archodex_domain@,
    {
        self.archodex_domain.as_str()
    }

    pub fn accounts_surrealdb_url(&self) -> (r: &str)
        ensures
            r@ == self.accounts_surrealdb_url@,
    {
        self.accounts_surrealdb_url.as_str()
    }

    pub fn endpoint(&self) -> (r: Option<&str>)
        ensures
            match r {
                Some(endpoint) => self.endpoint is Some && endpoint@ == self.endpoint->0@,
                None => self.endpoint is None,
            },
    {
        match &self.endpoint {
            Some(endpoint) => Some(endpoint.as_str()),
            None => None,
        }
    }

    pub fn surrealdb_url(&self) -> (r: Option<&str>)
        ensures
            match r {
                Some(url) => self.surrealdb_url is Some && url@ == self.surrealdb_url->0@,
                None => self.surrealdb_url is None,
            },
    {
        match &self.surrealdb_url {
            Some(url) => Some(url.as_str()),
            None => None,
        }
    }

    pub fn surrealdb_creds(&self) -> (r: &Option<Credentials>)
        ensures
            *r == self.surrealdb_creds,
    {
        &self.surrealdb_creds
    }

    pub fn cognito_user_pool_id(&self) -> (r: &str)
        ensures
            r@ == self.cognito_user_pool_id@,
    {
        self.cognito_user_pool_id.as_str()
    }

    pub fn cognito_client_id(&self) -> (r: &str)
        ensures
            r@ == self.cognito_client_id@,
    {
        self.cognito_client_id.as_str()
    }
}

} // verus!
