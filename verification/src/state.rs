//! How connections to the stores are chosen.

use vstd::prelude::*;
use vstd::string::*;
use crate::account::Deployment;

verus! {

/// Why no connection to a store can be made.
#[derive(Clone, Copy, Debug, PartialEq, Eq, Structural)]
pub enum ConnectionError {
    /// The managed service was asked for an account's store without being
    /// told where it lies.
    MissingServiceUrl,
}

/// The source of connections that the backend uses in production: one
/// connection per store, shared by all requests.
#[derive(Clone, Copy, Debug, PartialEq, Eq, Structural)]
pub struct GlobalResourcesDbFactory;

impl GlobalResourcesDbFactory {
    /// Where the resource graph of an account lies. The managed service
    /// must be told; a self-hosted backend falls back on its one store.
    pub fn resources_url<'a>(
        &self,
        deployment: Deployment,
        service_url: Option<&'a str>,
        store_url: &'a str,
    ) -> (r: Result<&'a str, ConnectionError>)
        ensures
            match (deployment, service_url) {
                (_, Some(url)) => r matches Ok(found) && found@ == url@,
                (Deployment::SelfHosted, None) => r matches Ok(found) && found@ == store_url@,
                (Deployment::Managed, None) => r == Err::<&str, ConnectionError>(
                    ConnectionError::MissingServiceUrl,
                ),
            },
    {
        match service_url {
            Some(url) => Ok(url),
            None => match deployment {
                Deployment::SelfHosted => Ok(store_url),
                Deployment::Managed => Err(ConnectionError::MissingServiceUrl),
            },
        }
    }
}

/// How a store is reached.
#[derive(Clone, Copy, Debug, PartialEq, Eq, Structural)]
pub enum ConnectionKind {
    /// An embedded store, which takes one user at a time and holds one
    /// database at a time.
    Nonconcurrent,
    /// A store that serves many connections at once.
    Concurrent,
}

/// How the store at a location is reached: an embedded store is named by a
/// location that begins with `rocksdb:`.
pub open spec fn connection_kind_spec(url: Seq<u8>) -> ConnectionKind {
    if crate::text::has_prefix(url, vstd::utf8::encode_utf8("rocksdb:"@)) {
        ConnectionKind::Nonconcurrent
    } else {
        ConnectionKind::Concurrent
    }
}

/// How the store at a location is reached.
pub fn connection_kind(url: &str) -> (r: ConnectionKind)
    ensures
        r == connection_kind_spec(url.spec_bytes()),
{
    if crate::text::starts_with(url.as_bytes(), "rocksdb:".as_bytes()) {
        ConnectionKind::Nonconcurrent
    } else {
        ConnectionKind::Concurrent
    }
}

} // verus!
