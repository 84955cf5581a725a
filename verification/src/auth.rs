//! Authentication of requests: who submits a report, and who uses the
//! dashboard.

use vstd::prelude::*;
use vstd::string::*;
use crate::decimal::decimal_chars;
use crate::error::{PublicError, StatusCode};
use crate::report_api_key::{validate_value_spec, validated_text, KeyError, ReportApiKey};
use crate::text::copy_str;
use crate::user::User;

verus! {

/// The `Authorization` header of a request.
#[derive(Clone, Copy, Debug, PartialEq, Eq)]
pub enum Authorization<'a> {
    /// The request has no such header.
    Missing,
    /// The header's value is not text.
    Unreadable,
    /// The header's value.
    Value(&'a str),
}

/// Why a request was not authenticated.
#[derive(Clone, Copy, Debug, PartialEq, Eq, Structural)]
pub enum AuthError {
    /// The request has no `Authorization` header.
    MissingAuthorization,
    /// The `Authorization` header is not text.
    UnreadableAuthorization,
    /// The key value is refused.
    InvalidKey(KeyError),
}

/// The account and the key that a request was authenticated for.
#[derive(Debug, PartialEq, Eq)]
pub struct AuthContext {
    pub account_id: String,
    pub key_id: u32,
}

impl Clone for AuthContext {
    fn clone(&self) -> (r: Self)
        ensures
            r.account_id@ == self.account_id@,
            r.key_id == self.key_id,
    {
        AuthContext { account_id: self.account_id.clone(), key_id: self.key_id }
    }
}

/// What authenticating a header gives, for the deployment with the given
/// endpoint and private key: the account id, in decimal, and the key id.
pub open spec fn authenticate_spec(
    authorization: Authorization,
    endpoint: Seq<u8>,
    key: Seq<u8>,
) -> Result<(Seq<char>, u32), AuthError> {
    match authorization {
        Authorization::Missing => Err(AuthError::MissingAuthorization),
        Authorization::Unreadable => Err(AuthError::UnreadableAuthorization),
        Authorization::Value(value) => match validated_text(
            validate_value_spec(value.spec_bytes(), endpoint, key),
        ) {
            Ok(found) => Ok(found),
            Err(e) => Err(AuthError::InvalidKey(e)),
        },
    }
}

/// A way to authenticate the submitter of a report.
pub trait AuthProvider {
    /// Authenticates a request by its `Authorization` header, for the
    /// deployment with the given endpoint and private key.
    fn authenticate(
        &self,
        authorization: Authorization,
        endpoint: &str,
        private_key: &[u8; 16],
    ) -> (r: Result<AuthContext, AuthError>);
}

/// Authentication by capability key.
#[derive(Clone, Copy, Debug, PartialEq, Eq)]
pub struct RealAuthProvider;

impl AuthProvider for RealAuthProvider {
    /// Authenticates a request by the capability key in its `Authorization`
    /// header.
    fn authenticate(
        &self,
        authorization: Authorization,
        endpoint: &str,
        private_key: &[u8; 16],
    ) -> (r: Result<AuthContext, AuthError>)
        ensures
            match r {
                Ok(context) => authenticate_spec(authorization, endpoint.spec_bytes(), private_key@)
                    == Ok::<(Seq<char>, u32), AuthError>((context.account_id@, context.key_id)),
                Err(e) => authenticate_spec(authorization, endpoint.spec_bytes(), private_key@)
                    == Err::<(Seq<char>, u32), AuthError>(e),
            },
    {
        match authorization {
            Authorization::Missing => Err(AuthError::MissingAuthorization),
            Authorization::Unreadable => Err(AuthError::UnreadableAuthorization),
            Authorization::Value(value) => match ReportApiKey::validate_value(
                value,
                endpoint,
                private_key,
            ) {
                Ok((account_id, key_id)) => Ok(AuthContext { account_id, key_id }),
                Err(e) => Err(AuthError::InvalidKey(e)),
            },
        }
    }
}

/// Authentication that accepts every request as one fixed account and key.
#[derive(Debug, PartialEq, Eq)]
pub struct FixedAuthProvider {
    pub context: AuthContext,
}

impl AuthProvider for FixedAuthProvider {
    /// The fixed account and key, whatever the request holds.
    fn authenticate(
        &self,
        authorization: Authorization,
        endpoint: &str,
        private_key: &[u8; 16],
    ) -> (r: Result<AuthContext, AuthError>)
        ensures
            r matches Ok(context) && context.account_id@ == self.context.account_id@
                && context.key_id == self.context.key_id,
    {
        Ok(self.context.clone())
    }
}

impl FixedAuthProvider {
    pub fn new(account_id: &str, key_id: u32) -> (r: FixedAuthProvider)
        ensures
            r.context.account_id@ == account_id@,
            r.context.key_id == key_id,
    {
        FixedAuthProvider { context: AuthContext { account_id: copy_str(account_id), key_id } }
    }
}

/// A request that was authenticated by a capability key.
#[derive(Debug, PartialEq, Eq)]
pub struct ReportApiKeyAuth {
    pub account_id: String,
    pub key_id: u32,
}

/// The error that every failed authentication is answered with.
pub open spec fn is_unauthorized(e: PublicError) -> bool {
    e.status_code == StatusCode::Unauthorized && e.message@ == "Unauthorized"@
}

impl ReportApiKeyAuth {
    pub fn from_credentials(account_id: String, key_id: u32) -> (r: ReportApiKeyAuth)
        ensures
            r.account_id == account_id,
            r.key_id == key_id,
    {
        ReportApiKeyAuth { account_id, key_id }
    }

    /// Authenticates a request by the capability key in its `Authorization`
    /// header. Every failure is answered alike, so that the answer does not
    /// tell a malformed key from one that is bound elsewhere.
    pub fn authenticate(authorization: Authorization, endpoint: &str, private_key: &[u8; 16]) -> (r:
        Result<ReportApiKeyAuth, PublicError>)
        ensures
            match r {
                Ok(auth) => authenticate_spec(authorization, endpoint.spec_bytes(), private_key@)
                    == Ok::<(Seq<char>, u32), AuthError>((auth.account_id@, auth.key_id)),
                Err(e) => authenticate_spec(authorization, endpoint.spec_bytes(), private_key@)
                    is Err && is_unauthorized(e),
            },
    {
        match RealAuthProvider.authenticate(authorization, endpoint, private_key) {
            Ok(context) => Ok(
                ReportApiKeyAuth { account_id: context.account_id, key_id: context.key_id },
            ),
            Err(_) => Err(PublicError::unauthorized()),
        }
    }

    pub fn account_id(&self) -> (r: &str)
        ensures
            r@ == self.account_id@,
    {
        self.account_id.as_str()
    }

    /// Decides whether the key may act for the account, given what the
    /// account's store says of the key: nothing if it does not know the key,
    /// else whether the key is still valid. A key that is unknown or
    /// revoked is answered like any failed authentication.
    pub fn validate_account_access(&self, key_is_valid: Option<bool>) -> (r: Result<
        (),
        PublicError,
    >)
        ensures
            r is Ok <==> key_is_valid == Some(true),
            r matches Err(e) ==> is_unauthorized(e),
    {
        match key_is_valid {
            Some(true) => Ok(()),
            _ => Err(PublicError::unauthorized()),
        }
    }
}

/// A request that was authenticated for a user of the dashboard.
#[derive(Clone, Copy, Debug, PartialEq, Eq, Structural)]
pub struct DashboardAuth {
    pub principal: User,
}

impl DashboardAuth {
    pub fn principal(&self) -> (r: &User)
        ensures
            *r == self.principal,
    {
        &self.principal
    }

    /// Decides whether the user may act on an account, given whether the
    /// store knows an account with that id that the user has access to. An
    /// account that the user has no access to is answered like one that
    /// does not exist.
    pub fn validate_account_access(&self, has_access: bool) -> (r: Result<(), PublicError>)
        ensures
            r is Ok <==> has_access,
            r matches Err(e) ==> e.status_code == StatusCode::NotFound && e.message@
                == "Account not found"@,
    {
        if has_access {
            Ok(())
        } else {
            Err(PublicError::not_found("Account not found"))
        }
    }
}

} // verus!
