//! Errors that may be shown to a client.

use vstd::prelude::*;
use vstd::string::*;
use crate::decimal::{decimal_chars, push_decimal_str};
use crate::text::copy_str;

verus! {

/// The kinds of failure that a client is told about.
#[derive(Clone, Copy, Debug, PartialEq, Eq, Structural)]
pub enum StatusCode {
    /// The payload, an identity or a key value is malformed.
    BadRequest,
    /// The credential is missing, invalid, bound to another endpoint or
    /// revoked.
    Unauthorized,
    Forbidden,
    /// What the request refers to does not exist.
    NotFound,
    /// Something that must be unique exists already.
    Conflict,
    /// The store failed, or key material is unavailable.
    InternalServerError,
}

impl StatusCode {
    /// The HTTP status code.
    pub open spec fn code_spec(self) -> u16 {
        match self {
            StatusCode::BadRequest => 400,
            StatusCode::Unauthorized => 401,
            StatusCode::Forbidden => 403,
            StatusCode::NotFound => 404,
            StatusCode::Conflict => 409,
            StatusCode::InternalServerError => 500,
        }
    }

    /// The standard phrase for the status.
    pub open spec fn reason_spec(self) -> Seq<char> {
        match self {
            StatusCode::BadRequest => "Bad Request"@,
            StatusCode::Unauthorized => "Unauthorized"@,
            StatusCode::Forbidden => "Forbidden"@,
            StatusCode::NotFound => "Not Found"@,
            StatusCode::Conflict => "Conflict"@,
            StatusCode::InternalServerError => "Internal Server Error"@,
        }
    }

    /// The HTTP status code.
    pub fn code(&self) -> (r: u16)
        ensures
            r == self.code_spec(),
    {
        match self {
            StatusCode::BadRequest => 400,
            StatusCode::Unauthorized => 401,
            StatusCode::Forbidden => 403,
            StatusCode::NotFound => 404,
            StatusCode::Conflict => 409,
            StatusCode::InternalServerError => 500,
        }
    }

    /// The standard phrase for the status.
    pub fn canonical_reason(&self) -> (r: &'static str)
        ensures
            r@ == self.reason_spec(),
    {
        match self {
            StatusCode::BadRequest => "Bad Request",
            StatusCode::Unauthorized => "Unauthorized",
            StatusCode::Forbidden => "Forbidden",
            StatusCode::NotFound => "Not Found",
            StatusCode::Conflict => "Conflict",
            StatusCode::InternalServerError => "Internal Server Error",
        }
    }
}

/// An error with a status and a message that are safe to show to a client.
#[derive(Debug, PartialEq, Eq)]
pub struct PublicError {
    pub status_code: StatusCode,
    pub message: String,
}

/// The text of an error: the status code, the status phrase, a colon and the
/// message, as in `409 Conflict: Account already exists`.
pub open spec fn error_text(status_code: StatusCode, message: Seq<char>) -> Seq<char> {
    decimal_chars(status_code.code_spec() as nat) + " "@ + status_code.reason_spec() + ": "@
        + message
}

impl PublicError {
    pub fn new(status_code: StatusCode, message: &str) -> (r: PublicError)
        ensures
            r.status_code == status_code,
            r.message@ == message@,
    {
        PublicError { status_code, message: copy_str(message) }
    }

    /// The error for a malformed request.
    pub fn bad_request(message: &str) -> (r: PublicError)
        ensures
            r.status_code == StatusCode::BadRequest,
            r.message@ == message@,
    {
        PublicError::new(StatusCode::BadRequest, message)
    }

    /// The error for every failed authentication. It says nothing of the
    /// cause, so that it does not reveal which accounts and keys exist.
    pub fn unauthorized() -> (r: PublicError)
        ensures
            r.status_code == StatusCode::Unauthorized,
            r.message@ == "Unauthorized"@,
    {
        PublicError::new(StatusCode::Unauthorized, "Unauthorized")
    }

    pub fn forbidden(message: &str) -> (r: PublicError)
        ensures
            r.status_code == StatusCode::Forbidden,
            r.message@ == message@,
    {
        PublicError::new(StatusCode::Forbidden, message)
    }

    pub fn not_found(message: &str) -> (r: PublicError)
        ensures
            r.status_code == StatusCode::NotFound,
            r.message@ == message@,
    {
        PublicError::new(StatusCode::NotFound, message)
    }

    pub fn conflict(message: &str) -> (r: PublicError)
        ensures
            r.status_code == StatusCode::Conflict,
            r.message@ == message@,
    {
        PublicError::new(StatusCode::Conflict, message)
    }

    /// The error for a failure whose cause the client is not told.
    pub fn internal() -> (r: PublicError)
        ensures
            r.status_code == StatusCode::InternalServerError,
            r.message@ == StatusCode::InternalServerError.reason_spec(),
    {
        PublicError::new(
            StatusCode::InternalServerError,
            StatusCode::InternalServerError.canonical_reason(),
        )
    }

    /// The error for a resource identity that cannot be read: a bad request
    /// that says what is wrong with it.
    pub fn malformed_identity(e: crate::resource::MalformedIdentity) -> (r: PublicError)
        ensures
            r.status_code == StatusCode::BadRequest,
            r.message@ == e.message_spec(),
    {
        PublicError { status_code: StatusCode::BadRequest, message: e.message() }
    }

    /// The error for a principal chain that cannot be read: a bad request
    /// that says what is wrong with it.
    pub fn malformed_chain(e: crate::principal_chain::MalformedChain) -> (r: PublicError)
        ensures
            r.status_code == StatusCode::BadRequest,
            r.message@ == e.message_spec(),
    {
        PublicError { status_code: StatusCode::BadRequest, message: e.message() }
    }

    /// The error for a report that is refused: a bad request.
    pub fn refused_report(e: crate::report::ReportError) -> (r: PublicError)
        ensures
            r.status_code == StatusCode::BadRequest,
            r.message@ == "event capture lists no events"@,
    {
        PublicError { status_code: StatusCode::BadRequest, message: e.message() }
    }

    /// The text of the error.
    pub fn to_text(&self) -> (r: String)
        ensures
            r@ == error_text(self.status_code, self.message@),
    {
        let mut out = String::new();
        push_decimal_str(&mut out, self.status_code.code() as u64);
        out.append(" ");
        out.append(self.status_code.canonical_reason());
        out.append(": ");
        out.append(self.message.as_str());
        assert(out@ =~= error_text(self.status_code, self.message@));
        out
    }
}

} // verus!
