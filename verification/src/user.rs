//! Users of the dashboard.

use vstd::prelude::*;
use crate::crypto::random_in;
use crate::decimal::{decimal_chars, decimal_string};
use crate::error::{PublicError, StatusCode};
use crate::text::copy_str;
use crate::value::{Value, ValueView};

verus! {

/// The least account id.
pub const ACCOUNT_ID_MIN: u64 = 1_000_000_000;

/// The greatest account id.
pub const ACCOUNT_ID_MAX: u64 = 9_999_999_999;

/// The number of accounts that one user may have.
pub const USER_ACCOUNT_LIMIT: u32 = 5;

/// A user, known by the 128 bits of their identifier.
#[derive(Clone, Copy, Debug, PartialEq, Eq, Structural)]
pub struct User {
    pub id: u128,
}

impl User {
    pub fn new(id: u128) -> (r: User)
        ensures
            r.id == id,
    {
        User { id }
    }

    /// The record identifier of the user's record.
    pub open spec fn record(self) -> ValueView {
        ValueView::Record("user"@, Box::new(ValueView::Uuid(self.id)))
    }

    /// The record identifier of the user's record.
    pub fn to_record(&self) -> (r: Value)
        ensures
            r@ == self.record(),
    {
        let key = Value::Uuid(self.id);
        assert(key@ == ValueView::Uuid(self.id));
        Value::record("user", key)
    }

    /// Draws the id for a new account of a user who has `num_user_accounts`
    /// accounts already: a random ten-digit number, in decimal. A user who
    /// has reached the limit gets none.
    pub fn next_account_id(&self, num_user_accounts: u32) -> (r: Result<String, PublicError>)
        ensures
            r is Ok <==> num_user_accounts < USER_ACCOUNT_LIMIT,
            r matches Ok(id) ==> exists|n: u64|
                ACCOUNT_ID_MIN <= n <= ACCOUNT_ID_MAX && id@ == #[trigger] decimal_chars(n as nat),
            r matches Err(e) ==> e.status_code == StatusCode::Conflict && e.message@
                == "User account limit exceeded"@,
    {
        if num_user_accounts >= crate::env::Env::user_account_limit() {
            return Err(PublicError::conflict("User account limit exceeded"));
        }
        let n = random_in(ACCOUNT_ID_MIN, ACCOUNT_ID_MAX);
        Ok(account_id_text(n))
    }
}

/// The text of an account id.
pub fn account_id_text(n: u64) -> (r: String)
    ensures
        r@ == decimal_chars(n as nat),
{
    decimal_string(n)
}

} // verus!
