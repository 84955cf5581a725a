//! What the storage engine reports of a transaction, and which of its errors
//! is the cause.
//!
//! When a statement of a transaction fails, the engine reports an error for
//! every statement: the real one for the statement that failed, and "not
//! executed" for all the others. The error to surface is the first real one.

use vstd::prelude::*;
use crate::error::{PublicError, StatusCode};

verus! {

/// What the engine reports of a statement that did not succeed.
#[derive(Clone, Copy, Debug, PartialEq, Eq, Structural)]
pub enum Failure {
    /// The statement was not executed, because another one failed.
    NotExecuted,
    /// The statement would have created what exists already.
    Conflict,
    /// Any other failure.
    Other,
}

/// The error that the engine reports for one statement of a transaction.
#[derive(Clone, Copy, Debug, PartialEq, Eq, Structural)]
pub struct StatementError {
    /// The position of the statement in the transaction.
    pub statement: usize,
    pub failure: Failure,
}

/// Which error of a transaction is surfaced.
#[derive(Clone, Copy, Debug, PartialEq, Eq, Structural)]
pub enum FirstError {
    /// The error at this position of the list that the engine reported.
    Real(usize),
    /// The engine reported nothing but "not executed".
    OnlyNotExecuted,
}

/// Whether an error is a real one.
pub open spec fn is_real(e: StatementError) -> bool {
    e.failure != Failure::NotExecuted
}

/// The error at `i` is real, no real error belongs to an earlier statement,
/// and of the real errors of its statement it is the first in the list.
pub open spec fn is_first_real(errors: Seq<StatementError>, i: int) -> bool {
    &&& 0 <= i < errors.len()
    &&& is_real(errors[i])
    &&& forall|j: int|
        0 <= j < errors.len() && is_real(#[trigger] errors[j]) ==> errors[i].statement
            < errors[j].statement || (errors[i].statement == errors[j].statement && i <= j)
}

/// What checking the errors of a transaction gives: success where there is
/// none, else the first real error, else the notice that all of them are
/// "not executed".
pub open spec fn check_spec(errors: Seq<StatementError>, r: Result<(), FirstError>) -> bool {
    match r {
        Ok(()) => errors.len() == 0,
        Err(FirstError::Real(i)) => is_first_real(errors, i as int),
        Err(FirstError::OnlyNotExecuted) => errors.len() > 0 && forall|j: int|
            0 <= j < errors.len() ==> !is_real(#[trigger] errors[j]),
    }
}

/// Finds the cause among the errors that the engine reported for a
/// transaction.
pub fn check_first_real_error(errors: &Vec<StatementError>) -> (r: Result<(), FirstError>)
    ensures
        check_spec(errors@, r),
{
    if errors.len() == 0 {
        return Ok(());
    }
    let mut best: Option<usize> = None;
    let mut i: usize = 0;
    while i < errors.len()
        invariant
            i <= errors@.len(),
            match best {
                Some(b) => b < i && is_real(errors@[b as int]) && forall|j: int|
                    0 <= j < i && is_real(#[trigger] errors@[j]) ==> errors@[b as int].statement
                        < errors@[j].statement || (errors@[b as int].statement
                        == errors@[j].statement && b <= j),
                None => forall|j: int| 0 <= j < i ==> !is_real(#[trigger] errors@[j]),
            },
        decreases errors@.len() - i,
    {
        let counts = match errors[i].failure {
            Failure::NotExecuted => false,
            _ => true,
        };
        if counts {
            match best {
                Some(b) => {
                    if errors[i].statement < errors[b].statement {
                        best = Some(i);
                    }
                },
                None => {
                    best = Some(i);
                },
            }
        }
        i += 1;
    }
    match best {
        Some(b) => Err(FirstError::Real(b)),
        None => Err(FirstError::OnlyNotExecuted),
    }
}

/// The error that a client is told for a failed transaction: a conflict
/// where the cause is one, and in every other case an internal error that
/// says nothing of the cause.
pub fn surface(errors: &Vec<StatementError>, conflict_message: &str) -> (r: Result<
    (),
    PublicError,
>)
    ensures
        r is Ok <==> errors@.len() == 0,
        r matches Err(e) ==> {
            let conflict = exists|i: int|
                is_first_real(errors@, i) && errors@[i].failure == Failure::Conflict;
            if conflict {
                e.status_code == StatusCode::Conflict && e.message@ == conflict_message@
            } else {
                e.status_code == StatusCode::InternalServerError && e.message@
                    == StatusCode::InternalServerError.reason_spec()
            }
        },
{
    match check_first_real_error(errors) {
        Ok(()) => Ok(()),
        Err(FirstError::Real(i)) => {
            proof {
                assert forall|k: int| is_first_real(errors@, k) implies k == i by {
                    assert(is_real(errors@[k]) && is_real(errors@[i as int]));
                }
            }
            match errors[i].failure {
                Failure::Conflict => Err(PublicError::conflict(conflict_message)),
                _ => Err(PublicError::internal()),
            }
        },
        Err(FirstError::OnlyNotExecuted) => {
            proof {
                assert forall|k: int| !is_first_real(errors@, k) by {
                    if is_first_real(errors@, k) {
                        assert(is_real(errors@[k]));
                    }
                }
            }
            Err(PublicError::internal())
        },
    }
}

} // verus!
