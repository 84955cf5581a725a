//! Decisions taken while the service data of an account is provisioned.

use vstd::prelude::*;
use vstd::string::*;
use crate::text::{has_prefix, starts_with};

verus! {

/// The ASCII code of the colon.
pub const COLON: u8 = 58;

/// The position of the first colon at or after `from`, or the end of the
/// text where there is none.
pub open spec fn field_end(s: Seq<u8>, from: int) -> int
    decreases s.len() - from,
{
    if from >= s.len() {
        s.len() as int
    } else if s[from] == COLON {
        from
    } else {
        field_end(s, from + 1)
    }
}

/// The bounds of the second of the fields that colons part a resource name
/// into: the partition. Nothing where the name has no colon.
pub open spec fn partition_bounds(arn: Seq<u8>) -> Option<(int, int)> {
    let first = field_end(arn, 0);
    if first >= arn.len() {
        None
    } else {
        Some((first + 1, field_end(arn, first + 1)))
    }
}

/// Finds the end of the field that begins at `from`.
pub fn find_field_end(s: &[u8], from: usize) -> (r: usize)
    requires
        from <= s@.len(),
    ensures
        r == field_end(s@, from as int),
        from <= r <= s@.len(),
{
    let mut i: usize = from;
    while i < s.len() && s[i] != COLON
        invariant
            from <= i <= s@.len(),
            field_end(s@, from as int) == field_end(s@, i as int),
        decreases s@.len() - i,
    {
        i += 1;
    }
    i
}

/// Finds the partition in a resource name.
pub fn partition_range(arn: &str) -> (r: Option<(usize, usize)>)
    ensures
        match r {
            Some((start, end)) => partition_bounds(arn.spec_bytes()) == Some(
                (start as int, end as int),
            ) && start <= end <= arn.spec_bytes().len(),
            None => partition_bounds(arn.spec_bytes()) is None,
        },
{
    let bytes = arn.as_bytes();
    let first = find_field_end(bytes, 0);
    if first >= bytes.len() {
        None
    } else {
        Some((first + 1, find_field_end(bytes, first + 1)))
    }
}

/// Where, in the location of an account's service data, the name of its
/// table begins: after `dynamodb://`. Nothing where the location does not
/// begin so.
pub fn table_name_start(service_data_surrealdb_url: &str) -> (r: Option<usize>)
    ensures
        r is Some <==> has_prefix(
            service_data_surrealdb_url.spec_bytes(),
            vstd::utf8::encode_utf8("dynamodb://"@),
        ),
        r matches Some(n) ==> n == vstd::utf8::encode_utf8("dynamodb://"@).len(),
{
    let prefix = "dynamodb://".as_bytes();
    if starts_with(service_data_surrealdb_url.as_bytes(), prefix) {
        Some(prefix.len())
    } else {
        None
    }
}

/// The number of seconds that a table is given to become available.
pub const WAIT_LIMIT_SECS: u64 = 30;

/// The position of the least count, and of the first of them where several
/// are the least.
pub open spec fn is_least_loaded(counts: Seq<u32>, i: int) -> bool {
    &&& 0 <= i < counts.len()
    &&& forall|j: int| 0 <= j < counts.len() ==> counts[i] <= #[trigger] counts[j]
    &&& forall|j: int| 0 <= j < i ==> counts[i] < #[trigger] counts[j]
}

/// Chooses, among the places that can hold service data, the one that holds
/// the fewest tables.
pub fn least_loaded(counts: &Vec<u32>) -> (r: Option<usize>)
    ensures
        match r {
            Some(i) => is_least_loaded(counts@, i as int),
            None => counts@.len() == 0,
        },
{
    if counts.len() == 0 {
        return None;
    }
    let mut best: usize = 0;
    let mut i: usize = 1;
    while i < counts.len()
        invariant
            1 <= i <= counts@.len(),
            best < i,
            forall|j: int| 0 <= j < i ==> counts@[best as int] <= #[trigger] counts@[j],
            forall|j: int| 0 <= j < best ==> counts@[best as int] < #[trigger] counts@[j],
        decreases counts@.len() - i,
    {
        if counts[i] < counts[best] {
            best = i;
        }
        i += 1;
    }
    Some(best)
}

/// What to do next while waiting for a table.
#[derive(Clone, Copy, Debug, PartialEq, Eq, Structural)]
pub enum Wait {
    /// The table is available.
    Done,
    /// Look again in a second.
    Retry,
    /// The table did not become available in time.
    TimedOut,
}

/// Decides what to do after a look at the table: where it is not available
/// yet, waiting goes on until thirty seconds have passed.
pub fn wait_step(active: bool, elapsed_secs: u64) -> (r: Wait)
    ensures
        r == if active {
            Wait::Done
        } else if elapsed_secs <= WAIT_LIMIT_SECS {
            Wait::Retry
        } else {
            Wait::TimedOut
        },
{
    if active {
        Wait::Done
    } else if elapsed_secs <= WAIT_LIMIT_SECS {
        Wait::Retry
    } else {
        Wait::TimedOut
    }
}

} // verus!
