//! Ingestion and identity model of a multi-tenant security resource graph.
//!
//! Clients submit reports of the resources, actor chains and events that
//! they observed. The library turns a report into a batch of idempotent
//! operations, defines how the store merges them into the graph, and proves
//! what ingestion guarantees. It also holds the capability keys by which the
//! submitters of reports are authenticated.

use vstd::prelude::*;

pub mod account;
pub mod auth;
pub mod crypto;
pub mod db;
pub mod decimal;
pub mod env;
pub mod error;
pub mod event;
pub mod global_container;
pub mod ingestion;
pub mod json;
pub mod operation;
pub mod principal_chain;
pub mod proto;
pub mod provisioning;
pub mod queries;
pub mod query;
pub mod records;
pub mod report;
pub mod report_api_key;
pub mod resource;
pub mod shapes;
pub mod state;
pub mod statement;
pub mod store;
pub mod surrealdb_deserializers;
pub mod table;
pub mod text;
pub mod timestamp;
pub mod user;
pub mod value;

verus! {

/// The name of the statement parameter with the given number.
pub open spec fn binding_name(n: u64) -> Seq<char> {
    "bind_"@ + crate::decimal::decimal_chars(n as nat)
}

/// The number that follows `n`; after the greatest number, zero.
pub open spec fn next_number(n: u64) -> u64 {
    if n == u64::MAX {
        0
    } else {
        (n + 1) as u64
    }
}

/// Hands out a fresh name for a statement parameter and advances the
/// counter, which wraps around at the end of its range.
pub fn next_binding(counter: &mut u64) -> (r: String)
    ensures
        r@ == binding_name(*old(counter)),
        *final(counter) == next_number(*old(counter)),
{
    let n = *counter;
    *counter = if n == u64::MAX {
        0
    } else {
        n + 1
    };
    let mut name = crate::text::copy_str("bind_");
    crate::decimal::push_decimal_str(&mut name, n);
    name
}

} // verus!
