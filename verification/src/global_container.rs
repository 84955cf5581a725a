//! Global containers: the relation between a globally unique resource and
//! what was discovered through it.

use vstd::prelude::*;
use crate::resource::ResourceId;

verus! {

/// A globally unique resource and a resource that it contains. The store
/// derives these rows when it is queried; ingestion does not write them.
#[derive(Debug, PartialEq, Eq)]
pub struct GlobalContainer {
    pub id: ResourceId,
    pub contains: ResourceId,
}

} // verus!
