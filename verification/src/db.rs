//! What the sinks of a run need to be reached.

use vstd::prelude::*;

verus! {

/// The credentials of the time-series store.
#[derive(Debug, Clone)]
pub struct DBCreds {
    pub user: String,
    pub password: String,
    pub database: String,
}

} // verus!
