//! Event-builder configuration routes: queries and request bodies.

use vstd::prelude::*;

verus! {

/// Query of the configurations of one experiment.
#[derive(Debug, Clone)]
pub struct ListConfigsQuery {
    pub exp_name: String,
}

/// Query of a configuration's history; `limit` defaults to
/// [`default_limit`].
#[derive(Debug, Clone, Copy)]
pub struct HistoryQuery {
    pub limit: i64,
}

/// Number of history entries returned when the query names none.
pub fn default_limit() -> (r: i64)
    ensures
        r == 20,
{
    20
}

/// Body of a request to restore an event-builder configuration version.
#[derive(Debug, Clone, Copy)]
pub struct RestoreVersionRequest {
    pub version: u32,
}

} // verus!
