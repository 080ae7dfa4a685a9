//! Digitizer configuration routes: request bodies.

use vstd::prelude::*;

verus! {

/// Body of a request to restore a digitizer configuration version.
#[derive(Debug, Clone, Copy)]
pub struct RestoreVersionRequest {
    /// Version number to restore.
    pub version: u32,
}

} // verus!
