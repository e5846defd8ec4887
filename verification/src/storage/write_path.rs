//! Write path results: INSERT, UPDATE and DELETE on versioned datasets.

use vstd::prelude::*;

verus! {

/// Result of a write operation.
#[derive(Debug)]
pub struct WriteResult {
    /// Number of rows affected.
    pub rows_affected: usize,
    /// New dataset version after the mutation.
    pub new_version: u64,
}

} // verus!
