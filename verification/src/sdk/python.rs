//! The API surface of the Python client.

use vstd::prelude::*;

use crate::text::{chars_of, string_of};

verus! {

/// The Python client: the server address it connects to.
#[derive(Debug)]
pub struct PyAnamClient {
    /// Server address.
    pub addr: String,
}

impl PyAnamClient {
    /// A client for the server at `addr`.
    pub fn new(addr: &str) -> (r: Self)
        ensures
            r.addr@ == addr@,
    {
        PyAnamClient { addr: string_of(&chars_of(addr)) }
    }
}

/// The Python query result wrapper.
#[derive(Debug)]
pub struct PyQueryResult {
    /// Number of rows.
    pub num_rows: usize,
    /// Column names.
    pub columns: Vec<String>,
    /// Reasoning tree.
    pub reasoning_tree: Option<String>,
}

} // verus!
