//! Protocol message types of the wire protocol.

use vstd::prelude::*;

verus! {

/// Query request.
#[derive(Clone, Debug)]
pub struct QueryRequest {
    /// SQL query string.
    pub sql: String,
}

/// A single streaming query response chunk.
#[derive(Clone, Debug)]
pub struct QueryResponse {
    /// Arrow IPC-encoded batch bytes.
    pub arrow_ipc_batch: Vec<u8>,
    /// Arrow IPC-encoded schema bytes.
    pub arrow_ipc_schema: Vec<u8>,
    /// Provenance reasoning tree.
    pub reasoning_tree: String,
    /// Anomaly descriptions.
    pub anomalies: Vec<String>,
}

/// Register table request.
#[derive(Clone, Debug)]
pub struct RegisterTableRequest {
    /// Logical table name.
    pub name: String,
    /// Filesystem path to the Lance dataset.
    pub lance_path: String,
}

/// Register table response.
#[derive(Clone, Debug)]
pub struct RegisterTableResponse {
    /// Whether the operation succeeded.
    pub success: bool,
    /// Status message.
    pub message: String,
}

/// Register rule request.
#[derive(Clone, Debug)]
pub struct RegisterRuleRequest {
    /// Rule name.
    pub name: String,
    /// Datalog expression.
    pub datalog: String,
}

/// Register rule response.
#[derive(Clone, Debug)]
pub struct RegisterRuleResponse {
    /// Whether the operation succeeded.
    pub success: bool,
    /// Status message.
    pub message: String,
}

/// Load model response.
#[derive(Clone, Debug)]
pub struct LoadModelResponse {
    /// Whether the operation succeeded.
    pub success: bool,
    /// Unique model ID assigned by the registry.
    pub model_id: String,
    /// Status message.
    pub message: String,
}

/// Health request.
#[derive(Clone, Debug)]
pub struct HealthRequest;

/// Health response.
#[derive(Clone, Debug)]
pub struct HealthResponse {
    /// "SERVING" or "NOT_SERVING".
    pub status: String,
    /// AnamDB version.
    pub version: String,
    /// Number of registered tables.
    pub table_count: u32,
    /// Number of registered models.
    pub model_count: u32,
    /// Number of registered rules.
    pub rule_count: u32,
}

} // verus!
