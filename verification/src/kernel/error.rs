//! Unified error type for AnamDB.

use vstd::prelude::*;

verus! {

/// Canonical error type for all AnamDB operations.
///
/// Errors that come from outside libraries carry their message.
#[derive(Debug, Clone, PartialEq, Eq)]
pub enum AnamError {
    /// An I/O error from the storage layer.
    Io(String),
    /// Arrow / DataFusion interop failure.
    Arrow(String),
    /// DataFusion planning or execution error.
    DataFusion(String),
    /// Lance storage error.
    Lance(String),
    /// A requested model was not found in the AI-Tables catalog.
    ModelNotFound(String),
    /// Inference runtime failure.
    Inference(String),
    /// Datalog compilation or evaluation error.
    Logic(String),
    /// NL-to-Datalog translation failure.
    NlCompilation(String),
    /// The query requires human clarification before it can continue.
    ClarificationRequired(String),
    /// A semantic anomaly was detected in intermediate results.
    SemanticAnomaly(String),
    /// Malformed or unsupported SQL/query syntax.
    QueryParse(String),
    /// Multi-objective constraint violation (no feasible Pareto plan).
    NoFeasiblePlan(String),
    /// Hardware dispatch failure.
    Dispatch(String),
    /// Catch-all for unexpected errors.
    Internal(String),
    /// Serialization / deserialization error.
    Serde(String),
    /// HTTP / network error.
    Http(String),
}

/// Convenience alias used throughout the crate.
pub type Result<T> = std::result::Result<T, AnamError>;

} // verus!
