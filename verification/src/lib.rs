//! AnamDB: a neurosymbolic database kernel.
//!
//! The library holds the kernel's logic: the replicated policy catalog,
//! provenance semirings, canonical Datalog normalisation, repair and
//! checking of rules, triage and monitoring state, and the value types that
//! the server, the SDK and the storage layer exchange.

pub mod cli;
pub mod client;
pub mod execution;
pub mod hitl;
pub mod kernel;
pub mod logic;
pub mod model;
pub mod sdk;
pub mod server;
pub mod storage;
pub mod text;
