//! Kernel core: the replicated policy catalog, provenance semirings and the
//! error type.

pub mod bcnf_catalog;
pub mod error;
pub mod provenance;
pub mod session;
