//! Datalog tooling: canonical normalisation, repair candidates, schema
//! checking and the rule types of the logic engine.

pub mod canonical;
pub mod datalog_checker;
pub mod engine;
pub mod facts;
pub mod datalog_repair;
pub mod nl_compiler;
