//! Logic packs: bundled Datalog rules.

use vstd::prelude::*;

verus! {

/// A bundled Datalog rule within a logic pack.
#[derive(Debug, Clone)]
pub struct PackRule {
    /// Rule name (used as the Datalog head).
    pub name: String,
    /// The raw Datalog body (e.g. `fraud_prob > 0.90 AND amount > 10000`).
    pub datalog: String,
    /// Optional natural-language description of what this rule enforces.
    pub description: Option<String>,
}

} // verus!
