//! Distributed multi-objective optimisation with network-aware costs.

use vstd::prelude::*;

verus! {

/// The distributed multi-objective optimizer: computes network-aware
/// Pareto frontiers that account for data movement between nodes.
#[derive(Debug)]
pub struct DistributedOptimizer;

} // verus!
