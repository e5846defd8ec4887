//! Prediction type of `PREDICT` queries.

use vstd::prelude::*;

verus! {

/// Prediction type: classification (thresholded) or regression (raw score).
#[derive(Debug, Clone, Copy, PartialEq, Eq, Structural)]
pub enum PredictType {
    /// `PREDICT CLASS OF` — the output is thresholded at 0.5 for binary classification.
    Class,
    /// `PREDICT VALUE OF` — the output is a raw regression score.
    Value,
}

} // verus!
