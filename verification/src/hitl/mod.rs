//! Human-in-the-loop support: anomaly triage, cluster-wide isolation of
//! anomalous data paths, self-repair of operators and query explanations.

pub mod self_repair;
pub mod triage;
pub mod global_lineage;
pub mod explainer;
