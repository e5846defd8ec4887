use anamdb::hitl::explainer::{coarse_summary, explain_row, ExplainContext, ExplainLevel, QueryExplanation, RowExplanation};
use anamdb::hitl::global_lineage::ClusterMonitor;
use anamdb::hitl::self_repair::{
    classify_error, rows_to_keep, DiagnosisSeverity, ErrorClass, RepairAction, SelfRepairAgent,
};
use anamdb::hitl::triage::{Anomaly, AnomalySeverity, TriageAction, TriageSession};
use anamdb::kernel::provenance::{PolynomialSemiring, ProvenanceToken, Semiring};

fn anomaly(desc: &str, rows: usize, severity: AnomalySeverity) -> Anomaly {
    Anomaly {
        description: desc.into(),
        affected_rows: rows,
        severity,
        suggested_action: "Check model weights".into(),
    }
}

#[test]
fn cluster_isolation() {
    let mut monitor = ClusterMonitor::new();
    let _iso = monitor.isolate_anomaly(
        "edge-1",
        Anomaly {
            description: "Uniform scores on edge-1".into(),
            affected_rows: 500,
            severity: AnomalySeverity::Critical,
            suggested_action: "Check model weights".into(),
        },
    );
    assert_eq!(monitor.active_isolations().len(), 1);
    assert!(monitor.summary().contains("edge-1"));
    monitor.resume("edge-1");
    assert_eq!(monitor.active_isolations().len(), 0);
}

#[test]
fn monitor_summary_lines() {
    let mut monitor = ClusterMonitor::new();
    assert_eq!(monitor.summary(), "═══ Cluster Monitor: All nodes healthy ═══");
    let iso = monitor.isolate_anomaly("n1", anomaly("spike", 3, AnomalySeverity::Warning));
    assert!(iso.isolated && iso.cluster_healthy);
    monitor.isolate_anomaly("n2", anomaly("drift", 4, AnomalySeverity::Info));
    monitor.resume("n1");
    assert_eq!(
        monitor.summary(),
        "═══ Cluster Monitor: 1 isolated path(s) ═══\n  ⚠ Node n2: [INFO] drift"
    );
}

#[test]
fn resuming_another_node_changes_nothing() {
    let mut monitor = ClusterMonitor::new();
    monitor.isolate_anomaly("a", anomaly("x", 1, AnomalySeverity::Critical));
    monitor.resume("b");
    assert_eq!(monitor.active_isolations().len(), 1);
}

#[test]
fn diagnose_dimension_mismatch() {
    let agent = SelfRepairAgent::new();
    let review = agent.review(
        "dimension mismatch: expected 3, got 5",
        "fraud_detector",
        "input batch has 5 columns",
    );
    assert_eq!(review.severity, DiagnosisSeverity::Recoverable);
    assert!(review.root_cause.contains("shape mismatch"));
}

#[test]
fn diagnose_timeout_with_swap() {
    let mut agent = SelfRepairAgent::new();
    agent.register_available_models(vec!["fraud_detector".into(), "fraud_fast".into()]);
    let review =
        agent.review("operator exceeded deadline of 50ms", "fraud_detector", "latency constraint violated");
    assert_eq!(review.severity, DiagnosisSeverity::Recoverable);
    match agent.rewrite(review.severity, &review.root_cause, "fraud_detector") {
        RepairAction::SwapModel { replacement, .. } => assert_eq!(replacement, "fraud_fast"),
        other => panic!("expected SwapModel, got {other:?}"),
    }
}

#[test]
fn diagnose_fatal_escalates() {
    let agent = SelfRepairAgent::new();
    let review = agent.review("some unknown error xyz", "op1", "");
    assert_eq!(review.severity, DiagnosisSeverity::Fatal);
    assert!(matches!(
        agent.rewrite(review.severity, &review.root_cause, "op1"),
        RepairAction::Escalate { .. }
    ));
}

#[test]
fn error_classes_and_actions() {
    assert_eq!(classify_error("Unsupported CODEC"), ErrorClass::UnsupportedFormat);
    assert_eq!(classify_error("value is None"), ErrorClass::MissingValues);
    assert_eq!(classify_error("OOM on device"), ErrorClass::OutOfMemory);
    let agent = SelfRepairAgent::new();
    let review = agent.review("null in column", "op", "ctx here");
    assert_eq!(review.root_cause, "Null or missing values detected in input to 'op'. ctx here");
    let a = agent.rewrite(DiagnosisSeverity::Recoverable, "why", "op");
    assert_eq!(a.to_string(), "RetryWithParams: Reduce batch size and retry.");
    let d = agent.rewrite(DiagnosisSeverity::Degraded, "why", "op");
    assert_eq!(
        d.to_string(),
        "SkipAndContinue (0 rows): Continuing in degraded mode. Unsupported rows will be skipped. Root cause: why"
    );
}

#[test]
fn rows_with_nulls_are_skipped() {
    let validity = vec![vec![true, false, true], vec![], vec![true, true, false]];
    assert_eq!(rows_to_keep(&validity, 3), vec![0u64]);
    assert_eq!(rows_to_keep(&vec![], 2), vec![0u64, 1]);
}

#[test]
fn triage_session_flow() {
    let mut s = TriageSession::new(vec![anomaly("odd", 2, AnomalySeverity::Warning)]);
    assert!(!s.is_complete());
    s.record_action(TriageAction::Correct("use v2".into()));
    assert!(s.is_complete());
    assert_eq!(
        s.summary(),
        "═══ Semantic Anomaly Triage ═══\n\n[Anomaly 1]\n  Severity: WARNING\n  odd\n  Affected rows: 2\n  Suggested: Check model weights\n  Action: Correct(\"use v2\")"
    );
    assert_eq!(
        anomaly("odd", 2, AnomalySeverity::Critical).to_string(),
        "[CRITICAL] odd (2 rows affected)\n  → Check model weights"
    );
}

#[test]
fn coarse_explanation() {
    let context = ExplainContext {
        rules: vec![("high_risk".into(), "fraud_prob > 0.90".into())],
        models: vec![("fraud_detector".into(), "1.0.0".into())],
        provenance_mode: "Polynomial".into(),
        device_summary: "8 CPUs + Metal M2".into(),
    };
    let fields = vec!["fraud_prob:Float64".to_string()];
    let summary = coarse_summary(3, 1, &context, Some(&fields), &vec![]);
    assert!(summary.contains("3 row(s)"));
    assert!(summary.contains("high_risk"));
    let explanation =
        QueryExplanation { level: ExplainLevel::Coarse, summary, row_explanations: vec![] };
    assert!(explanation.row_explanations.is_empty());
    assert!(explanation.display().contains("AnamDB Query Explanation"));
}

#[test]
fn row_lineage_from_provenance() {
    let tok = ProvenanceToken {
        model_ver_id: "m_v1".into(),
        func_id: "score".into(),
        source_record_ids: vec!["r1".into(), "r2".into()],
    };
    let poly = PolynomialSemiring::singleton(tok);
    let row = explain_row(4, Some(&poly));
    assert_eq!(row.model_version, "m_v1");
    assert_eq!(row.function_id, "score");
    assert_eq!(row.source_records, vec!["r1".to_string(), "r2".to_string()]);
    assert_eq!(row.explanation, "Derived via score using model 'm_v1', sourced from [r1, r2]");
    let none = explain_row(5, None);
    assert_eq!(none.explanation, "Row 5: no provenance attached");
    let zero = PolynomialSemiring::zero();
    assert_eq!(explain_row(0, Some(&zero)).model_version, "unknown");
}

#[test]
fn explanation_display_lists_rows() {
    let e = QueryExplanation {
        level: ExplainLevel::Fine,
        summary: "S".into(),
        row_explanations: vec![RowExplanation {
            row: 0,
            source_records: vec!["a".into()],
            model_version: "m".into(),
            function_id: "f".into(),
            explanation: "E".into(),
        }],
    };
    let text = e.display();
    assert!(text.contains("\n  Row 0: E\n    Model: m (f)\n    Sources: a\n"));
}
