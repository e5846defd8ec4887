use anamdb::logic::datalog_repair::{
    generate_candidates, repair_step, threshold_sites, MutationType, RepairCandidate,
    ScaledThreshold,
};

fn scaled(value: &str, down: &str, up: &str) -> Option<ScaledThreshold> {
    Some(ScaledThreshold { value: value.into(), scaled_down: down.into(), scaled_up: up.into() })
}

#[test]
fn generate_operator_swap_candidates() {
    let source = "high_risk(X) :- transactions(X), X.fraud_prob > 0.9, X.amount > 10000.";
    let scales = vec![None, scaled("0.9", "0.09", "9"), scaled("10000", "1000", "100000")];
    let candidates = generate_candidates(source, &scales);
    assert!(!candidates.is_empty());
    let has_gte_swap = candidates
        .iter()
        .any(|c| c.mutation == MutationType::OperatorSwap && c.modified_source.contains(">="));
    assert!(has_gte_swap, "Expected >= swap candidate");
}

#[test]
fn generate_threshold_scale_candidates() {
    let source = "high_risk(X) :- transactions(X), X.amount > 10000.";
    let scales = vec![None, scaled("10000", "1000", "100000")];
    let candidates = generate_candidates(source, &scales);
    let threshold_candidates: Vec<_> =
        candidates.iter().filter(|c| c.mutation == MutationType::ThresholdScale).collect();
    assert!(threshold_candidates.len() >= 2);
    let has_1000 = threshold_candidates.iter().any(|c| c.modified_source.contains("1000"));
    assert!(has_1000, "Expected 10000 / 10 = 1000 variant");
}

#[test]
fn generate_condition_relaxation() {
    let source =
        "strict(X) :- transactions(X), X.fraud_prob > 0.99, X.amount > 100000, X.region = 'EU'.";
    let candidates = generate_candidates(source, &vec![]);
    let relax: Vec<_> =
        candidates.iter().filter(|c| c.mutation == MutationType::ConditionRelax).collect();
    assert_eq!(relax.len(), 3, "Expected 3 condition relaxation candidates");
}

#[test]
fn no_candidates_for_atom_only_rule() {
    let source = "derived(X) :- facts(X).";
    let candidates = generate_candidates(source, &vec![]);
    assert!(candidates.is_empty());
}

#[test]
fn exact_candidates_of_a_one_condition_rule() {
    let source = "r(X) :- t(X), X.a > 10.";
    let sites = threshold_sites(source);
    assert_eq!(sites.len(), 2);
    assert!(sites[0].is_none());
    let site = sites[1].as_ref().unwrap();
    assert_eq!((site.lhs.as_str(), site.op.as_str(), site.rhs.as_str()), ("X.a", ">", "10"));
    let c = generate_candidates(source, &vec![None, scaled("10", "1", "100")]);
    let got: Vec<(&str, &str)> =
        c.iter().map(|c| (c.modified_source.as_str(), c.change_description.as_str())).collect();
    assert_eq!(
        got,
        vec![
            ("r(X) :- t(X), X.a >= 10.", "Condition 'X.a > 10': relaxed > to >="),
            ("r(X) :- t(X), X.a > 1.", "Scaled threshold: 10 → 1 (÷10)"),
            ("r(X) :- t(X), X.a > 100.", "Scaled threshold: 10 → 100 (×10)"),
        ]
    );
}

#[test]
fn equality_is_inverted_and_not_doubled() {
    let c = generate_candidates("r(X) :- t(X), X.k != 3.", &vec![]);
    assert_eq!(c.len(), 1);
    assert_eq!(c[0].modified_source, "r(X) :- t(X), X.k = 3.");
    assert_eq!(c[0].change_description, "Condition 'X.k != 3': inverted != to =");
}

#[test]
fn repair_step_takes_only_productive_candidates() {
    let cand = RepairCandidate {
        modified_source: "r(X) :- t(X).".into(),
        change_description: "Removed condition 'X.a > 1'".into(),
        mutation: MutationType::ConditionRelax,
    };
    assert!(repair_step("r(X) :- t(X), X.a > 1.", &cand, None).is_none());
    assert!(repair_step("r(X) :- t(X), X.a > 1.", &cand, Some(0)).is_none());
    let rep = repair_step("r(X) :- t(X), X.a > 1.", &cand, Some(7)).unwrap();
    assert_eq!(rep.result_count, 7);
    assert_eq!(
        rep.summary(),
        "═══ Datalog Repair Report ═══\nOriginal: r(X) :- t(X), X.a > 1.\nRepaired: r(X) :- t(X).\nChange:   Removed condition 'X.a > 1'\nResults:  7 rows"
    );
}
