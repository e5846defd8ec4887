use anamdb::logic::canonical::normalize;

#[test]
fn normalize_basic_rule() {
    let raw = "High_Risk(x) :- Transactions(x), x.fraud_prob > 0.9, x.amount > 10000.";
    let result = normalize(raw);
    assert_eq!(
        result,
        "high_risk(X) :- transactions(X), X.amount > 10000, X.fraud_prob > 0.9."
    );
}

#[test]
fn normalize_plain_constraint() {
    let raw = "fraud_prob > 0.90 AND amount > 10000 AND region = 'EU'";
    let result = normalize(raw);
    assert_eq!(result, "AMOUNT > 10000 AND FRAUD_PROB > 0.90 AND REGION = 'EU'");
}

#[test]
fn normalize_multi_atom_rule() {
    let raw = "result(X) :- orders(X), customers(X), X.amount > 100.";
    let result = normalize(raw);
    assert_eq!(result, "result(X) :- customers(X), orders(X), X.amount > 100.");
}

#[test]
fn normalize_empty() {
    assert_eq!(normalize(""), "");
    assert_eq!(normalize("   "), "");
}

#[test]
fn normalize_preserves_string_literals() {
    let raw = "eu_cust(X) :- customers(X), X.region = 'EU'.";
    let result = normalize(raw);
    assert!(result.contains("'EU'"));
}

#[test]
fn normalize_recursive_rule() {
    let raw = "inferred_interaction(A, X) :- InteractsWith(A, B), inferred_interaction(B, X).";
    let result = normalize(raw);
    assert_eq!(
        result,
        "inferred_interaction(A, X) :- inferred_interaction(B, X), interactswith(A, B)."
    );
}

#[test]
fn atom_order_does_not_change_canonical_form() {
    let a = normalize("r(X) :- orders(X), customers(X), items(X), X.amount > 1.");
    let b = normalize("r(X) :- items(X), orders(X), customers(X), X.amount > 1.");
    assert_eq!(a, b);
    assert_eq!(a, "r(X) :- customers(X), items(X), orders(X), X.amount > 1.");
}

#[test]
fn conditions_sorted_by_column_keep_their_order_on_ties() {
    let r = normalize("r(X) :- t(X), X.b > 2, X.a < 9, X.b < 5.");
    assert_eq!(r, "r(X) :- t(X), X.a < 9, X.b > 2, X.b < 5.");
}

#[test]
fn normalize_is_stable_on_its_output() {
    let once = normalize("High_Risk(x) :- Transactions(x), x.fraud_prob > 0.9, x.amount > 10000.");
    assert_eq!(normalize(&once), once);
}

#[test]
fn normalize_keeps_numbers_and_quoted_text() {
    assert_eq!(normalize("score >= 1e-3 AND name != \"Bob\""), "NAME != \"Bob\" AND SCORE >= 1e-3");
}

#[test]
fn condition_order_does_not_matter_for_distinct_columns() {
    assert_eq!(
        normalize("r(X) :- t(X), X.b > 1, X.a < 2."),
        normalize("r(X) :- t(X), X.a < 2, X.b > 1.")
    );
    assert_eq!(normalize("a > 1 AND b < 2"), normalize("b < 2 AND a > 1"));
    // Two conditions on one column keep the order they were given in.
    assert_ne!(
        normalize("r(X) :- t(X), X.a > 1, X.a < 5."),
        normalize("r(X) :- t(X), X.a < 5, X.a > 1.")
    );
}
