use anamdb::logic::datalog_checker::{
    ColumnKind, DatalogChecker, RelationSchema, SchemaField, ValidationCategory,
};

fn field(name: &str, kind: ColumnKind, label: &str) -> SchemaField {
    SchemaField { name: name.into(), kind, type_label: label.into() }
}

fn test_checker() -> DatalogChecker {
    let mut checker = DatalogChecker::new();
    checker.register_schema(
        "transactions",
        RelationSchema {
            fields: vec![
                field("amount", ColumnKind::Numeric, "Float64"),
                field("fraud_prob", ColumnKind::Numeric, "Float64"),
                field("region", ColumnKind::Text, "Utf8"),
                field("merchant_type", ColumnKind::Text, "Utf8"),
            ],
        },
    );
    checker.register_schema(
        "customers",
        RelationSchema {
            fields: vec![
                field("name", ColumnKind::Text, "Utf8"),
                field("order_count", ColumnKind::Numeric, "Int64"),
                field("region", ColumnKind::Text, "Utf8"),
            ],
        },
    );
    checker
}

#[test]
fn valid_rule_passes() {
    let checker = test_checker();
    let result =
        checker.validate("high_risk(X) :- transactions(X), X.fraud_prob > 0.9, X.amount > 10000.");
    assert!(result.is_valid, "Expected valid, got: {}", result.diagnostic_string());
}

#[test]
fn unknown_relation_fails_vocabulary() {
    let checker = test_checker();
    let result = checker.validate("bad(X) :- nonexistent_table(X), X.foo > 1.");
    assert!(!result.is_valid);
    assert!(result.errors.iter().any(|e| e.category == ValidationCategory::Vocabulary));
}

#[test]
fn typo_relation_suggests_fix() {
    let checker = test_checker();
    let result = checker.validate("bad(X) :- transctions(X), X.amount > 1.");
    assert!(!result.is_valid);
    let vocab_err = result
        .errors
        .iter()
        .find(|e| e.category == ValidationCategory::Vocabulary)
        .unwrap();
    assert!(vocab_err.suggestion.as_ref().unwrap().contains("transactions"));
}

#[test]
fn type_mismatch_string_vs_numeric() {
    let checker = test_checker();
    let result = checker.validate("bad(X) :- transactions(X), X.amount > 'high'.");
    assert!(!result.is_valid);
    assert!(result.errors.iter().any(|e| e.category == ValidationCategory::TypeMismatch));
}

#[test]
fn type_mismatch_unquoted_string() {
    let checker = test_checker();
    let result = checker.validate("bad(X) :- transactions(X), X.region = EU.");
    assert!(!result.is_valid);
    assert!(result.errors.iter().any(|e| e.category == ValidationCategory::TypeMismatch));
}

#[test]
fn empty_source_fails() {
    let checker = test_checker();
    let result = checker.validate("");
    assert!(!result.is_valid);
    assert!(result.errors.iter().any(|e| e.category == ValidationCategory::Syntax));
}

#[test]
fn plain_constraint_passes() {
    let checker = test_checker();
    let result = checker.validate("fraud_prob > 0.90 AND amount > 10000");
    assert!(result.is_valid);
}

#[test]
fn recursive_rule_passes() {
    let checker = test_checker();
    let result = checker.validate("inferred(A, X) :- transactions(A), inferred(A, X).");
    assert!(result.is_valid, "{}", result.diagnostic_string());
}

#[test]
fn unbound_variable_is_a_scope_error() {
    let checker = test_checker();
    let result = checker.validate("bad(X) :- transactions(X), Y.amount > 5.");
    assert_eq!(result.errors.len(), 1);
    let e = &result.errors[0];
    assert_eq!(e.category, ValidationCategory::Scope);
    assert_eq!(e.offending_fragment, "Y.amount");
    assert_eq!(
        e.message,
        "Variable 'Y' used in condition but not bound in any body atom."
    );
}

#[test]
fn diagnostics_number_each_error() {
    let checker = test_checker();
    let result = checker.validate("bad(X) :- transctions(X), X.amount > 1.");
    assert_eq!(
        result.diagnostic_string(),
        "Datalog validation errors:\n  1: [VOCABULARY] Relation 'transctions' not found in schema catalog. (suggestion: Did you mean 'transactions'?)"
    );
    assert_eq!(checker.validate("t(X) :- customers(X).").diagnostic_string(), "Rule is valid.");
}

#[test]
fn numeric_column_against_word_reports_its_type() {
    let checker = test_checker();
    let result = checker.validate("bad(X) :- customers(X), X.order_count > many.");
    assert_eq!(result.errors.len(), 1);
    assert_eq!(
        result.errors[0].message,
        "Column 'order_count' is numeric (Int64) but compared against non-numeric value 'many'."
    );
}

#[test]
fn far_names_get_no_suggestion_and_registering_replaces() {
    let mut checker = test_checker();
    let result = checker.validate("bad(X) :- zzzzzz(X).");
    assert_eq!(result.errors.len(), 1);
    assert!(result.errors[0].suggestion.is_none());
    checker.register_schema("ZZZZZZ", RelationSchema { fields: vec![] });
    assert!(checker.validate("bad(X) :- zzzzzz(X).").is_valid);
}
