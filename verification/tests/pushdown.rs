use anamdb::execution::logic_optimizer_rule::{
    combine_predicates, extract_all_predicates, extract_column_name, extract_pushable_predicates,
    parse_value_lit, scan_filter, Literal, Predicate, PushdownExpr,
};
use anamdb::logic::engine::{FilterOp, RuleRegistry};

fn pred(column: &str, op: FilterOp, value: Literal) -> Predicate {
    Predicate { column: column.to_string(), op, value }
}

#[test]
fn extract_column_name_parses_var_dot_col() {
    assert_eq!(extract_column_name("X.amount"), Some("amount".into()));
    assert_eq!(extract_column_name("T.region_code"), Some("region_code".into()));
    assert_eq!(extract_column_name("plain_name"), None);
    assert_eq!(extract_column_name(""), None);
}

#[test]
fn parse_value_lit_handles_types() {
    // Float
    assert!(parse_value_lit("3.14").is_some());
    // Integer
    assert!(parse_value_lit("42").is_some());
    // String literal
    assert!(parse_value_lit("'hello'").is_some());
    // Invalid
    assert!(parse_value_lit("no_quotes").is_none());
}

#[test]
fn extract_predicates_from_datalog_rule() {
    let source = "high_risk(X) :- transactions(X), X.amount > 10000, X.region = 'EU'.";
    let predicates = extract_pushable_predicates(source);
    assert_eq!(predicates.len(), 2, "should extract 2 predicates");
}

#[test]
fn extract_predicates_empty_for_no_conditions() {
    let source = "derived(X) :- base(X).";
    let predicates = extract_pushable_predicates(source);
    assert!(predicates.is_empty(), "no comparison predicates expected");
}

#[test]
fn combine_predicates_works() {
    let preds = vec![pred("a", FilterOp::Gt, Literal::Int(1)), pred("b", FilterOp::Lt, Literal::Int(10))];
    let combined = combine_predicates(&preds);
    match combined {
        PushdownExpr::And(left, right) => {
            assert!(matches!(*left, PushdownExpr::Compare(ref p) if p.column == "a"), "should reference column a");
            assert!(matches!(*right, PushdownExpr::Compare(ref p) if p.column == "b"), "should reference column b");
        }
        other => panic!("expected a conjunction, got {other:?}"),
    }
}

#[test]
fn literal_values_are_exact() {
    assert_eq!(parse_value_lit(" 3.14 "), Some(Literal::Float("3.14".into())));
    assert_eq!(parse_value_lit("42"), Some(Literal::Int(42)));
    assert_eq!(parse_value_lit("+7"), Some(Literal::Int(7)));
    assert_eq!(parse_value_lit("-9223372036854775808"), Some(Literal::Int(i64::MIN)));
    assert_eq!(parse_value_lit("9223372036854775807"), Some(Literal::Int(i64::MAX)));
    assert_eq!(parse_value_lit("9223372036854775808"), None);
    assert_eq!(parse_value_lit("'hello'"), Some(Literal::Text("hello".into())));
    assert_eq!(parse_value_lit("'a.b'"), Some(Literal::Text("a.b".into())));
    assert_eq!(parse_value_lit("''"), Some(Literal::Text("".into())));
    assert_eq!(parse_value_lit("'"), None);
    assert_eq!(parse_value_lit("1e5"), None);
    assert_eq!(parse_value_lit("1.5e3"), Some(Literal::Float("1.5e3".into())));
    assert_eq!(parse_value_lit("-"), None);
}

#[test]
fn column_names_are_checked() {
    assert_eq!(extract_column_name("X. amount "), Some("amount".into()));
    assert_eq!(extract_column_name("X.a-b"), None);
    assert_eq!(extract_column_name("X."), None);
    assert_eq!(extract_column_name("X.y.z"), None);
}

#[test]
fn predicates_are_exact() {
    let source = "high_risk(X) :- transactions(X), X.amount >= 10000, X.region != 'EU', X.p < 0.5...";
    let predicates = extract_pushable_predicates(source);
    assert_eq!(
        predicates,
        vec![
            pred("amount", FilterOp::Gte, Literal::Int(10000)),
            pred("region", FilterOp::Neq, Literal::Text("EU".into())),
            pred("p", FilterOp::Lt, Literal::Float("0.5".into())),
        ]
    );
    // A comparison without a column reference is not pushable.
    assert!(extract_pushable_predicates("r(X) :- t(X), amount > 5.").is_empty());
    // No body, nothing to push.
    assert!(extract_pushable_predicates("amount > 5").is_empty());
    // An operator inside the literal falls through to a later operator.
    assert_eq!(
        extract_pushable_predicates("r(X) :- t(X), X.tag = 'a>b'."),
        vec![pred("tag", FilterOp::Eq, Literal::Text("a>b".into()))]
    );
}

#[test]
fn all_rules_feed_the_scan_filter() {
    let mut rules = RuleRegistry::new();
    rules.register_rule("r1", "a(X) :- t(X), X.amount > 10.").unwrap();
    rules.register_rule("r2", "b(X) :- t(X), X.region = 'EU', X.other < 3.").unwrap();
    let all = extract_all_predicates(&rules);
    assert_eq!(
        all,
        vec![
            pred("amount", FilterOp::Gt, Literal::Int(10)),
            pred("region", FilterOp::Eq, Literal::Text("EU".into())),
            pred("other", FilterOp::Lt, Literal::Int(3)),
        ]
    );

    let columns = vec!["amount".to_string(), "region".to_string()];
    match scan_filter(&rules, &columns) {
        Some(PushdownExpr::And(left, right)) => {
            assert!(matches!(*left, PushdownExpr::Compare(ref p) if p.column == "amount"));
            assert!(matches!(*right, PushdownExpr::Compare(ref p) if p.column == "region"));
        }
        other => panic!("expected a conjunction, got {other:?}"),
    }
    assert!(scan_filter(&rules, &vec!["unrelated".to_string()]).is_none());
    assert!(scan_filter(&RuleRegistry::new(), &columns).is_none());
    assert!(matches!(combine_predicates(&vec![]), PushdownExpr::True));
}
