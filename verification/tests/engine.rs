use anamdb::kernel::error::AnamError;
use anamdb::logic::engine::{
    apply_text_condition, condition_column, detect_recursive, rule_applies_to, mask_indices, parse_rule_structure, validate_datalog,
    FilterCondition, FilterOp, LogicEngine, RuleRegistry,
};
use anamdb::kernel::provenance::ProvenanceMode;
use anamdb::logic::facts::{hash_join, join_indices, FactBatch};
use anamdb::sdk::logic_pack::PackRule;

#[test]
fn register_and_list_rules() {
    let mut engine = LogicEngine::new(ProvenanceMode::Boolean).unwrap();
    engine
        .register_rule("test", "high_risk(X) :- transactions(X), X.fraud_prob > 0.9")
        .unwrap();
    assert_eq!(engine.list_rules().len(), 1);
}

#[test]
fn reject_empty_source() {
    let mut engine = LogicEngine::new(ProvenanceMode::Boolean).unwrap();
    assert!(engine.register_rule("bad", "").is_err());
}

#[test]
fn parse_constraint_expression() {
    let (_output, _inputs, conditions) =
        parse_rule_structure("fraud_prob > 0.90 AND amount > 10000 AND region = 'EU'").unwrap();
    assert_eq!(conditions.len(), 3);
}

#[test]
fn detect_recursive_rule() {
    assert!(detect_recursive("inferred", "inferred(A, X) :- edges(A, B), inferred(B, X)."));
    assert!(!detect_recursive("result", "result(X) :- transactions(X), X.amount > 100."));
}

#[test]
fn rule_structure_of_a_rule() {
    let (out, inputs, conds) =
        parse_rule_structure("High(X) :- transactions(X), customers(X), X.amount >= 10.").unwrap();
    assert_eq!(out, "High");
    assert_eq!(inputs, vec!["transactions".to_string(), "customers".to_string()]);
    assert_eq!(conds.len(), 1);
    assert_eq!(conds[0].column, "X.amount");
    assert_eq!(conds[0].op, FilterOp::Gte);
    assert_eq!(conds[0].value, "10");
}

#[test]
fn constraint_reads_the_table_of_its_first_condition() {
    let (out, inputs, _) = parse_rule_structure("t.score < 3 AND t.x = 1").unwrap();
    assert_eq!(out, "derived");
    assert_eq!(inputs, vec!["t".to_string()]);
    let (_, inputs, conds) = parse_rule_structure("no operators here").unwrap();
    assert!(conds.is_empty());
    assert_eq!(inputs, vec!["unknown".to_string()]);
}

#[test]
fn filter_condition_parsing() {
    let c = FilterCondition::parse(" a != 'x' ").unwrap();
    assert_eq!((c.column.as_str(), c.op, c.value.as_str()), ("a", FilterOp::Neq, "'x'"));
    assert!(FilterCondition::parse("no comparison").is_none());
}

#[test]
fn validation_messages() {
    match validate_datalog("   ") {
        Err(AnamError::Logic(m)) => assert_eq!(m, "empty Datalog source"),
        other => panic!("unexpected {other:?}"),
    }
    match validate_datalog(" just words ") {
        Err(AnamError::Logic(m)) => {
            assert_eq!(m, "invalid Datalog syntax: 'just words' (expected rule or constraint)")
        }
        other => panic!("unexpected {other:?}"),
    }
    assert!(validate_datalog("a > 1").is_ok());
}

#[test]
fn registry_replaces_and_removes_by_name() {
    let mut rules = RuleRegistry::new();
    rules.register_rule("r", "r(X) :- t(X), X.a > 1").unwrap();
    rules.register_rule("r", "r(X) :- t(X), r(X)").unwrap();
    assert_eq!(rules.len(), 1);
    assert_eq!(rules.get_rule_body("r").unwrap(), "r(X) :- t(X), r(X)");
    rules.remove_rule("r").unwrap();
    assert!(rules.get_rule_body("r").is_none());
    match rules.remove_rule("r") {
        Err(AnamError::Logic(m)) => assert_eq!(m, "rule 'r' not found"),
        other => panic!("unexpected {other:?}"),
    }
}

#[test]
fn text_condition_masks_rows() {
    let cond = FilterCondition { column: "region".into(), op: FilterOp::Eq, value: "'EU'".into() };
    let values = vec![Some("EU".to_string()), Some("US".to_string()), None, Some("EU".to_string())];
    let mut mask = vec![true, true, true, false];
    apply_text_condition(&mut mask, &values, &cond);
    assert_eq!(mask, vec![true, false, true, false]);
    assert_eq!(mask_indices(&mask), vec![0u64, 2]);
}

use anamdb::logic::nl_compiler::{first_choice, user_message, validate_output};

#[test]
fn generated_rules_are_checked() {
    assert!(validate_output("  r(X) :- t(X). ").is_ok());
    match validate_output("   ") {
        Err(AnamError::NlCompilation(m)) => assert_eq!(m, "LLM returned empty output"),
        other => panic!("unexpected {other:?}"),
    }
    match validate_output("hello") {
        Err(AnamError::NlCompilation(m)) => {
            assert_eq!(m, "LLM output does not look like valid Datalog: 'hello'")
        }
        other => panic!("unexpected {other:?}"),
    }
    assert!(validate_output("```r(X) :- t(X).```").is_err());
    assert_eq!(first_choice(&vec!["  a > 1 ".to_string()]).unwrap(), "a > 1");
    assert!(first_choice(&vec![]).is_err());
    assert_eq!(user_message("big ones", "t"), "NL: \"big ones\"\nTable: t");
}

fn strings(v: &[&str]) -> Vec<String> {
    v.iter().map(|s| s.to_string()).collect()
}

fn batch(columns: &[&str], rows: &[&[&str]]) -> FactBatch {
    FactBatch::try_new(strings(columns), rows.iter().map(|r| strings(r)).collect()).unwrap()
}

fn cells(b: &FactBatch) -> Vec<Vec<String>> {
    b.rows().clone()
}

#[test]
fn multi_relation_join() {
    let mut engine = LogicEngine::new(ProvenanceMode::Boolean).unwrap();

    // Two fact tables with a shared "id" column; amounts are held as they display.
    let batch_a = batch(&["id", "amount"], &[&["a", "100"], &["b", "200"], &["c", "300"]]);
    let batch_b = batch(&["id", "region"], &[&["a", "EU"], &["c", "US"], &["d", "EU"]]);

    engine.add_facts("orders", vec![batch_a]).unwrap();
    engine.add_facts("customers", vec![batch_b]).unwrap();

    // Join on shared "id" column.
    let joined = engine.join_relations(&["orders".to_string(), "customers".to_string()]).unwrap();

    let total_rows: usize = joined.iter().map(|b| b.num_rows()).sum();
    // "a" and "c" match in both tables.
    assert_eq!(total_rows, 2, "Expected 2 joined rows (a, c)");
}

#[test]
fn clone_for_repair_works() {
    let mut engine = LogicEngine::new(ProvenanceMode::Boolean).unwrap();
    engine.register_rule("test", "r(X) :- t(X), X.v > 1.").unwrap();

    let cloned = engine.clone_for_repair().unwrap();
    assert!(cloned.list_rules().is_empty(), "Cloned engine should have no rules");
}

#[test]
fn hash_join_rows_and_columns() {
    let left = batch(&["id", "amount"], &[&["a", "100"], &["b", "200"], &["a", "300"]]);
    let right = batch(&["region", "id"], &[&["EU", "a"], &["US", "a"], &["EU", "c"]]);
    let joined = hash_join(&left, &right).unwrap();
    assert_eq!(joined.columns(), &strings(&["id", "amount", "region"]));
    assert_eq!(
        cells(&joined),
        vec![
            strings(&["a", "100", "EU"]),
            strings(&["a", "100", "US"]),
            strings(&["a", "300", "EU"]),
            strings(&["a", "300", "US"]),
        ]
    );
    // Keys that never agree give nothing.
    let other = batch(&["id"], &[&["z"]]);
    assert!(hash_join(&left, &other).is_none());
}

#[test]
fn disjoint_batches_cross() {
    let left = batch(&["x"], &[&["1"], &["2"]]);
    let right = batch(&["y"], &[&["p"], &["q"], &["r"]]);
    let crossed = hash_join(&left, &right).unwrap();
    assert_eq!(crossed.columns(), &strings(&["x", "y"]));
    assert_eq!(crossed.num_rows(), 6);
    assert_eq!(cells(&crossed)[4], strings(&["2", "q"]));

    // Too large a cross product is skipped.
    let many: Vec<Vec<String>> = (0..101).map(|i| vec![i.to_string()]).collect();
    let big_left = FactBatch::try_new(strings(&["x"]), many.clone()).unwrap();
    let big_right = FactBatch::try_new(strings(&["y"]), many).unwrap();
    assert!(hash_join(&big_left, &big_right).is_none());
}

#[test]
fn ragged_batches_are_refused() {
    assert!(FactBatch::try_new(strings(&["a", "b"]), vec![strings(&["only"])]).is_none());
}

#[test]
fn joins_chain_and_stop_on_missing_facts() {
    let mut engine = LogicEngine::new(ProvenanceMode::Polynomial).unwrap();
    engine.add_facts("edges", vec![batch(&["a", "b"], &[&["1", "2"], &["2", "3"]])]).unwrap();
    engine.add_facts("labels", vec![batch(&["b", "label"], &[&["2", "two"]])]).unwrap();
    engine.add_facts("labels", vec![batch(&["b", "label"], &[&["3", "three"]])]).unwrap();
    let joined = engine.join_relations(&strings(&["edges", "labels"])).unwrap();
    assert_eq!(joined.len(), 2);
    assert_eq!(cells(&joined[0]), vec![strings(&["1", "2", "two"])]);
    assert_eq!(cells(&joined[1]), vec![strings(&["2", "3", "three"])]);

    assert!(engine.join_relations(&strings(&["edges", "missing", "labels"])).unwrap().is_empty());
    assert_eq!(engine.join_relations(&strings(&["edges"])).unwrap().len(), 1);
    assert!(engine.join_relations(&[]).unwrap().is_empty());

    let copy = engine.clone_for_repair().unwrap();
    assert_eq!(copy.join_relations(&strings(&["edges", "labels"])).unwrap().len(), 2);
}

#[test]
fn rules_apply_by_column_name() {
    let (_out, _inputs, conditions) =
        parse_rule_structure("high(X) :- t(X), X.amount > 10, Y.region = 'EU'.").unwrap();
    assert!(rule_applies_to(&conditions, &strings(&["id", "region"])));
    assert!(rule_applies_to(&conditions, &strings(&["amount"])));
    assert!(!rule_applies_to(&conditions, &strings(&["id", "score"])));
    assert!(!rule_applies_to(&vec![], &strings(&["amount"])));
    let dotted = vec![FilterCondition { column: "a.b.c".to_string(), op: FilterOp::Eq, value: "1".to_string() }];
    assert!(rule_applies_to(&dotted, &strings(&["c"])));
    assert!(!rule_applies_to(&dotted, &strings(&["b.c"])));
}

#[test]
fn pack_rules_load_in_order_until_a_refusal() {
    let rule = |name: &str, datalog: &str| PackRule { name: name.into(), datalog: datalog.into(), description: None };
    let mut engine = LogicEngine::new(ProvenanceMode::Boolean).unwrap();
    engine
        .load_pack_rules(&vec![rule("a", "x > 1"), rule("b", "y(X) :- t(X), X.v = 2."), rule("a", "x > 5")])
        .unwrap();
    assert_eq!(engine.list_rules(), vec!["b".to_string(), "a".to_string()]);
    assert_eq!(engine.get_rule_body("a"), Some("x > 5".to_string()));

    let mut other = LogicEngine::new(ProvenanceMode::Boolean).unwrap();
    let err = other.load_pack_rules(&vec![rule("ok", "x > 1"), rule("bad", "nothing"), rule("later", "z > 2")]);
    match err {
        Err(AnamError::Logic(m)) => assert!(m.contains("invalid Datalog syntax")),
        other => panic!("unexpected {other:?}"),
    }
    assert_eq!(other.list_rules(), vec!["ok".to_string()]);
}

#[test]
fn rule_sources_pair_names_with_bodies() {
    let mut engine = LogicEngine::new(ProvenanceMode::Polynomial).unwrap();
    engine.register_rule("high_risk", "fraud_prob > 0.90").unwrap();
    engine.register_rule("eu", "region = 'EU'").unwrap();
    assert_eq!(
        engine.rule_sources(),
        vec![
            ("high_risk".to_string(), "fraud_prob > 0.90".to_string()),
            ("eu".to_string(), "region = 'EU'".to_string()),
        ]
    );
}

#[test]
fn join_indices_pair_rows() {
    let left = batch(&["id", "amount"], &[&["a", "100"], &["b", "200"], &["a", "300"]]);
    let right = batch(&["region", "id"], &[&["EU", "a"], &["US", "a"], &["EU", "c"]]);
    let j = join_indices(&left, &right).unwrap();
    assert_eq!(j.shared, strings(&["id"]));
    assert_eq!(j.pairs, vec![(0, 0), (0, 1), (2, 0), (2, 1)]);
    assert_eq!(j.right_kept, vec![0]);

    let x = batch(&["x"], &[&["1"], &["2"]]);
    let y = batch(&["y"], &[&["p"], &["q"]]);
    let c = join_indices(&x, &y).unwrap();
    assert!(c.shared.is_empty());
    assert_eq!(c.pairs, vec![(0, 0), (0, 1), (1, 0), (1, 1)]);
    assert_eq!(c.right_kept, vec![0]);

    let none = batch(&["id"], &[&["z"]]);
    assert!(join_indices(&left, &none).is_none());
}

#[test]
fn condition_column_is_text_after_last_dot() {
    assert_eq!(condition_column("X.fraud_prob"), "fraud_prob");
    assert_eq!(condition_column("a.b.region"), "region");
    assert_eq!(condition_column("amount"), "amount");
    assert_eq!(condition_column("x."), "");
}

#[test]
fn evaluation_plans_and_fixpoint() {
    let p = anamdb::logic::engine::evaluation_plan("path", "Path(X) :- edge(X), path(X), X.w > 1").unwrap();
    assert!(p.recursive);
    assert_eq!(p.inputs, vec!["edge".to_string(), "path".to_string()]);
    assert_eq!(p.base_relations, vec!["edge".to_string()]);
    assert_eq!(p.conditions.len(), 1);
    assert!(anamdb::logic::engine::fixpoint_continue(1, 3, 6));
    assert!(!anamdb::logic::engine::fixpoint_continue(1, 3, 3));
    assert!(!anamdb::logic::engine::fixpoint_continue(100, 3, 6));
}
