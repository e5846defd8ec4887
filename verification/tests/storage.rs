use anamdb::storage::catalog::{remove_rule, remove_table, upsert_rule, upsert_table, RuleEntry, TableEntry};

#[test]
fn catalog_upsert() {
    let mut tables: Vec<TableEntry> = vec![];
    upsert_table(&mut tables, "txns", "/old/path.lance");
    upsert_table(&mut tables, "txns", "/new/path.lance");
    assert_eq!(tables.len(), 1);
    assert_eq!(tables[0].lance_path, "/new/path.lance");
}

#[test]
fn catalog_remove() {
    let mut tables: Vec<TableEntry> = vec![];
    upsert_table(&mut tables, "a", "/a.lance");
    upsert_table(&mut tables, "b", "/b.lance");
    assert_eq!(tables.len(), 2);
    remove_table(&mut tables, "a");
    assert_eq!(tables.len(), 1);
    assert_eq!(tables[0].name, "b");
}

#[test]
fn rule_upsert_moves_entry_to_the_end() {
    let mut rules: Vec<RuleEntry> = vec![];
    upsert_rule(&mut rules, "r1", "a > 1");
    upsert_rule(&mut rules, "r2", "b > 1");
    upsert_rule(&mut rules, "r1", "a > 2");
    let names: Vec<&str> = rules.iter().map(|r| r.name.as_str()).collect();
    assert_eq!(names, vec!["r2", "r1"]);
    assert_eq!(rules[1].datalog, "a > 2");
    remove_rule(&mut rules, "missing");
    assert_eq!(rules.len(), 2);
}
