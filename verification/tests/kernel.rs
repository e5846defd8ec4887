use anamdb::kernel::bcnf_catalog::{BcnfCatalog, PolicyEntry};
use anamdb::kernel::provenance::{
    BoolSemiring, PolynomialSemiring, ProvenanceMode, ProvenanceToken, Semiring,
};
use anamdb::kernel::session::{
    config_provenance_mode, engine_config_from_toml, engine_settings, provenance_cells, reasoning_tree, ProvenanceColumn,
    TomlScalar, TomlValue,
};

fn policy(id: &str, datalog: &str, description: &str) -> PolicyEntry {
    PolicyEntry {
        policy_id: id.into(),
        datalog: datalog.into(),
        relations: vec!["transactions".into()],
        description: description.into(),
        version: 0,
        active: true,
    }
}

#[test]
fn upsert_and_replicate() {
    let mut primary = BcnfCatalog::new();

    let cs1 = primary
        .upsert_policy(PolicyEntry {
            policy_id: "aml_high_risk".into(),
            datalog: "fraud_prob > 0.90 AND amount > 10000".into(),
            relations: vec!["transactions".into()],
            description: "AML high-risk flag".into(),
            version: 0,
            active: true,
        })
        .unwrap();

    let cs2 = primary
        .upsert_policy(PolicyEntry {
            policy_id: "wire_alert".into(),
            datalog: "merchant_type = 'wire_transfer' AND amount > 50000".into(),
            relations: vec!["transactions".into()],
            description: "Wire transfer alert".into(),
            version: 0,
            active: true,
        })
        .unwrap();

    assert_eq!(primary.version(), 2);
    assert_eq!(primary.active_count(), 2);

    let mut replica = BcnfCatalog::new();
    replica.apply_changeset(&cs1).unwrap();
    replica.apply_changeset(&cs2).unwrap();

    assert_eq!(replica.version(), 2);
    assert_eq!(replica.active_count(), 2);
    assert!(replica.get_policy("aml_high_risk").is_some());
}

#[test]
fn incremental_sync() {
    let mut primary = BcnfCatalog::new();
    primary
        .upsert_policy(PolicyEntry {
            policy_id: "p1".into(),
            datalog: "x > 10".into(),
            relations: vec!["t".into()],
            description: "test".into(),
            version: 0,
            active: true,
        })
        .unwrap();
    primary
        .upsert_policy(PolicyEntry {
            policy_id: "p2".into(),
            datalog: "y < 5".into(),
            relations: vec!["t".into()],
            description: "test2".into(),
            version: 0,
            active: true,
        })
        .unwrap();

    let delta = primary.changesets_since(1);
    assert_eq!(delta.len(), 1);
    assert_eq!(delta[0].catalog_version, 2);
}

#[test]
fn catalog_read_after_upsert_gives_new_version_of_entry() {
    let mut c = BcnfCatalog::new();
    c.upsert_policy(policy("p", "x > 1", "first")).unwrap();
    c.upsert_policy(policy("p", "x > 2", "second")).unwrap();
    let p = c.get_policy("p").unwrap();
    assert_eq!(p.datalog, "x > 2");
    assert_eq!(p.version, 2);
    assert_eq!(c.total_count(), 1);
    assert_eq!(c.version(), 2);
}

#[test]
fn catalog_deactivate_keeps_entry_but_not_active() {
    let mut c = BcnfCatalog::new();
    c.upsert_policy(policy("a", "x > 1", "a")).unwrap();
    c.upsert_policy(policy("b", "y > 1", "b")).unwrap();
    c.deactivate_policy("a").unwrap();
    assert_eq!(c.total_count(), 2);
    assert_eq!(c.active_count(), 1);
    assert!(!c.get_policy("a").unwrap().active);
    assert_eq!(c.list_active().len(), 1);
    assert_eq!(c.version(), 3);
}

#[test]
fn catalog_deactivate_unknown_policy_fails() {
    let mut c = BcnfCatalog::new();
    assert!(c.deactivate_policy("missing").is_err());
    assert_eq!(c.version(), 0);
}

#[test]
fn replaying_history_rebuilds_the_primary() {
    let mut primary = BcnfCatalog::new();
    primary.upsert_policy(policy("a", "x > 1", "a")).unwrap();
    primary.upsert_policy(policy("b", "y > 1", "b")).unwrap();
    primary.deactivate_policy("a").unwrap();
    let mut replica = BcnfCatalog::new();
    for cs in primary.changesets_since(0) {
        replica.apply_changeset(cs).unwrap();
    }
    assert_eq!(replica.version(), primary.version());
    assert_eq!(replica.active_count(), primary.active_count());
    assert_eq!(replica.total_count(), primary.total_count());
    assert_eq!(replica.summary(), primary.summary());
}

#[test]
fn bool_semiring_laws() {
    let zero = BoolSemiring::zero();
    let one = BoolSemiring::one();
    assert_eq!(zero.add(&zero), zero);
    assert_eq!(zero.add(&one), one);
    assert_eq!(one.mul(&one), one);
    assert_eq!(one.mul(&zero), zero);
}

#[test]
fn bool_semiring_bytes_round_trip() {
    for b in [BoolSemiring(true), BoolSemiring(false)] {
        let bytes = b.to_bytes().unwrap();
        assert_eq!(BoolSemiring::from_bytes(&bytes).unwrap(), b);
    }
}

fn token(model: &str, func: &str, src: &[&str]) -> ProvenanceToken {
    ProvenanceToken {
        model_ver_id: model.into(),
        func_id: func.into(),
        source_record_ids: src.iter().map(|s| s.to_string()).collect(),
    }
}

#[test]
fn polynomial_merge() {
    let tok = ProvenanceToken {
        model_ver_id: "resnet50_v2".into(),
        func_id: "detect_objects".into(),
        source_record_ids: vec!["img_001".into()],
    };
    let a = PolynomialSemiring::singleton(tok.clone());
    let b = PolynomialSemiring::singleton(tok);
    let merged = a.add(&b);
    let key = merged.terms()[0].0.clone();
    assert_eq!(merged.coefficient(&key), 2);
}

#[test]
fn token_text_lists_sources() {
    let t = token("m1", "f1", &["a", "b"]);
    assert_eq!(t.to_string(), "m1:f1:[a,b]");
}

#[test]
fn polynomial_add_commutes_and_mul_multiplies_coefficients() {
    let x = PolynomialSemiring::singleton(token("m", "f", &["1"]));
    let y = PolynomialSemiring::singleton(token("m", "g", &["2"]));
    let xy = x.add(&y);
    let yx = y.add(&x);
    assert_eq!(xy.coefficient("m:f:[1]"), yx.coefficient("m:f:[1]"));
    assert_eq!(xy.coefficient("m:g:[2]"), yx.coefficient("m:g:[2]"));
    let two_x = x.add(&x);
    let prod = two_x.mul(&two_x);
    assert_eq!(prod.coefficient("m:f:[1]⊗m:f:[1]"), 4);
}

#[test]
fn polynomial_zero_and_one_identities() {
    let x = PolynomialSemiring::singleton(token("m", "f", &["1"]));
    let zero = PolynomialSemiring::zero();
    let one = PolynomialSemiring::one();
    assert_eq!(x.add(&zero).coefficient("m:f:[1]"), 1);
    assert_eq!(x.mul(&one).coefficient("m:f:[1]"), 1);
    assert_eq!(x.mul(&zero).terms().len(), 0);
}

#[test]
fn polynomial_bytes_round_trip() {
    let x = PolynomialSemiring::singleton(token("m", "f", &["1"]));
    let y = x.add(&x);
    let bytes = y.to_bytes().unwrap();
    // The encoding is not the identity on the terms.
    assert!(bytes.len() > 0);
    let back = PolynomialSemiring::from_bytes(&bytes).unwrap();
    assert_eq!(back.coefficient("m:f:[1]"), 2);
    assert!(PolynomialSemiring::from_bytes(&[1, 2, 3]).is_err());
}

#[test]
fn polynomial_explain_lists_terms() {
    let x = PolynomialSemiring::singleton(token("m", "f", &["1"]));
    assert_eq!(x.explain(), "m:f:[1]");
    let two = x.add(&x);
    assert_eq!(two.explain(), "2·m:f:[1]");
}

#[test]
fn provenance_mode_defaults_to_polynomial() {
    assert_eq!(ProvenanceMode::default(), ProvenanceMode::Polynomial);
}

#[test]
fn config_names_provenance_mode() {
    assert_eq!(config_provenance_mode("boolean"), ProvenanceMode::Boolean);
    assert_eq!(config_provenance_mode("BOOL"), ProvenanceMode::Boolean);
    assert_eq!(config_provenance_mode("Prob"), ProvenanceMode::Probability);
    assert_eq!(config_provenance_mode("probability"), ProvenanceMode::Probability);
    assert_eq!(config_provenance_mode("polynomial"), ProvenanceMode::Polynomial);
    assert_eq!(config_provenance_mode("anything"), ProvenanceMode::Polynomial);
}

#[test]
fn provenance_cells_per_mode() {
    assert_eq!(provenance_cells(ProvenanceMode::Boolean, 2), vec![vec![1u8], vec![1u8]]);
    assert_eq!(
        provenance_cells(ProvenanceMode::Probability, 1),
        vec![1.0f64.to_le_bytes().to_vec()]
    );
    let cells = provenance_cells(ProvenanceMode::Polynomial, 2);
    assert_eq!(cells.len(), 2);
    let second = PolynomialSemiring::from_bytes(&cells[1]).unwrap();
    assert_eq!(second.explain(), "query_pipeline:sql:[row_1]");
    assert!(provenance_cells(ProvenanceMode::Boolean, 0).is_empty());
}

#[test]
fn reasoning_tree_reads_provenance() {
    let cells = provenance_cells(ProvenanceMode::Polynomial, 1);
    let columns = vec![
        None,
        Some(ProvenanceColumn { num_rows: 2, cells: Some(vec![Some(cells[0].clone()), None]) }),
        Some(ProvenanceColumn { num_rows: 1, cells: Some(vec![Some(vec![1u8, 2, 3])]) }),
        Some(ProvenanceColumn { num_rows: 4, cells: None }),
    ];
    assert_eq!(
        reasoning_tree(ProvenanceMode::Polynomial, &columns).unwrap(),
        "── Batch 1 (2 rows) ──\n  row 0: query_pipeline:sql:[row_0]\n── Batch 2 (1 rows) ──\n  row 0: <raw 3 bytes>\n── Batch 3 (4 rows) ──\n"
    );
    assert!(reasoning_tree(ProvenanceMode::Boolean, &columns).is_none());
    assert!(reasoning_tree(ProvenanceMode::Probability, &vec![None]).is_none());
}

#[test]
fn polynomial_mul_commutes() {
    let x = PolynomialSemiring::singleton(token("m", "g", &["2"]));
    let y = PolynomialSemiring::singleton(token("m", "f", &["1"]));
    let xy = x.mul(&y);
    let yx = y.mul(&x);
    assert_eq!(xy.coefficient("m:f:[1]⊗m:g:[2]"), 1);
    assert_eq!(yx.coefficient("m:f:[1]⊗m:g:[2]"), 1);
    assert_eq!(xy.explain(), yx.explain());
}

#[test]
fn polynomial_singletons_merge_and_explain() {
    let tok = token("resnet50_v2", "detect_objects", &["img_001"]);
    let a = PolynomialSemiring::singleton(tok.clone());
    let b = PolynomialSemiring::singleton(tok);
    let m = a.add(&b);
    assert_eq!(m.terms().len(), 1);
    assert_eq!(m.coefficient("resnet50_v2:detect_objects:[img_001]"), 2);
    assert_eq!(a.explain(), "resnet50_v2:detect_objects:[img_001]");
    assert_eq!(m.explain(), "2·resnet50_v2:detect_objects:[img_001]");
    assert_eq!(PolynomialSemiring::zero().explain(), "");
}

#[test]
fn engine_config_reads_toml() {
    assert_eq!(
        engine_config_from_toml("[engine]\nprovenance_mode = \"BOOL\"\ngpu = true\n"),
        Ok((Some(ProvenanceMode::Boolean), Some(true)))
    );
    assert_eq!(
        engine_config_from_toml("[engine]\nprovenance_mode = \"other\"\n"),
        Ok((Some(ProvenanceMode::Polynomial), None))
    );
    assert_eq!(engine_config_from_toml("[other]\nx = 1\n"), Ok((None, None)));
    assert_eq!(engine_config_from_toml("[engine]\ngpu = \"yes\"\n"), Ok((None, None)));
    assert!(engine_config_from_toml("[engine\n").is_err());
}

#[test]
fn engine_settings_pick_fields() {
    let t = vec![
        ("engine".to_string(), TomlValue::Table(vec![
            ("gpu".to_string(), TomlScalar::Flag(false)),
            ("provenance_mode".to_string(), TomlScalar::Text("prob".into())),
        ])),
        ("name".to_string(), TomlValue::Text("x".into())),
    ];
    assert_eq!(engine_settings(&t), (Some("prob".to_string()), Some(false)));
    let t = vec![("engine".to_string(), TomlValue::Text("no".into()))];
    assert_eq!(engine_settings(&t), (None, None));
    assert_eq!(engine_settings(&vec![]), (None, None));
}
