use anamdb::kernel::error::AnamError;
use anamdb::model::registry::{ModelRegistry, OperatorKey};

#[derive(Debug, Clone, PartialEq)]
struct Entry {
    name: String,
    version: String,
    accuracy: f64,
}

fn key(f: &str, v: &str, m: &str) -> OperatorKey {
    OperatorKey { function_id: f.to_string(), version: v.to_string(), model_id: m.to_string() }
}

#[test]
fn register_and_retrieve_model() {
    let mut registry: ModelRegistry<Entry, ()> = ModelRegistry::new();
    let entry = Entry { name: "test-model".into(), version: "1.0.0".into(), accuracy: 0.95 };

    let model_id = "5f1c0a52-model".to_string();
    registry.register_model(&model_id, entry).unwrap();

    let retrieved = registry.get_model(&model_id).unwrap();
    assert_eq!(retrieved.name, "test-model");
    assert_eq!(retrieved.accuracy, 0.95);
}

#[test]
fn unregister_missing_model_errors() {
    let mut registry: ModelRegistry<Entry, ()> = ModelRegistry::new();
    assert!(registry.unregister_model("nonexistent").is_err());
}

#[test]
fn latest_operator_is_the_greatest_version() {
    let mut registry: ModelRegistry<(), &str> = ModelRegistry::new();
    registry.register_operator(key("fraud", "1.0.0", "m1"), "v1.0.0").unwrap();
    registry.register_operator(key("fraud", "1.9.0", "m2"), "v1.9.0").unwrap();
    registry.register_operator(key("fraud", "1.10.0", "m3"), "v1.10.0").unwrap();
    registry.register_operator(key("ocr", "9.0", "m4"), "ocr").unwrap();
    // Versions compare as strings: "1.9.0" > "1.10.0".
    assert_eq!(*registry.get_latest_operator("fraud").unwrap(), "v1.9.0");
    assert_eq!(*registry.get_operator("fraud", "1.10.0").unwrap(), "v1.10.0");
    assert_eq!(registry.get_operator_variants("fraud").len(), 3);
    assert_eq!(registry.list_operators().len(), 4);
    match registry.get_latest_operator("none") {
        Err(AnamError::ModelNotFound(m)) => assert_eq!(m, "none@latest"),
        other => panic!("unexpected {other:?}"),
    }
    match registry.get_operator("fraud", "2.0") {
        Err(AnamError::ModelNotFound(m)) => assert_eq!(m, "fraud@2.0"),
        other => panic!("unexpected {other:?}"),
    }
}

#[test]
fn registering_a_key_again_replaces_it() {
    let mut registry: ModelRegistry<(), u32> = ModelRegistry::new();
    registry.register_operator(key("f", "1", "a"), 1).unwrap();
    registry.register_operator(key("f", "1", "b"), 2).unwrap();
    assert_eq!(registry.list_operators(), vec![&2]);
}

#[test]
fn unregistering_a_model_drops_its_operators() {
    let mut registry: ModelRegistry<&str, u32> = ModelRegistry::new();
    registry.register_model("m1", "first").unwrap();
    registry.register_model("m2", "second").unwrap();
    registry.register_operator(key("f", "1", "m1"), 1).unwrap();
    registry.register_operator(key("f", "2", "m2"), 2).unwrap();
    registry.register_operator(key("g", "1", "m1"), 3).unwrap();
    registry.unregister_model("m1").unwrap();
    assert_eq!(registry.list_operators(), vec![&2]);
    assert_eq!(registry.list_models(), vec![&"second"]);
    match registry.get_model("m1") {
        Err(AnamError::ModelNotFound(m)) => assert_eq!(m, "m1"),
        other => panic!("unexpected {other:?}"),
    }
    assert_eq!(*registry.get_latest_operator("f").unwrap(), 2);
}
