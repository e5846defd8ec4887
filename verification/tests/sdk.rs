use anamdb::sdk::hub::{
    default_tag, install_result, matches_keyword, pack_key, parse_pack_ref, publish_result,
};
use anamdb::sdk::python::{PyAnamClient, PyQueryResult};

#[test]
fn python_python_sdk_api_surface() {
    let client = PyAnamClient::new("localhost:8080");
    assert_eq!(client.addr, "localhost:8080");

    let result = PyQueryResult {
        num_rows: 10,
        columns: vec!["amount".into(), "fraud_prob".into()],
        reasoning_tree: Some("test".into()),
    };
    assert_eq!(result.num_rows, 10);
    assert_eq!(result.columns.len(), 2);
}

#[test]
fn server_sdk_python_sdk_api_surface() {
    let client = PyAnamClient::new("localhost:8080");
    assert_eq!(client.addr, "localhost:8080");

    let result = PyQueryResult {
        num_rows: 25,
        columns: vec!["amount".into(), "fraud_prob".into(), "region".into()],
        reasoning_tree: Some("provenance tree".into()),
    };
    assert_eq!(result.num_rows, 25);
    assert_eq!(result.columns.len(), 3);
    assert!(result.reasoning_tree.is_some());
}

#[test]
fn pack_references() {
    assert_eq!(
        parse_pack_ref("anamdb/fraud@1.2.0").unwrap(),
        ("anamdb/fraud".to_string(), "1.2.0".to_string())
    );
    assert_eq!(
        parse_pack_ref("anamdb/fraud").unwrap(),
        ("anamdb/fraud".to_string(), "latest".to_string())
    );
    assert_eq!(pack_key("a", "1"), "a@1");
    assert_eq!(default_tag("anamdb/financial-compliance"), "financial-compliance");
    assert_eq!(default_tag("solo"), "solo");
}

#[test]
fn keyword_search_is_case_insensitive() {
    let tags = vec!["Fraud".to_string(), "aml".to_string()];
    assert!(matches_keyword("anamdb/x", "rules", &tags, "FRAUD"));
    assert!(matches_keyword("anamdb/Health", "", &vec![], "health"));
    assert!(!matches_keyword("anamdb/x", "rules", &tags, "kyc"));
}

#[test]
fn install_and_publish_results() {
    let r = install_result("p@1", false);
    assert!(r.installed);
    assert_eq!(r.message, "'p@1' installed successfully");
    let again = install_result("p@1", true);
    assert!(!again.installed);
    assert_eq!(again.message, "'p@1' is already installed");
    let p = publish_result("p", "2");
    assert_eq!(p.key, "p@2");
    assert_eq!(p.message, "Pack published successfully");
}
