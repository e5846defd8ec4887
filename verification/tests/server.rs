use anamdb::client::ClientConfig;
use anamdb::kernel::error::AnamError;
use anamdb::server::auth::{DummyAuthenticator, SubscriptionTier};
use anamdb::server::metering::TenantMeter;

#[test]
fn dev_keys_authenticate() {
    let auth = DummyAuthenticator;
    let admin = auth.authenticate_token("sk-admin-secret").unwrap();
    assert_eq!(admin.tenant_id, "tenant-admin");
    assert_eq!(admin.tier, SubscriptionTier::Enterprise);
    let demo = auth.authenticate_token("sk-123").unwrap();
    assert_eq!(demo.tenant_id, "tenant-demo");
    assert_eq!(demo.api_key, "sk-123");
    assert_eq!(demo.tier, SubscriptionTier::Community);
    match auth.authenticate_token("pk-123") {
        Err(AnamError::Internal(m)) => assert_eq!(m, "Invalid API key"),
        _ => panic!("expected a refusal"),
    }
}

#[test]
fn meter_counts_and_flushes() {
    let mut m = TenantMeter::new();
    m.record_query(10, 3);
    m.record_query(5, 0);
    assert_eq!(m.flush(), (2, 15, 3));
    assert_eq!(m.flush(), (0, 0, 0));
    m.rows_scanned = usize::MAX;
    m.record_query(2, 0);
    assert_eq!(m.rows_scanned, 1);
}

#[test]
fn client_defaults() {
    let c = ClientConfig::default();
    assert_eq!(c.addr, "127.0.0.1:8080");
    assert_eq!(c.max_retries, 3);
    assert_eq!(c.connect_timeout.as_secs(), 5);
}

use anamdb::client::{health_from_fields, query_outcome};

#[test]
fn health_fields_default_and_truncate() {
    let h = health_from_fields(None, Some("0.1".into()), Some(3), None, Some(0x1_0000_0005));
    assert_eq!(h.status, "UNKNOWN");
    assert_eq!(h.version, "0.1");
    assert_eq!((h.table_count, h.model_count, h.rule_count), (3, 0, 5));
}

#[test]
fn query_outcomes() {
    match query_outcome(Some(false), None, None, None) {
        Err(AnamError::Logic(m)) => assert_eq!(m, "server error: unknown error"),
        _ => panic!("expected an error"),
    }
    let (tree, anomalies) = query_outcome(
        Some(true),
        None,
        Some(String::new()),
        Some(vec![Some("a".into()), None, Some("b".into())]),
    )
    .unwrap();
    assert!(tree.is_none());
    assert_eq!(anomalies, vec!["a".to_string(), "b".to_string()]);
}
