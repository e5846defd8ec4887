use anamdb::server::dispatch::{
    health_response, load_model_response, register_rule_response, register_table_response, unknown_method_error,
    wire_command, WireCommand,
};
use anamdb::server::wire::{parse_health_reply, parse_query_reply, parse_register_reply, parse_wire_line};
use anamdb::kernel::error::AnamError;

#[test]
fn methods_select_commands() {
    assert_eq!(wire_command("query", "SELECT 1", "", "", ""), WireCommand::Query { sql: "SELECT 1".into() });
    assert_eq!(
        wire_command("register_table", "", "txns", "/data/t.lance", ""),
        WireCommand::RegisterTable { name: "txns".into(), lance_path: "/data/t.lance".into() }
    );
    assert_eq!(
        wire_command("register_rule", "", "r", "", "x > 1"),
        WireCommand::RegisterRule { name: "r".into(), datalog: "x > 1".into() }
    );
    assert_eq!(wire_command("health", "", "", "", ""), WireCommand::Health);
    assert_eq!(wire_command("", "", "", "", ""), WireCommand::Unknown { method: "".into() });
    assert_eq!(wire_command("Query", "", "", "", ""), WireCommand::Unknown { method: "Query".into() });
    assert_eq!(unknown_method_error("drop"), "unknown method: drop");
}

#[test]
fn responses_carry_outcomes() {
    let ok = register_table_response("txns", &Ok(()));
    assert!(ok.success);
    assert_eq!(ok.message, "table 'txns' registered");
    let bad = register_rule_response("r", &Err("Logic error: empty Datalog source".into()));
    assert!(!bad.success);
    assert_eq!(bad.message, "failed: Logic error: empty Datalog source");
    let good = register_rule_response("r", &Ok(()));
    assert_eq!(good.message, "rule 'r' registered");
    let loaded = load_model_response("fraud", &Ok("id-1".into()));
    assert!(loaded.success);
    assert_eq!(loaded.model_id, "id-1");
    assert_eq!(loaded.message, "model 'fraud' loaded");
    let failed = load_model_response("fraud", &Err("no file".into()));
    assert!(!failed.success);
    assert_eq!(failed.model_id, "");
    assert_eq!(failed.message, "failed: no file");
    let h = health_response("0.1.0", 3, 2);
    assert_eq!(h.status, "SERVING");
    assert_eq!(h.version, "0.1.0");
    assert_eq!((h.table_count, h.model_count, h.rule_count), (0, 3, 2));
}

#[test]
fn wire_lines_become_commands() {
    assert_eq!(
        parse_wire_line(r#"{"method": "query", "sql": "SELECT 1"}"#),
        Ok(WireCommand::Query { sql: "SELECT 1".into() })
    );
    assert_eq!(
        parse_wire_line(r#"{"method": "register_rule", "name": "r", "datalog": "x > 1", "extra": 3}"#),
        Ok(WireCommand::RegisterRule { name: "r".into(), datalog: "x > 1".into() })
    );
    assert_eq!(parse_wire_line(r#"{"method": "health"}"#), Ok(WireCommand::Health));
    // A member that is not a string reads as empty text.
    assert_eq!(parse_wire_line(r#"{"method": 5}"#), Ok(WireCommand::Unknown { method: "".into() }));
    assert_eq!(parse_wire_line("[1, 2]"), Ok(WireCommand::Unknown { method: "".into() }));
    let err = parse_wire_line("not json").unwrap_err();
    assert!(err.starts_with("invalid JSON: "));
}

#[test]
fn client_replies_are_read() {
    assert_eq!(
        parse_query_reply(r#"{"ok": true, "reasoning_tree": "t", "anomalies": ["a", 1, "b"]}"#).unwrap(),
        (Some("t".to_string()), vec!["a".to_string(), "b".to_string()])
    );
    assert_eq!(
        parse_query_reply(r#"{"ok": false, "error": "boom"}"#),
        Err(AnamError::Logic("server error: boom".into()))
    );
    assert_eq!(
        parse_query_reply(r#"{"ok": true, "reasoning_tree": ""}"#).unwrap(),
        (None, Vec::<String>::new())
    );
    assert!(matches!(parse_query_reply("{"), Err(AnamError::Serde(m)) if m.starts_with("invalid response: ")));
    assert_eq!(parse_register_reply(r#"{"ok": true, "message": "done"}"#), Ok("done".to_string()));
    assert_eq!(parse_register_reply(r#"{"ok": true}"#), Ok("ok".to_string()));
    let h = parse_health_reply(r#"{"status": "SERVING", "version": "0.1", "tables": 2, "models": 3, "rules": -1}"#)
        .unwrap();
    assert_eq!(h.status, "SERVING");
    assert_eq!(h.version, "0.1");
    assert_eq!((h.table_count, h.model_count, h.rule_count), (2, 3, 0));
}
