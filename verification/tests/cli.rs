use anamdb::cli::{parse_dot_command, parse_provenance_mode, DotCommand};
use anamdb::kernel::provenance::ProvenanceMode;

fn s(x: &str) -> String {
    x.to_string()
}

#[test]
fn quit_words() {
    assert_eq!(parse_dot_command(".quit"), DotCommand::Quit);
    assert_eq!(parse_dot_command(".EXIT"), DotCommand::Quit);
    assert_eq!(parse_dot_command(".q"), DotCommand::Quit);
}

#[test]
fn listing_commands() {
    assert_eq!(parse_dot_command(".models"), DotCommand::Models);
    assert_eq!(parse_dot_command(".operators"), DotCommand::Operators);
    assert_eq!(parse_dot_command(".rules"), DotCommand::Rules);
    assert_eq!(parse_dot_command(".devices"), DotCommand::Devices);
    assert_eq!(parse_dot_command(".explain"), DotCommand::Explain);
    assert_eq!(parse_dot_command(".Help"), DotCommand::Help);
    assert_eq!(parse_dot_command(".h"), DotCommand::Help);
}

#[test]
fn load_defaults_to_the_file_stem() {
    assert_eq!(
        parse_dot_command(".load"),
        DotCommand::Usage(s("Usage: .load <path_to_lance_dataset> [table_name]"))
    );
    assert_eq!(
        parse_dot_command(".load data/tx.lance"),
        DotCommand::Load { path: s("data/tx.lance"), name: s("tx") }
    );
    assert_eq!(
        parse_dot_command(".load tx.lance txns"),
        DotCommand::Load { path: s("tx.lance"), name: s("txns") }
    );
    assert_eq!(
        parse_dot_command(".load   a.lance  my table  "),
        DotCommand::Load { path: s("a.lance"), name: s(" my table") }
    );
}

#[test]
fn ingest_names_its_output() {
    assert_eq!(
        parse_dot_command(".ingest"),
        DotCommand::Usage(s("Usage: .ingest <csv_path> [lance_output_path]"))
    );
    assert_eq!(
        parse_dot_command(".ingest data.csv"),
        DotCommand::Ingest { csv_path: s("data.csv"), lance_output: s("data.lance") }
    );
    assert_eq!(
        parse_dot_command(".ingest in.csv out.lance"),
        DotCommand::Ingest { csv_path: s("in.csv"), lance_output: s("out.lance") }
    );
    assert_eq!(
        parse_dot_command(".ingest in.csv dir/store.bin"),
        DotCommand::Ingest { csv_path: s("in.csv"), lance_output: s("store.lance") }
    );
}

#[test]
fn logic_strips_quotes() {
    assert_eq!(
        parse_dot_command(".logic r1 \"a(X) :- b(X), X.v > 1.\""),
        DotCommand::Logic { name: s("r1"), source: s("a(X) :- b(X), X.v > 1.") }
    );
    let usage = DotCommand::Usage(s("Usage: .logic <rule_name> <datalog_source>"));
    assert_eq!(parse_dot_command(".logic"), usage);
    assert_eq!(parse_dot_command(".logic r1"), usage);
}

#[test]
fn model_load_arguments() {
    let usage =
        DotCommand::Usage(s("Usage: .model load <onnx_path> [name] [features] [latency_ms] [accuracy]"));
    assert_eq!(parse_dot_command(".model"), usage);
    assert_eq!(parse_dot_command(".model load"), usage);
    assert_eq!(parse_dot_command(".model drop x"), DotCommand::ModelUnknown);
    assert_eq!(
        parse_dot_command(".model load models/fraud.onnx"),
        DotCommand::ModelLoad {
            model_path: s("models/fraud.onnx"),
            func_name: s("fraud"),
            num_features: 3,
            latency_ms: None,
            accuracy: None,
        }
    );
    assert_eq!(
        parse_dot_command(".model load m.onnx scorer 7 2.5 0.9"),
        DotCommand::ModelLoad {
            model_path: s("m.onnx"),
            func_name: s("scorer"),
            num_features: 7,
            latency_ms: Some(s("2.5")),
            accuracy: Some(s("0.9")),
        }
    );
    assert_eq!(
        parse_dot_command(".model load m.onnx scorer many"),
        DotCommand::ModelLoad {
            model_path: s("m.onnx"),
            func_name: s("scorer"),
            num_features: 3,
            latency_ms: None,
            accuracy: None,
        }
    );
}

#[test]
fn nl_needs_three_arguments() {
    assert_eq!(
        parse_dot_command(".nl"),
        DotCommand::Usage(s(
            "Usage: .nl <rule_name> <table> <natural language description>\nExample: .nl high_risk transactions Flag transactions with fraud probability above 90%"
        ))
    );
    assert_eq!(
        parse_dot_command(".nl r t"),
        DotCommand::Usage(s("Usage: .nl <rule_name> <table> <description>"))
    );
    assert_eq!(
        parse_dot_command(".nl high_risk transactions flag big ones"),
        DotCommand::Nl { name: s("high_risk"), table: s("transactions"), description: s("flag big ones") }
    );
}

#[test]
fn unknown_commands_are_named() {
    assert_eq!(parse_dot_command(".Frob now"), DotCommand::Unknown(s(".frob")));
}

#[test]
fn provenance_mode_names() {
    assert_eq!(parse_provenance_mode("Boolean"), Some(ProvenanceMode::Boolean));
    assert_eq!(parse_provenance_mode("prob"), Some(ProvenanceMode::Probability));
    assert_eq!(parse_provenance_mode("POLY"), Some(ProvenanceMode::Polynomial));
    assert_eq!(parse_provenance_mode("fuzzy"), None);
}

#[test]
fn load_names_default_to_file_stems() {
    assert_eq!(
        parse_dot_command(".load events.v2.lance"),
        DotCommand::Load { path: s("events.v2.lance"), name: s("events.v2") }
    );
    assert_eq!(parse_dot_command(".load .hidden"), DotCommand::Load { path: s(".hidden"), name: s(".hidden") });
    assert_eq!(
        parse_dot_command(".ingest data.csv out"),
        DotCommand::Ingest { csv_path: s("data.csv"), lance_output: s("out.lance") }
    );
}

#[test]
fn load_names_come_from_the_last_component() {
    assert_eq!(
        parse_dot_command(".load data/2024/tx.v1.lance"),
        DotCommand::Load { path: s("data/2024/tx.v1.lance"), name: s("tx.v1") }
    );
    assert_eq!(
        parse_dot_command(".ingest in.csv out/events"),
        DotCommand::Ingest { csv_path: s("in.csv"), lance_output: s("events.lance") }
    );
}
