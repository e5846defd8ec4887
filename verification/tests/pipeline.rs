use anamdb::execution::dispatcher::DeviceType;
use anamdb::execution::pipeline::PipelineStage;
use anamdb::execution::predict_exec::PredictType;
use anamdb::model::ai_tables::{DeviceAffinity as TableAffinity, ModelFormat};
use anamdb::model::fao::DeviceAffinity;

#[test]
fn predict_type_display() {
    assert_eq!(format!("{:?}", PredictType::Class), "Class");
    assert_eq!(format!("{:?}", PredictType::Value), "Value");
}

#[test]
fn stages_are_numbered_in_order() {
    let all = PipelineStage::all();
    assert_eq!(all.len(), 5);
    for (i, s) in all.iter().enumerate() {
        assert_eq!(s.number() as usize, i + 1);
    }
}

#[test]
fn device_names() {
    assert_eq!(DeviceType::Cpu.to_string(), "CPU");
    assert_eq!(DeviceType::CudaGpu.to_string(), "CUDA GPU");
    assert_eq!(DeviceType::MetalGpu.to_string(), "Metal GPU");
    assert_eq!(DeviceType::Npu.to_string(), "NPU");
}

#[test]
fn affinity_maps_to_device() {
    assert_eq!(DeviceAffinity::Any.to_device_type(), None);
    assert_eq!(DeviceAffinity::Cpu.to_device_type(), Some(DeviceType::Cpu));
}

#[test]
fn model_format_names_and_default_affinity() {
    assert_eq!(ModelFormat::Onnx.to_string(), "onnx");
    assert_eq!(TableAffinity::default(), TableAffinity::Any);
}

use anamdb::execution::dispatcher::{nvidia_smi_gpus, select_slot, GpuReport};
use anamdb::execution::optimizer::{parse_predict_query, PredictionType};
use anamdb::execution::pipeline::stage_note;

#[test]
fn slot_selection_prefers_type_then_load() {
    let devices = vec![DeviceType::Cpu, DeviceType::CudaGpu, DeviceType::Cpu, DeviceType::CudaGpu];
    let loads = vec![0, 3, 0, 1];
    assert_eq!(select_slot(&devices, &loads, Some(DeviceType::CudaGpu)), Some(3));
    assert_eq!(select_slot(&devices, &loads, None), Some(0));
    assert_eq!(select_slot(&devices, &loads, Some(DeviceType::Npu)), Some(0));
    assert_eq!(select_slot(&vec![], &vec![], None), None);
}

#[test]
fn predict_queries_parse() {
    let (col, table, model, kind) =
        parse_predict_query("PREDICT CLASS OF is_fraud FROM transactions WITH (model = 'fraud_v2')")
            .unwrap();
    assert_eq!((col.as_str(), table.as_str(), model.as_str()), ("is_fraud", "transactions", "fraud_v2"));
    assert_eq!(kind, PredictionType::Classification);
    let (_, _, model, kind) = parse_predict_query("predict value of price from houses").unwrap();
    assert_eq!(model, "default");
    assert_eq!(kind, PredictionType::Regression);
    assert!(parse_predict_query("SELECT * FROM t").is_none());
    assert!(parse_predict_query("PREDICT CLASS OF FROM t").is_none());
}

#[test]
fn stage_notes() {
    assert_eq!(
        stage_note(PipelineStage::DataPreprocessing, 12, 0, 0),
        "Transposed 12 raw records into vector-symbolic form"
    );
    assert_eq!(
        stage_note(PipelineStage::LogicalReasoning, 0, 0, 3),
        "Applied 3 Datalog rules over neural outputs"
    );
    assert_eq!(PipelineStage::DomainKnowledge.to_string(), "Domain Knowledge");
}

#[test]
fn parse_with_clause() {
    let (sql, constraints) = anamdb::execution::optimizer::parse_constraints(
        "SELECT * FROM HighRisk WITH (max_latency_ms = 50, min_accuracy = 0.95)",
    );

    assert_eq!(sql, "SELECT * FROM HighRisk");
    let c = constraints.unwrap();
    assert_eq!(c.max_latency_ms.as_deref().and_then(|v| v.parse::<f64>().ok()), Some(50.0));
    assert_eq!(c.min_accuracy.as_deref().and_then(|v| v.parse::<f64>().ok()), Some(0.95));
}

#[test]
fn constraint_clauses_in_detail() {
    let parse = anamdb::execution::optimizer::parse_constraints;
    let (sql, c) = parse("  select a from t with (MAX_COST = 3, max_cost = 4, speed = 1, junk);  ");
    assert_eq!(sql, "select a from t");
    let c = c.unwrap();
    assert_eq!(c.max_cost.as_deref(), Some("4"));
    assert_eq!(c.max_latency_ms, None);
    assert_eq!(c.min_accuracy, None);
    let (sql, c) = parse("SELECT 1;");
    assert_eq!(sql, "SELECT 1");
    assert!(c.is_none());
    // The last clause is the one split off.
    let (sql, c) = parse("SELECT x WITH (a = 1) FROM y WITH (min_accuracy = 0.5)");
    assert_eq!(sql, "SELECT x WITH (a = 1) FROM y");
    assert_eq!(c.unwrap().min_accuracy.as_deref(), Some("0.5"));
}

#[test]
fn nvidia_smi_lines_become_gpus() {
    let out = "NVIDIA A100, 40000, 40960\r\nTesla T4 , 15000 ,15360\nbad line\n\nRTX, x, 8\n";
    assert_eq!(
        nvidia_smi_gpus(out),
        vec![
            GpuReport {
                name: "NVIDIA A100".into(),
                free_bytes: 40000 * 1024 * 1024,
                total_bytes: 40960 * 1024 * 1024,
            },
            GpuReport { name: "Tesla T4".into(), free_bytes: 15000 * 1024 * 1024, total_bytes: 15360 * 1024 * 1024 },
            GpuReport { name: "RTX".into(), free_bytes: 0, total_bytes: 8 * 1024 * 1024 },
        ]
    );
    assert!(nvidia_smi_gpus("").is_empty());
    // A count too large for the byte total wraps as a `u64` product does.
    let huge = nvidia_smi_gpus("G, 17592186044416, +1");
    assert_eq!(huge[0].free_bytes, 0);
    assert_eq!(huge[0].total_bytes, 1024 * 1024);
}

#[test]
fn non_ascii_queries_parse() {
    let (sql, c) = anamdb::execution::optimizer::parse_constraints("SELECT 'José' FROM t WITH (max_cost = 2)");
    assert_eq!(sql, "SELECT 'José' FROM t");
    assert_eq!(c.unwrap().max_cost.as_deref(), Some("2"));
    assert_eq!(
        parse_predict_query("PREDICT CLASS OF prénom FROM clients WITH (model = 'm_é')"),
        Some(("prénom".into(), "clients".into(), "m_é".into(), PredictionType::Classification))
    );
}

#[test]
fn shape_changing_queries_are_not_parsed() {
    assert_eq!(anamdb::execution::optimizer::predict_query_checked("PREDICT CLASS OF straße FROM t"), None);
    assert_eq!(
        anamdb::execution::optimizer::predict_query_checked("PREDICT VALUE OF price FROM houses").unwrap().0,
        "price"
    );
    let (sql, c) = anamdb::execution::optimizer::constraints_checked("SELECT 'ß' FROM t WITH (max_cost = 1);");
    assert_eq!(sql, "SELECT 'ß' FROM t WITH (max_cost = 1)");
    assert!(c.is_none());
}
