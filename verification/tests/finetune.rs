use anamdb::model::finetune::{extract_layers_from_bytes, freeze_layers, head_layers, FinetuneEngine, ModelLayer};
use anamdb::kernel::error::AnamError;
use anamdb::model::distillation::{completion_evaluation, evaluation_json};

#[test]
fn freeze_backbone_layers() {
    let mut layers = vec![
        ModelLayer {
            index: 0,
            op_type: "Conv".into(),
            name: "conv_0".into(),
            inputs: vec![],
            outputs: vec![],
            frozen: false,
        },
        ModelLayer {
            index: 1,
            op_type: "Conv".into(),
            name: "conv_1".into(),
            inputs: vec![],
            outputs: vec![],
            frozen: false,
        },
        ModelLayer {
            index: 2,
            op_type: "Gemm".into(),
            name: "head".into(),
            inputs: vec![],
            outputs: vec![],
            frozen: false,
        },
    ];

    let frozen = freeze_layers(&mut layers, 2);
    assert_eq!(frozen, 2);
    assert!(layers[0].frozen);
    assert!(layers[1].frozen);
    assert!(!layers[2].frozen, "Head should remain trainable");
}

#[test]
fn freeze_more_than_available() {
    let mut layers = vec![ModelLayer {
        index: 0,
        op_type: "Gemm".into(),
        name: "only_layer".into(),
        inputs: vec![],
        outputs: vec![],
        frozen: false,
    }];

    let frozen = freeze_layers(&mut layers, 10);
    assert_eq!(frozen, 0, "Should not freeze the only layer");
}

#[test]
fn freeze_unfreezes_layers_past_the_count() {
    let mut layers = FinetuneEngine::synthetic_layers();
    for l in layers.iter_mut() {
        l.frozen = true;
    }
    assert_eq!(freeze_layers(&mut layers, 3), 3);
    let flags: Vec<bool> = layers.iter().map(|l| l.frozen).collect();
    assert_eq!(flags, vec![true, true, true, false, false, false]);
}

#[test]
fn freeze_on_no_layers() {
    let mut layers: Vec<ModelLayer> = vec![];
    assert_eq!(freeze_layers(&mut layers, 4), 0);
}

#[test]
fn synthetic_run_freezes_backbone_and_keeps_head() {
    let mut layers = FinetuneEngine::synthetic_layers();
    assert_eq!(layers.len(), 6);
    let frozen = freeze_layers(&mut layers, 3);
    assert_eq!(frozen, 3);
    let head = head_layers(&layers);
    let ops: Vec<&str> = head.iter().map(|l| l.op_type.as_str()).collect();
    assert_eq!(ops, vec!["BatchNormalization", "Gemm", "Softmax"]);
    assert_eq!(head[0].name, "backbone_bn_1");
}

#[test]
fn layers_found_in_bytes() {
    let data = b"\x08\x01Conv..Relu..Conv..MatMul";
    let layers = extract_layers_from_bytes(data).unwrap();
    let names: Vec<&str> = layers.iter().map(|l| l.name.as_str()).collect();
    // "Mul" is found inside "MatMul" too.
    assert_eq!(names, vec!["Conv_0", "Conv_1", "MatMul_0", "Relu_0", "Mul_0"]);
    assert_eq!(layers[4].index, 4);
    assert_eq!(layers[2].index, 2);
    assert_eq!(layers[2].inputs, vec!["input_2".to_string()]);
    assert_eq!(layers[3].outputs, vec!["output_3".to_string()]);
}

#[test]
fn no_known_op_gives_two_layer_model() {
    let layers = extract_layers_from_bytes(&[0xff, 0x00, 0x12]).unwrap();
    assert_eq!(layers.len(), 2);
    assert_eq!(layers[0].name, "backbone_0");
    assert_eq!(layers[1].name, "head_0");
    assert_eq!(layers[1].inputs, vec!["hidden_0".to_string()]);
}

#[test]
fn evaluation_json_strips_fences() {
    assert_eq!(evaluation_json("```json\n{\"a\": 1}\n```"), "{\"a\": 1}");
    assert_eq!(evaluation_json("  {\"x\":2}  "), "{\"x\":2}");
    assert_eq!(evaluation_json("```json```json{}```"), "{}");
    assert_eq!(evaluation_json("``````{}``````"), "{}");
    assert_eq!(evaluation_json("plain"), "plain");
}

#[test]
fn completion_evaluation_takes_first_choice() {
    assert_eq!(
        completion_evaluation(&vec![]),
        Err(AnamError::Internal("LLM returned no choices".to_string()))
    );
    assert_eq!(
        completion_evaluation(&vec!["  ```{\"k\": 1}```  ".to_string(), "x".to_string()]),
        Ok("{\"k\": 1}".to_string())
    );
}
