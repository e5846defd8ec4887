use anamdb::execution::task_router::{route_candidates, FaoCategory, NodeCapacity, NodeRole, RouteTier};
use anamdb::kernel::error::AnamError;

fn cluster() -> (Vec<NodeCapacity>, Vec<f64>) {
    let nodes = vec![
        NodeCapacity { node_id: "core-0".into(), role: NodeRole::Core, memory_mb: 65536, accelerators: 0 },
        NodeCapacity { node_id: "edge-0".into(), role: NodeRole::Edge, memory_mb: 4096, accelerators: 2 },
        NodeCapacity { node_id: "hybrid-0".into(), role: NodeRole::Hybrid, memory_mb: 32768, accelerators: 4 },
    ];
    (nodes, vec![0.2, 0.1, 0.3])
}

fn least_loaded(nodes: &[NodeCapacity], loads: &[f64], category: FaoCategory, min_mem: u64) -> String {
    let choice = route_candidates(&nodes.to_vec(), category, min_mem).unwrap();
    let best = choice
        .candidates
        .iter()
        .min_by(|a, b| loads[**a].partial_cmp(&loads[**b]).unwrap())
        .unwrap();
    nodes[*best].node_id.clone()
}

#[test]
fn route_perception_to_edge() {
    let (nodes, loads) = cluster();
    assert_eq!(least_loaded(&nodes, &loads, FaoCategory::Perception, 0), "edge-0");
}

#[test]
fn route_symbolic_to_core() {
    let (nodes, loads) = cluster();
    assert_eq!(least_loaded(&nodes, &loads, FaoCategory::SymbolicJoin, 8192), "core-0");
}

#[test]
fn route_mixed_to_hybrid() {
    let (nodes, loads) = cluster();
    assert_eq!(least_loaded(&nodes, &loads, FaoCategory::Mixed, 0), "hybrid-0");
}

#[test]
fn routing_errors() {
    match route_candidates(&vec![], FaoCategory::Mixed, 0) {
        Err(AnamError::Logic(m)) => assert_eq!(m, "no agent nodes registered in the cluster"),
        _ => panic!("expected an error"),
    }
    let (nodes, _) = cluster();
    match route_candidates(&nodes, FaoCategory::SymbolicJoin, 100000) {
        Err(AnamError::Logic(m)) => {
            assert_eq!(m, "no core nodes with >= 100000MB available for symbolic join")
        }
        _ => panic!("expected an error"),
    }
}

#[test]
fn perception_falls_back_to_core_with_accelerators() {
    let nodes = vec![
        NodeCapacity { node_id: "core-gpu".into(), role: NodeRole::Core, memory_mb: 1, accelerators: 1 },
        NodeCapacity { node_id: "edge-cpu".into(), role: NodeRole::Edge, memory_mb: 1, accelerators: 0 },
    ];
    let choice = route_candidates(&nodes, FaoCategory::Perception, 0).unwrap();
    assert_eq!(choice.tier, RouteTier::Fallback);
    assert_eq!(choice.candidates, vec![0]);
    assert_eq!(NodeRole::Hybrid.to_string(), "Hybrid");
    assert_eq!(FaoCategory::SymbolicJoin.to_string(), "SymbolicJoin");
}
