use pm::kg::KgEngine;
use pm::store::{EdgeType, NodeType, Store};

fn setup() -> Store {
    let mut store = Store::in_memory();
    let proj = store.create_project("test", None, None).unwrap();
    let phase = store.create_phase(proj.id, "P1", 10, &[]).unwrap();
    let exp = store.create_experiment(Some(phase.id), "exp1").unwrap();
    let f1 = store.create_finding(Some(exp.id), "Finding A").unwrap();
    let f2 = store.create_finding(Some(exp.id), "Finding B").unwrap();
    let f3 = store.create_finding(Some(exp.id), "Finding C").unwrap();
    store.create_edge(NodeType::Finding, f1.id, NodeType::Finding, f2.id, EdgeType::Supports).unwrap();
    store.create_edge(NodeType::Finding, f2.id, NodeType::Finding, f3.id, EdgeType::Contradicts).unwrap();
    store
}

#[test]
fn single_hop_traversal() {
    let store = setup();
    let kg = KgEngine::new(&store);
    let result = kg.traverse(NodeType::Finding, 1).unwrap();
    assert_eq!(result.root.label, "Finding A");
    assert_eq!(result.edges.len(), 1);
    assert_eq!(result.edges[0].0.relation, EdgeType::Supports);
}

#[test]
fn multi_hop_traversal() {
    let store = setup();
    let kg = KgEngine::new(&store);
    let results = kg.traverse_deep(NodeType::Finding, 1, 2).unwrap();
    assert!(results.len() >= 2);
}

#[test]
fn find_contradictions() {
    let store = setup();
    let findings = store.list_findings(None).unwrap();
    let kg = KgEngine::new(&store);
    let contradictions = kg.find_contradictions(&findings).unwrap();
    assert_eq!(contradictions.len(), 1);
    assert_eq!(contradictions[0].0.text, "Finding B");
    assert_eq!(contradictions[0].1.text, "Finding C");
}

#[test]
fn traversal_includes_incoming_edges() {
    let store = setup();
    let kg = KgEngine::new(&store);
    let result = kg.traverse(NodeType::Finding, 2).unwrap();
    assert_eq!(result.edges.len(), 2);
}

#[test]
fn traverse_labels_non_finding_nodes_by_type_and_id() {
    let store = setup();
    let kg = KgEngine::new(&store);
    let result = kg.traverse(NodeType::Phase, 7).unwrap();
    assert_eq!(result.root.label, "Phase #7");
    assert!(result.edges.is_empty());
}

#[test]
fn traverse_missing_finding_is_not_found() {
    let store = setup();
    let kg = KgEngine::new(&store);
    assert!(kg.traverse(NodeType::Finding, 99).is_err());
}

#[test]
fn traverse_deep_visits_each_node_once_start_first() {
    let store = setup();
    let kg = KgEngine::new(&store);
    let results = kg.traverse_deep(NodeType::Finding, 2, 5).unwrap();
    assert_eq!(results[0].root.id, 2);
    assert_eq!(results.len(), 3);
}

#[test]
fn traverse_deep_depth_zero_is_the_start_only() {
    let store = setup();
    let kg = KgEngine::new(&store);
    let results = kg.traverse_deep(NodeType::Finding, 1, 0).unwrap();
    assert_eq!(results.len(), 1);
}

#[test]
fn contradiction_edges_to_other_node_types_are_not_pairs() {
    let mut store = pm::store::Store::in_memory();
    let p = store.create_project("p", None, None).unwrap();
    let ph = store.create_phase(p.id, "Ph", 1, &[]).unwrap();
    let e = store.create_experiment(Some(ph.id), "E").unwrap();
    let f = store.create_finding(Some(e.id), "a finding").unwrap();
    let h = store.create_hypothesis(Some(ph.id), "a hypothesis").unwrap();
    store.create_edge(pm::store::NodeType::Finding, f.id, pm::store::NodeType::Hypothesis, h.id,
        pm::store::EdgeType::Contradicts).unwrap();
    let kg = pm::kg::KgEngine::new(&store);
    let pairs = kg.find_contradictions(&[f]).unwrap();
    assert!(pairs.is_empty());
}
