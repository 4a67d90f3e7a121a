use pm::kg::traversal::{find_nearby, finding_neighborhood, neighborhood, phase_subgraph, traverse_bfs, EdgeFilter, TraversalConfig};
use pm::store::{EdgeType, NodeType, Store};

fn setup_store() -> Store {
    Store::in_memory()
}

#[test]
fn test_bfs_single_hop() {
    let mut store = setup_store();
    let proj = store.create_project("test", None, None).unwrap();
    let phase = store.create_phase(proj.id, "Phase 1", 10, &[]).unwrap();
    let _finding = store.create_finding(None, "Test finding").unwrap();
    store.create_edge(NodeType::Phase, phase.id, NodeType::Finding, 1, EdgeType::Contains).unwrap();

    let config = TraversalConfig { max_depth: 1, ..Default::default() };
    let result = traverse_bfs(&store, NodeType::Phase, phase.id, &config);
    assert!(result.nodes.len() >= 2, "Should have origin + 1 connected node, got {}", result.nodes.len());
    assert!(!result.edges.is_empty(), "Should have at least 1 edge");
}

#[test]
fn test_bfs_multi_hop() {
    let mut store = setup_store();
    let proj = store.create_project("test", None, None).unwrap();
    let phase = store.create_phase(proj.id, "Phase 1", 10, &[]).unwrap();
    let exp = store.create_experiment(Some(phase.id), "Exp 1").unwrap();
    let finding = store.create_finding(Some(exp.id), "Finding from exp").unwrap();
    store.create_edge(NodeType::Phase, phase.id, NodeType::Experiment, exp.id, EdgeType::Contains).unwrap();
    store.create_edge(NodeType::Experiment, exp.id, NodeType::Finding, finding.id, EdgeType::ProducedBy).unwrap();

    let config1 = TraversalConfig { max_depth: 1, ..Default::default() };
    let result1 = traverse_bfs(&store, NodeType::Phase, phase.id, &config1);
    let finding_nodes: Vec<_> = result1.nodes.iter().filter(|n| n.node_type == NodeType::Finding).collect();
    assert!(finding_nodes.is_empty(), "Finding should NOT be reachable at depth 1");

    let config2 = TraversalConfig { max_depth: 2, ..Default::default() };
    let result2 = traverse_bfs(&store, NodeType::Phase, phase.id, &config2);
    let finding_nodes2: Vec<_> = result2.nodes.iter().filter(|n| n.node_type == NodeType::Finding).collect();
    assert!(!finding_nodes2.is_empty(), "Finding SHOULD be reachable at depth 2");
    assert_eq!(finding_nodes2[0].distance, 2);
}

#[test]
fn test_edge_type_filter() {
    let mut store = setup_store();
    let proj = store.create_project("test", None, None).unwrap();
    let phase = store.create_phase(proj.id, "Phase 1", 10, &[]).unwrap();
    let exp = store.create_experiment(Some(phase.id), "Exp 1").unwrap();
    store.create_edge(NodeType::Phase, phase.id, NodeType::Experiment, exp.id, EdgeType::Contains).unwrap();
    store.create_edge(NodeType::Phase, phase.id, NodeType::Experiment, exp.id, EdgeType::Informed).ok();

    let config = TraversalConfig {
        max_depth: 1,
        edge_filter: EdgeFilter::Only(vec![EdgeType::Contains]),
        ..Default::default()
    };
    let result = traverse_bfs(&store, NodeType::Phase, phase.id, &config);
    assert!(result.nodes.len() >= 2);
}

#[test]
fn test_neighborhood_grouping() {
    let mut store = setup_store();
    let proj = store.create_project("test", None, None).unwrap();
    let phase = store.create_phase(proj.id, "Phase 1", 10, &[]).unwrap();
    let exp = store.create_experiment(Some(phase.id), "Exp 1").unwrap();
    let finding = store.create_finding(Some(exp.id), "Test finding").unwrap();
    store.create_edge(NodeType::Phase, phase.id, NodeType::Experiment, exp.id, EdgeType::Contains).unwrap();
    store.create_edge(NodeType::Experiment, exp.id, NodeType::Finding, finding.id, EdgeType::ProducedBy).unwrap();

    let hood = neighborhood(&store, NodeType::Phase, phase.id, 3, EdgeFilter::All);
    assert!(hood.contains_key(&1), "Should have distance-1 nodes");
    assert!(hood.contains_key(&2), "Should have distance-2 nodes");
}

#[test]
fn test_find_nearby_typed() {
    let mut store = setup_store();
    let proj = store.create_project("test", None, None).unwrap();
    let phase = store.create_phase(proj.id, "Phase 1", 10, &[]).unwrap();
    let exp = store.create_experiment(Some(phase.id), "Exp 1").unwrap();
    let f1 = store.create_finding(Some(exp.id), "Finding 1").unwrap();
    let f2 = store.create_finding(Some(exp.id), "Finding 2").unwrap();
    store.create_edge(NodeType::Phase, phase.id, NodeType::Experiment, exp.id, EdgeType::Contains).unwrap();
    store.create_edge(NodeType::Experiment, exp.id, NodeType::Finding, f1.id, EdgeType::ProducedBy).unwrap();
    store.create_edge(NodeType::Experiment, exp.id, NodeType::Finding, f2.id, EdgeType::ProducedBy).unwrap();

    let findings = find_nearby(&store, NodeType::Phase, phase.id, NodeType::Finding, 3);
    assert_eq!(findings.len(), 2, "Should find 2 findings");
}

#[test]
fn test_cycle_handling() {
    let mut store = setup_store();
    let proj = store.create_project("test", None, None).unwrap();
    let phase = store.create_phase(proj.id, "Phase 1", 10, &[]).unwrap();
    let exp = store.create_experiment(Some(phase.id), "Exp 1").unwrap();
    store.create_edge(NodeType::Phase, phase.id, NodeType::Experiment, exp.id, EdgeType::Contains).unwrap();
    store.create_edge(NodeType::Experiment, exp.id, NodeType::Phase, phase.id, EdgeType::Informed).unwrap();

    let config = TraversalConfig { max_depth: 10, ..Default::default() };
    let result = traverse_bfs(&store, NodeType::Phase, phase.id, &config);
    assert!(result.nodes.len() <= 3, "Should handle cycles without duplication");
}

#[test]
fn test_phase_subgraph() {
    let mut store = setup_store();
    let proj = store.create_project("test", None, None).unwrap();
    let phase = store.create_phase(proj.id, "Phase 1", 10, &[]).unwrap();
    let exp = store.create_experiment(Some(phase.id), "Exp 1").unwrap();
    let finding = store.create_finding(Some(exp.id), "Test finding").unwrap();
    store.create_edge(NodeType::Phase, phase.id, NodeType::Experiment, exp.id, EdgeType::Contains).unwrap();
    store.create_edge(NodeType::Experiment, exp.id, NodeType::Finding, finding.id, EdgeType::ProducedBy).unwrap();

    let subgraph = phase_subgraph(&store, phase.id, 3);
    assert!(subgraph.nodes.len() >= 3, "Phase subgraph should include phase, experiment, finding");
}

#[test]
fn bfs_records_path_relations_and_skips_origin_when_asked() {
    let mut store = setup_store();
    let proj = store.create_project("test", None, None).unwrap();
    let phase = store.create_phase(proj.id, "Phase 1", 10, &[]).unwrap();
    let exp = store.create_experiment(Some(phase.id), "Exp 1").unwrap();
    let f = store.create_finding(Some(exp.id), "F").unwrap();
    store.create_edge(NodeType::Phase, phase.id, NodeType::Experiment, exp.id, EdgeType::Contains).unwrap();
    store.create_edge(NodeType::Experiment, exp.id, NodeType::Finding, f.id, EdgeType::ProducedBy).unwrap();
    let config = TraversalConfig { max_depth: 2, include_origin: false, ..Default::default() };
    let result = traverse_bfs(&store, NodeType::Phase, phase.id, &config);
    assert_eq!(result.origin, (NodeType::Phase, phase.id));
    assert_eq!(result.nodes.len(), 2);
    assert_eq!(result.nodes[1].path_edge_types, vec![EdgeType::Contains, EdgeType::ProducedBy]);
    assert_eq!(result.edges.len(), 2);
}

#[test]
fn bfs_one_way_does_not_follow_incoming_edges() {
    let mut store = setup_store();
    let proj = store.create_project("test", None, None).unwrap();
    let phase = store.create_phase(proj.id, "Phase 1", 10, &[]).unwrap();
    let exp = store.create_experiment(Some(phase.id), "Exp 1").unwrap();
    store.create_edge(NodeType::Experiment, exp.id, NodeType::Phase, phase.id, EdgeType::Informed).unwrap();
    let config = TraversalConfig { bidirectional: false, ..Default::default() };
    let result = traverse_bfs(&store, NodeType::Phase, phase.id, &config);
    assert_eq!(result.nodes.len(), 1);
    let except = TraversalConfig { edge_filter: EdgeFilter::Except(vec![EdgeType::Informed]), ..Default::default() };
    let result = traverse_bfs(&store, NodeType::Phase, phase.id, &except);
    assert_eq!(result.nodes.len(), 1);
}

#[test]
fn finding_neighborhood_lists_nearby_findings() {
    let mut store = setup_store();
    let f1 = store.create_finding(None, "a").unwrap();
    let f2 = store.create_finding(None, "b").unwrap();
    store.create_edge(NodeType::Finding, f1.id, NodeType::Finding, f2.id, EdgeType::Supports).unwrap();
    let near = finding_neighborhood(&store, f1.id, 1);
    assert_eq!(near.len(), 1);
    assert_eq!(near[0].node_id, f2.id);
}

#[test]
fn bfs_records_shortest_distances_and_misses_nothing_in_range() {
    let mut store = setup_store();
    let proj = store.create_project("test", None, None).unwrap();
    let phase = store.create_phase(proj.id, "Phase 1", 10, &[]).unwrap();
    let e1 = store.create_experiment(Some(phase.id), "E1").unwrap();
    let e2 = store.create_experiment(Some(phase.id), "E2").unwrap();
    let f = store.create_finding(Some(e2.id), "F").unwrap();
    // phase - e1 - e2 - f, and a short cut phase - e2
    store.create_edge(NodeType::Phase, phase.id, NodeType::Experiment, e1.id, EdgeType::Contains).unwrap();
    store.create_edge(NodeType::Experiment, e1.id, NodeType::Experiment, e2.id, EdgeType::RelatedTo).unwrap();
    store.create_edge(NodeType::Phase, phase.id, NodeType::Experiment, e2.id, EdgeType::Contains).unwrap();
    store.create_edge(NodeType::Experiment, e2.id, NodeType::Finding, f.id, EdgeType::ProducedBy).unwrap();
    let config = TraversalConfig { max_depth: 2, ..Default::default() };
    let g = traverse_bfs(&store, NodeType::Phase, phase.id, &config);
    let dist = |t: NodeType, id: i64| g.nodes.iter().find(|n| n.node_type == t && n.node_id == id).map(|n| n.distance);
    assert_eq!(dist(NodeType::Phase, phase.id), Some(0));
    assert_eq!(dist(NodeType::Experiment, e1.id), Some(1));
    assert_eq!(dist(NodeType::Experiment, e2.id), Some(1));
    assert_eq!(dist(NodeType::Finding, f.id), Some(2));
    let zero = TraversalConfig { max_depth: 0, ..Default::default() };
    let g0 = traverse_bfs(&store, NodeType::Phase, phase.id, &zero);
    assert_eq!(g0.nodes.len(), 1);
    assert!(g0.edges.is_empty());
}

#[test]
fn phase_subgraph_follows_only_its_five_relations() {
    let mut store = setup_store();
    let proj = store.create_project("test", None, None).unwrap();
    let phase = store.create_phase(proj.id, "Phase 1", 10, &[]).unwrap();
    let other = store.create_phase(proj.id, "Phase 2", 10, &[]).unwrap();
    store.create_edge(NodeType::Phase, other.id, NodeType::Phase, phase.id, EdgeType::DependsOn).unwrap();
    let g = phase_subgraph(&store, phase.id, 3);
    assert_eq!(g.nodes.len(), 1);
    assert!(g.edges.is_empty());
}
