use pm::mcp::hypothesis::tool_hyp_update;
use pm::store::{EdgeType, HypothesisStatus, NodeType, Store};

fn setup_project(store: &mut Store) -> (i64, i64, i64) {
    let proj = store.create_project("test-project", Some("tp"), None).unwrap();
    let phase = store.create_phase(proj.id, "Phase 1", 40, &[]).unwrap();
    let exp = store.create_experiment(Some(phase.id), "Exp 1").unwrap();
    (proj.id, phase.id, exp.id)
}

#[test]
fn test_hyp_proposed_to_testing_requires_evidence() {
    let mut store = Store::in_memory();
    let (_, phase_id, _) = setup_project(&mut store);
    let hyp = store.create_hypothesis(Some(phase_id), "Test hypothesis").unwrap();
    let result = tool_hyp_update(&mut store, hyp.id, "testing", None, None, None, None);
    assert!(result.contains("Cannot transition to testing"));
    assert!(result.contains("no supporting evidence"));
}

#[test]
fn test_hyp_proposed_to_testing_succeeds_with_evidence() {
    let mut store = Store::in_memory();
    let (_, phase_id, exp_id) = setup_project(&mut store);
    let hyp = store.create_hypothesis(Some(phase_id), "Test hypothesis").unwrap();
    let finding = store.create_finding(Some(exp_id), "Supporting evidence").unwrap();
    store.create_edge(NodeType::Finding, finding.id, NodeType::Hypothesis, hyp.id, EdgeType::Supports).unwrap();
    let result = tool_hyp_update(&mut store, hyp.id, "testing", None, None, None, None);
    assert!(result.contains("updated to Testing"));
}

#[test]
fn test_hyp_testing_to_refuted_requires_finding() {
    let mut store = Store::in_memory();
    let (_, phase_id, exp_id) = setup_project(&mut store);
    let hyp = store.create_hypothesis(Some(phase_id), "Test hypothesis").unwrap();
    let finding = store.create_finding(Some(exp_id), "Supporting evidence").unwrap();
    store.create_edge(NodeType::Finding, finding.id, NodeType::Hypothesis, hyp.id, EdgeType::Supports).unwrap();
    store.update_hypothesis(hyp.id, HypothesisStatus::Testing, None, None).unwrap();
    let result = tool_hyp_update(&mut store, hyp.id, "refuted", None, None, None, None);
    assert!(result.contains("Cannot refute"));
    assert!(result.contains("finding_id"));
}

#[test]
fn test_hyp_testing_to_refuted_creates_contradiction_edge() {
    let mut store = Store::in_memory();
    let (_, phase_id, exp_id) = setup_project(&mut store);
    let hyp = store.create_hypothesis(Some(phase_id), "Test hypothesis").unwrap();
    let finding = store.create_finding(Some(exp_id), "Supporting evidence").unwrap();
    store.create_edge(NodeType::Finding, finding.id, NodeType::Hypothesis, hyp.id, EdgeType::Supports).unwrap();
    store.update_hypothesis(hyp.id, HypothesisStatus::Testing, None, None).unwrap();
    let disproving = store.create_finding(Some(exp_id), "Disproving evidence").unwrap();
    let result = tool_hyp_update(&mut store, hyp.id, "refuted", None, Some(disproving.id), None, None);
    assert!(result.contains("Refuted"));
    assert!(result.contains("Contradicts"), "Expected Contradicts in: {}", result);
    let edges = store.get_edges_to(NodeType::Hypothesis, hyp.id).unwrap();
    let contradicts: Vec<_> = edges.iter().filter(|e| e.relation == EdgeType::Contradicts).collect();
    assert_eq!(contradicts.len(), 1);
    assert_eq!(contradicts[0].source_id, disproving.id);
}

#[test]
fn test_hyp_confirmed_suggests_principle() {
    let mut store = Store::in_memory();
    let (_, phase_id, exp_id) = setup_project(&mut store);
    let hyp = store.create_hypothesis(Some(phase_id), "Test hypothesis").unwrap();
    let finding = store.create_finding(Some(exp_id), "Evidence").unwrap();
    store.create_edge(NodeType::Finding, finding.id, NodeType::Hypothesis, hyp.id, EdgeType::Supports).unwrap();
    store.update_hypothesis(hyp.id, HypothesisStatus::Testing, None, None).unwrap();
    let result = tool_hyp_update(&mut store, hyp.id, "confirmed", None, None, None, None);
    assert!(result.contains("Confirmed"));
    assert!(result.contains("pm_principle_add"));
}

#[test]
fn test_hyp_update_testing_auto_creates_tested_by_edge() {
    let mut store = Store::in_memory();
    let (_, phase_id, exp_id) = setup_project(&mut store);
    let hyp = store.create_hypothesis(Some(phase_id), "Test hypothesis").unwrap();
    let finding = store.create_finding(Some(exp_id), "Supporting evidence").unwrap();
    store.create_edge(NodeType::Finding, finding.id, NodeType::Hypothesis, hyp.id, EdgeType::Supports).unwrap();
    let result = tool_hyp_update(&mut store, hyp.id, "testing", Some(exp_id), None, None, None);
    assert!(result.contains("Testing"), "Expected Testing status: {}", result);
    assert!(result.contains("TestedBy"), "Expected TestedBy auto-edge in: {}", result);
    let edges = store.get_edges_to(NodeType::Hypothesis, hyp.id).unwrap();
    let tested: Vec<_> = edges.iter().filter(|e| e.relation == EdgeType::TestedBy).collect();
    assert_eq!(tested.len(), 1, "Expected 1 TestedBy edge, got {}", tested.len());
    assert_eq!(tested[0].source_id, exp_id);
}

#[test]
fn test_hyp_update_confirmed_auto_creates_supports_edge() {
    let mut store = Store::in_memory();
    let (_, phase_id, exp_id) = setup_project(&mut store);
    let hyp = store.create_hypothesis(Some(phase_id), "Test hypothesis").unwrap();
    let finding = store.create_finding(Some(exp_id), "Supporting evidence").unwrap();
    store.create_edge(NodeType::Finding, finding.id, NodeType::Hypothesis, hyp.id, EdgeType::Supports).unwrap();
    store.update_hypothesis(hyp.id, HypothesisStatus::Testing, None, None).unwrap();
    let confirming = store.create_finding(Some(exp_id), "Confirming evidence").unwrap();
    let result = tool_hyp_update(&mut store, hyp.id, "confirmed", None, Some(confirming.id), None, None);
    assert!(result.contains("Confirmed"), "Expected Confirmed status: {}", result);
    let edges = store.get_edges_to(NodeType::Hypothesis, hyp.id).unwrap();
    let supports: Vec<_> = edges.iter().filter(|e| e.relation == EdgeType::Supports).collect();
    assert_eq!(supports.len(), 2, "Expected 2 Supports edges (original + confirmation), got {}: {:?}", supports.len(), supports);
}

#[test]
fn test_hyp_update_testing_causal_guidance() {
    let mut store = Store::in_memory();
    let (_, phase_id, exp_id) = setup_project(&mut store);
    let hyp = store.create_hypothesis(Some(phase_id), "Test hypothesis").unwrap();
    let finding = store.create_finding(Some(exp_id), "Supporting evidence").unwrap();
    store.create_edge(NodeType::Finding, finding.id, NodeType::Hypothesis, hyp.id, EdgeType::Supports).unwrap();
    let result = tool_hyp_update(&mut store, hyp.id, "testing", Some(exp_id), None, None, None);
    assert!(result.contains("=== Causal Links ==="), "Expected causal links: {}", result);
    assert!(result.contains("Log findings"), "Expected finding logging suggestion: {}", result);
    assert!(result.contains("confirms or refutes"), "Expected confirm/refute suggestion: {}", result);
}

#[test]
fn test_hyp_update_refuted_causal_guidance() {
    let mut store = Store::in_memory();
    let (_, phase_id, exp_id) = setup_project(&mut store);
    let hyp = store.create_hypothesis(Some(phase_id), "Test hypothesis").unwrap();
    let finding = store.create_finding(Some(exp_id), "Supporting evidence").unwrap();
    store.create_edge(NodeType::Finding, finding.id, NodeType::Hypothesis, hyp.id, EdgeType::Supports).unwrap();
    store.update_hypothesis(hyp.id, HypothesisStatus::Testing, None, None).unwrap();
    let disproving = store.create_finding(Some(exp_id), "Disproving evidence").unwrap();
    let result = tool_hyp_update(&mut store, hyp.id, "refuted", None, Some(disproving.id), None, None);
    assert!(result.contains("Refuted"), "Expected Refuted status: {}", result);
    assert!(result.contains("Contradicts"), "Expected Contradicts in auto-edges: {}", result);
    assert!(result.contains("new hypothesis"), "Expected new hypothesis suggestion: {}", result);
}

#[test]
fn hyp_update_exact_answers() {
    let mut store = Store::in_memory();
    let (_, phase_id, exp_id) = setup_project(&mut store);
    let hyp = store.create_hypothesis(Some(phase_id), "H").unwrap();
    assert_eq!(tool_hyp_update(&mut store, hyp.id, "testing", None, None, None, None),
        "\u{274c} Cannot transition to testing: hypothesis #1 has no supporting evidence.\nAdd at least one edge (e.g., pm_add_edge source_type=finding source_id=X target_type=hypothesis target_id=1 relation=supports)");
    assert_eq!(tool_hyp_update(&mut store, 9, "testing", None, None, None, None),
        "Error fetching hypothesis #9: Query returned no rows");
    let f = store.create_finding(Some(exp_id), "evidence").unwrap();
    store.create_edge(NodeType::Finding, f.id, NodeType::Hypothesis, hyp.id, EdgeType::Informed).unwrap();
    let expected = [
        "Hypothesis #1 updated to Testing",
        "\n\n=== Causal Links ===\n",
        "Auto-created:\n  + Experiment#1 --TestedBy--> Hypothesis#1\n",
        "Suggested (specify if applicable):\n",
        "  \u{2192} Log findings from the testing experiment: pm_log_finding experiment_id=? text=\"...\"\n",
        "  \u{2192} When evidence confirms or refutes: pm_hyp_update hypothesis_id=1 status=<confirmed|refuted> finding_id=?\n",
    ].concat();
    assert_eq!(tool_hyp_update(&mut store, hyp.id, "testing", Some(exp_id), None, None, None), expected);
    let h = store.get_hypothesis(hyp.id).unwrap();
    assert_eq!(h.status, HypothesisStatus::Testing);
    assert_eq!(h.experiment_id, Some(exp_id));
    assert_eq!(tool_hyp_update(&mut store, hyp.id, "refuted", None, None, None, None),
        "\u{274c} Cannot refute hypothesis #1 without a disproving finding.\nProvide finding_id parameter with the finding that disproves this hypothesis.");
}

#[test]
fn hyp_update_records_prediction_and_criteria() {
    let mut store = Store::in_memory();
    let (_, phase_id, _) = setup_project(&mut store);
    let hyp = store.create_hypothesis(Some(phase_id), "Test hypothesis").unwrap();
    let result = tool_hyp_update(&mut store, hyp.id, "proposed", None, None, Some("Will improve by 10%"), Some("p < 0.05"));
    assert_eq!(result, "Hypothesis #1 updated to Proposed");
    let updated = store.get_hypothesis(hyp.id).unwrap();
    assert_eq!(updated.prediction, Some("Will improve by 10%".to_string()));
    assert_eq!(updated.criteria, Some("p < 0.05".to_string()));
    tool_hyp_update(&mut store, hyp.id, "proposed", None, None, None, Some("p < 0.01"));
    let again = store.get_hypothesis(hyp.id).unwrap();
    assert_eq!(again.prediction, Some("Will improve by 10%".to_string()));
    assert_eq!(again.criteria, Some("p < 0.01".to_string()));
}

#[test]
fn hyp_refuted_from_proposed_adds_no_edge() {
    let mut store = Store::in_memory();
    let (_, phase_id, exp_id) = setup_project(&mut store);
    let hyp = store.create_hypothesis(Some(phase_id), "H").unwrap();
    let f = store.create_finding(Some(exp_id), "x").unwrap();
    let result = tool_hyp_update(&mut store, hyp.id, "refuted", None, Some(f.id), None, None);
    assert!(result.contains("updated to Refuted"));
    assert!(store.get_edges_to(NodeType::Hypothesis, hyp.id).unwrap().is_empty());
    assert_eq!(store.get_hypothesis(hyp.id).unwrap().finding_id, Some(f.id));
}
