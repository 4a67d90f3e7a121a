use pm::kg::KgEngine;
use pm::mcp::edges::tool_set_belief;
use pm::mcp::finding::tool_log_finding;
use pm::mcp::principle::tool_principle_add;
use pm::mcp::projects::{tool_session_set_experiment, tool_session_start};
use pm::store::{ConstraintScope, EdgeType, NodeType, Store};

fn setup_project(store: &mut Store) -> (i64, i64, i64) {
    let proj = store.create_project("test-project", Some("tp"), None).unwrap();
    let phase = store.create_phase(proj.id, "Phase 1", 40, &[]).unwrap();
    let exp = store.create_experiment(Some(phase.id), "Exp 1").unwrap();
    (proj.id, phase.id, exp.id)
}

#[test]
fn test_principle_auto_edge_from_finding() {
    let mut store = Store::in_memory();
    let (proj_id, _, exp_id) = setup_project(&mut store);
    let text = "a".repeat(100);
    let finding = store.create_finding(Some(exp_id), &text).unwrap();
    let result = tool_principle_add(&mut store, "test-project", "project", &"b".repeat(60),
        Some("Because we observed this in the experiment"), None, Some(finding.id), None);
    assert!(result.contains("Principle #"), "result: {}", result);
    assert!(result.contains("DerivedFrom"), "Expected DerivedFrom edge in: {}", result);
    assert!(result.contains(&format!("Finding #{}", finding.id)), "Expected finding ID in: {}", result);
    let principles = store.list_principles(proj_id).unwrap();
    assert_eq!(principles.len(), 1);
    let edges = store.get_edges_from(NodeType::Principle, principles[0].id).unwrap();
    assert_eq!(edges.len(), 1);
    assert_eq!(edges[0].relation, EdgeType::DerivedFrom);
    assert_eq!(edges[0].target_id, finding.id);
}

#[test]
fn test_principle_auto_edge_from_decision() {
    let mut store = Store::in_memory();
    let (proj_id, _, _) = setup_project(&mut store);
    let what = "a".repeat(60);
    let why = "b".repeat(60);
    let dec = store.create_decision(None, &what, Some(&why), Some(proj_id)).unwrap();
    let result = tool_principle_add(&mut store, "test-project", "project", &"c".repeat(60),
        Some("Because of the decision"), None, None, Some(dec.id));
    assert!(result.contains("Principle #"));
    assert!(result.contains("DerivedFrom"));
    assert!(result.contains(&format!("Decision #{}", dec.id)));
}

#[test]
fn principle_without_evidence_is_refused() {
    let mut store = Store::in_memory();
    let _ = setup_project(&mut store);
    let result = tool_principle_add(&mut store, "test-project", "universal", &"a".repeat(60),
        Some("Prevents driver wedge states"), Some("mandatory"), None, None);
    assert!(result.starts_with("\u{274c} PROVENANCE ERROR: Principles must be derived from evidence."), "{}", result);
    assert!(store.list_principles(1).unwrap().is_empty());
}

#[test]
fn principle_answer_is_exact() {
    let mut store = Store::in_memory();
    let (proj_id, _, exp_id) = setup_project(&mut store);
    let f = store.create_finding(Some(exp_id), "a measured finding").unwrap();
    store.create_constraint(proj_id, ConstraintScope::Hardware, "VRAM is 32 GB", Some("hardware spec"), None, None, None, None).unwrap();
    let out = tool_principle_add(&mut store, "tp", "phase", "Measure before tuning", None, None, Some(f.id), None);
    let expected = "Principle #1 added (global #1): Measure before tuning\
\nAuto-created edge: Principle #1 --DerivedFrom--> Finding #1 (Edge #1)\
\n\nIf any finding contradicts this principle, create a ViolatedBy edge:\
\n  F#1: a measured finding -> pm_add_edge source_type=finding source_id=1 target_type=principle target_id=1 relation=violated_by\
\n\nActive constraints (suggest related edges):\n  C#1 [hard]: VRAM is 32 GB\n\
\nSuggest: pm_add_edge source_type=principle source_id=1 target_type=constraint target_id=1 relation=related\n";
    assert_eq!(out, expected);
    assert_eq!(tool_principle_add(&mut store, "nope", "phase", "x", None, None, Some(1), None), "Project not found: nope");
}

#[test]
fn belief_status_is_recorded_and_checked() {
    let mut store = Store::in_memory();
    let (_, _, exp_id) = setup_project(&mut store);
    let f = store.create_finding(Some(exp_id), "a finding").unwrap();
    assert_eq!(tool_set_belief(&mut store, "finding", f.id, "suspended"), "Belief status updated: Finding #1 = suspended");
    assert_eq!(tool_set_belief(&mut store, "f", f.id, "believed"), "Belief status updated: Finding #1 = believed");
    assert_eq!(tool_set_belief(&mut store, "finding", 99, "retracted"), "Error: Query returned no rows");
    assert_eq!(tool_set_belief(&mut store, "finding", f.id, "maybe"), "Error: invalid request");
    assert_eq!(tool_set_belief(&mut store, "phase", 1, "believed"), "Error: invalid request");
}

#[test]
fn session_experiment_routes_findings() {
    let mut store = Store::in_memory();
    let (_, _, exp_id) = setup_project(&mut store);
    assert_eq!(tool_session_set_experiment(&mut store, exp_id), "No active session. Start one with pm_session_start.");
    tool_session_start(&mut store, Some("test-project"));
    assert_eq!(tool_session_set_experiment(&mut store, 42), "Experiment #42 not found.");
    assert_eq!(tool_session_set_experiment(&mut store, exp_id), "Active experiment for session #1 set to Exp #1: Exp 1");
    let out = tool_log_finding(&mut store, 0, &"z".repeat(120));
    assert!(!out.contains("no experiment_id"), "{}", out);
    assert_eq!(store.list_findings(Some(exp_id)).unwrap().len(), 1);
}

#[test]
fn deep_traversal_reaches_every_node_in_range() {
    let mut store = Store::in_memory();
    let (_, phase, e1) = setup_project(&mut store);
    let e2 = store.create_experiment(Some(phase), "Exp 2").unwrap().id;
    let e3 = store.create_experiment(Some(phase), "Exp 3").unwrap().id;
    // S = Phase, A = e1, B = e2, X = e3: S-A, S-B, B-A, A-X
    store.create_edge(NodeType::Phase, phase, NodeType::Experiment, e1, EdgeType::Contains).unwrap();
    store.create_edge(NodeType::Phase, phase, NodeType::Experiment, e2, EdgeType::Contains).unwrap();
    store.create_edge(NodeType::Experiment, e2, NodeType::Experiment, e1, EdgeType::RelatedTo).unwrap();
    store.create_edge(NodeType::Experiment, e1, NodeType::Experiment, e3, EdgeType::RelatedTo).unwrap();
    let kg = KgEngine::new(&store);
    let rs = kg.traverse_deep(NodeType::Phase, phase, 2).unwrap();
    let roots: Vec<(NodeType, i64)> = rs.iter().map(|r| (r.root.node_type.clone(), r.root.id)).collect();
    assert_eq!(roots[0], (NodeType::Phase, phase));
    assert!(roots.contains(&(NodeType::Experiment, e3)));
    assert_eq!(roots.len(), 4);
}

#[test]
fn test_constraint_with_new_fields() {
    let mut store = Store::in_memory();
    let _ = setup_project(&mut store);
    let result = pm::mcp::constraint::tool_constraint_add(&mut store, "test-project", "hardware", &"a".repeat(60),
        Some("nvidia-smi"), Some("hard"), Some("GPU VRAM"), Some("32768 MB"), Some("2026-12-31"), None);
    assert!(result.contains("Constraint #"), "result: {}", result);
    let constraints = store.list_constraints(1).unwrap();
    assert_eq!(constraints.len(), 1);
    assert_eq!(constraints[0].severity, Some("hard".to_string()));
    assert_eq!(constraints[0].resource, Some("GPU VRAM".to_string()));
    assert_eq!(constraints[0].measured_value, Some("32768 MB".to_string()));
    assert_eq!(constraints[0].expires_at, Some("2026-12-31".to_string()));
}

#[test]
fn test_constraint_add_edge_suggestions() {
    let mut store = Store::in_memory();
    let proj = store.create_project("test-project", Some("tp"), None).unwrap();
    let phase = store.create_phase(proj.id, "VRAM Optimization Phase", 40, &[]).unwrap();
    let _exp = store.create_experiment(Some(phase.id), "Pending experiment").unwrap();
    let result = pm::mcp::constraint::tool_constraint_add(&mut store, "test-project", "hardware",
        &("VRAM ".to_string() + &"a".repeat(56)), Some("nvidia-smi"), None, None, None, None, None);
    assert!(result.contains("Constraint #"), "result: {}", result);
    assert!(result.contains("pm_add_edge source_type=constraint"), "Expected edge suggestion in: {}", result);
}

#[test]
fn test_constraint_add_auto_creates_tested_by_edge() {
    let mut store = Store::in_memory();
    let (_, _, exp_id) = setup_project(&mut store);
    let result = pm::mcp::constraint::tool_constraint_add(&mut store, "test-project", "hardware", &"a".repeat(60),
        Some("benchmark"), None, None, None, None, Some(exp_id));
    assert!(result.contains("Constraint #"));
    assert!(result.contains("TestedBy"), "Expected TestedBy auto-edge in: {}", result);
    let constraints = store.list_constraints(1).unwrap();
    let cid = constraints.last().unwrap().id;
    let edges = store.get_edges_to(NodeType::Constraint, cid).unwrap();
    let tested: Vec<_> = edges.iter().filter(|e| e.relation == EdgeType::TestedBy).collect();
    assert_eq!(tested.len(), 1);
    assert_eq!(tested[0].source_id, exp_id);
}

#[test]
fn test_constraint_add_causal_guidance() {
    let mut store = Store::in_memory();
    let _ = setup_project(&mut store);
    let result = pm::mcp::constraint::tool_constraint_add(&mut store, "test-project", "hardware", &"a".repeat(60),
        Some("test"), None, None, None, None, None);
    assert!(result.contains("Constraint #"));
    assert!(result.contains("=== Causal Links ===") || result.contains("Suggest:"),
        "Expected some edge guidance in: {}", result);
}

#[test]
fn constraint_answer_is_exact() {
    let mut store = Store::in_memory();
    let proj = store.create_project("p", None, None).unwrap();
    let phase = store.create_phase(proj.id, "VRAM tuning", 40, &[]).unwrap();
    store.create_experiment(Some(phase.id), "Probe").unwrap();
    let out = pm::mcp::constraint::tool_constraint_add(&mut store, "p", "software", "(VRAM) is scarce", None, None, None,
        None, None, None);
    let expected = [
        "Constraint #1 added (global #1): (VRAM) is scarce\n\n=== Causal Links ===\n",
        "Suggested (specify if applicable):\n",
        "  \u{2192} Constraint overlaps with Phase#1 (VRAM tuning): pm_add_edge source_type=constraint source_id=1 target_type=phase target_id=1 relation=related\n",
        "  \u{2192} Pending Experiment#1 may be affected: pm_add_edge source_type=constraint source_id=1 target_type=experiment target_id=1 relation=related\n",
    ].concat();
    assert_eq!(out, expected);
}

#[test]
fn test_lit_add_with_all_new_fields() {
    let mut store = Store::in_memory();
    let _ = setup_project(&mut store);
    let result = pm::mcp::literature::tool_lit_add(&mut store, "test-project", "Attention Is All You Need",
        Some("1706.03762"), Some(&"x".repeat(100)), Some(&"y".repeat(200)), Some("Vaswani et al."), Some("NeurIPS"),
        Some(2017), Some("https://arxiv.org/abs/1706.03762"), Some("https://github.com/tensorflow/tensor2tensor"),
        Some("Introduces the Transformer architecture based on self-attention"));
    assert!(result.contains("Literature #"), "result: {}", result);
    assert!(result.contains("Attention Is All You Need"));
    let lits = store.list_literature(1).unwrap();
    assert_eq!(lits.len(), 1);
    assert_eq!(lits[0].authors, Some("Vaswani et al.".to_string()));
    assert_eq!(lits[0].venue, Some("NeurIPS".to_string()));
    assert_eq!(lits[0].year, Some(2017));
    assert_eq!(lits[0].url, Some("https://arxiv.org/abs/1706.03762".to_string()));
    assert_eq!(lits[0].code_url, Some("https://github.com/tensorflow/tensor2tensor".to_string()));
    assert_eq!(lits[0].summary, Some("Introduces the Transformer architecture based on self-attention".to_string()));
    assert_eq!(lits[0].status, Some("unread".to_string()));
}

#[test]
fn test_lit_add_edge_suggestions() {
    let mut store = Store::in_memory();
    let proj = store.create_project("test-project", Some("tp"), None).unwrap();
    store.create_phase(proj.id, "Kernel Optimization Research", 40, &[]).unwrap();
    let _exp = store.create_experiment(None, "Exp1").unwrap();
    let result = pm::mcp::literature::tool_lit_add(&mut store, "test-project", "Kernel Fusion Optimization for GPU Inference",
        Some("2401.12345"), Some(&"x".repeat(100)), Some(&"y".repeat(200)), Some("Smith et al."), None, None, None, None, None);
    assert!(result.contains("Literature #"), "result: {}", result);
    assert!(result.contains("pm_add_edge source_type=literature"), "Expected edge suggestion in: {}", result);
    assert!(result.contains("target_type=phase"), "Expected phase edge suggestion in: {}", result);
    assert_eq!(result, "Literature #1 added (global #1): Kernel Fusion Optimization for GPU Inference\nSuggest: pm_add_edge source_type=literature source_id=1 target_type=phase target_id=1 relation=informed");
}

#[test]
fn hypothesis_add_grounds_in_its_finding() {
    let mut store = Store::in_memory();
    let (_, phase, exp_id) = setup_project(&mut store);
    let f = store.create_finding(Some(exp_id), "a finding").unwrap();
    assert!(pm::mcp::hypothesis::tool_hyp_add(&mut store, "test-project", "too short", None, None, None, None)
        .starts_with("\u{274c} VALIDATION ERROR:\n"));
    let out = pm::mcp::hypothesis::tool_hyp_add(&mut store, "tp", "Fusing kernels halves latency", Some(phase), Some(f.id),
        Some("latency drops by half"), None);
    assert_eq!(out, "Hypothesis #1 created: Fusing kernels halves latency\nAuto-created edge: Finding #1 --Supports--> Hypothesis #1");
    let h = store.get_hypothesis(1).unwrap();
    assert_eq!(h.prediction, Some("latency drops by half".to_string()));
    assert_eq!(store.get_edges_to(NodeType::Hypothesis, 1).unwrap().len(), 1);
}

#[test]
fn since_lists_what_a_session_added() {
    let mut store = Store::in_memory();
    let (_, _, exp_id) = setup_project(&mut store);
    tool_session_start(&mut store, Some("test-project"));
    store.create_finding(Some(exp_id), "new finding").unwrap();
    let out = pm::mcp::since::tool_since(&store, None, Some(1));
    assert_eq!(out, "=== Changes since session #1 (tick 0) ===\n\n  Findings: 1 new/modified\n\n  Total: 1 nodes changed\n\n--- Findings ---\n  F#1: new finding\n");
    assert_eq!(pm::mcp::since::tool_since(&store, None, Some(7)), "Session #7 not found.");
    assert_eq!(pm::mcp::since::tool_since(&store, None, None), "Error: provide either 'since' (date) or 'session_id'.");
}
