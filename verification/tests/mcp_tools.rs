use pm::mcp::completion::{tool_exp_complete, tool_research_complete};
use pm::mcp::dashboard::{tool_dashboard, tool_next};
use pm::mcp::decision::tool_decision;
use pm::mcp::edges::{tool_add_edge, tool_kg_traverse};
use pm::mcp::finding::tool_log_finding;
use pm::mcp::nodes::{parse_ids, tool_lit_status, tool_phase_update};
use pm::mcp::review::{tool_review, tool_stats};
use pm::mcp::scaffold::tool_scaffold;
use pm::store::{ConstraintScope, EdgeType, ExperimentStatus, NodeType, PhaseStatus, PrincipleScope, Store};

fn test_store() -> Store {
    Store::in_memory()
}

fn setup_project(store: &mut Store) -> (i64, i64, i64) {
    let proj = store.create_project("test-project", Some("tp"), None).unwrap();
    let phase = store.create_phase(proj.id, "Phase 1", 40, &[]).unwrap();
    let exp = store.create_experiment(Some(phase.id), "Exp 1").unwrap();
    (proj.id, phase.id, exp.id)
}

#[test]
fn test_split_dashboard_works() {
    let mut store = test_store();
    let _ = setup_project(&mut store);
    let result = tool_dashboard(&store);
    assert!(result.contains("Cross-Project Dashboard"));
}

#[test]
fn test_split_next_works() {
    let mut store = test_store();
    let _ = setup_project(&mut store);
    let result = tool_next(&store, "test-project");
    assert!(result.contains("Next Phases"));
}

#[test]
fn test_split_scaffold_works() {
    let mut store = test_store();
    let (_, phase_id, _) = setup_project(&mut store);
    let result = tool_scaffold(&store, "test-project", phase_id);
    assert!(result.contains("Phase #"));
}

#[test]
fn test_split_stats_works() {
    let mut store = test_store();
    let _ = setup_project(&mut store);
    let result = tool_stats(&store, "test-project");
    assert!(result.contains("Phases:"));
}

#[test]
fn test_split_add_edge_works() {
    let mut store = test_store();
    let (_, _, exp_id) = setup_project(&mut store);
    let f1 = store.create_finding(Some(exp_id), "finding 1").unwrap();
    let f2 = store.create_finding(Some(exp_id), "finding 2").unwrap();
    let result = tool_add_edge(&mut store, "finding", f1.id, "finding", f2.id, "supports");
    assert!(result.contains("Edge #"));
}

#[test]
fn adding_the_same_edge_twice_is_refused() {
    let mut store = test_store();
    let (_, _, exp_id) = setup_project(&mut store);
    let f1 = store.create_finding(Some(exp_id), "finding 1").unwrap();
    let f2 = store.create_finding(Some(exp_id), "finding 2").unwrap();
    let first = tool_add_edge(&mut store, "finding", f1.id, "finding", f2.id, "supports");
    assert!(first.starts_with("Edge #"));
    let n = store.list_all_edges().unwrap().len();
    let second = tool_add_edge(&mut store, "finding", f1.id, "finding", f2.id, "supports");
    assert_eq!(second, "\u{274c} CONSTRAINT ERROR: an edge with this source, target and relation already exists");
    assert_eq!(store.list_all_edges().unwrap().len(), n);
    assert_eq!(tool_add_edge(&mut store, "finding", f1.id, "finding", f2.id, "bogus"), "Unknown relation: bogus");
}

#[test]
fn test_split_kg_traverse_works() {
    let mut store = test_store();
    let (_, _, exp_id) = setup_project(&mut store);
    let f1 = store.create_finding(Some(exp_id), "finding for traverse").unwrap();
    let result = tool_kg_traverse(&store, "finding", f1.id);
    assert!(result.contains("ROOT:"));
}

#[test]
fn test_decision_with_project_name() {
    let mut store = test_store();
    let _ = setup_project(&mut store);
    let why_text = "a".repeat(60);
    let what_text = "b".repeat(60);
    let result = tool_decision(&mut store, &what_text, Some(&why_text), None, None, Some("test-project"));
    assert!(result.contains("Decision #"));
    let decisions = store.list_decisions(1).unwrap();
    assert!(!decisions.is_empty());
    assert_eq!(decisions[0].project_id, Some(1));
}

#[test]
fn test_decision_with_project_alias() {
    let mut store = test_store();
    let _ = setup_project(&mut store);
    let why_text = "a".repeat(60);
    let what_text = "b".repeat(60);
    let result = tool_decision(&mut store, &what_text, Some(&why_text), None, None, Some("tp"));
    assert!(result.contains("Decision #"));
}

#[test]
fn test_decision_with_invalid_project() {
    let mut store = test_store();
    let _ = setup_project(&mut store);
    let why_text = "a".repeat(60);
    let what_text = "b".repeat(60);
    let result = tool_decision(&mut store, &what_text, Some(&why_text), None, None, Some("nonexistent"));
    assert!(result.contains("Project not found"));
}

#[test]
fn test_decision_why_required_validation() {
    let mut store = test_store();
    let _ = setup_project(&mut store);
    let what_text = "b".repeat(60);
    let result = tool_decision(&mut store, &what_text, None, None, None, None);
    assert!(result.contains("VALIDATION ERROR"));
    assert!(result.contains("why"));
}

#[test]
fn test_decision_without_project_still_works() {
    let mut store = test_store();
    let _ = setup_project(&mut store);
    let why_text = "a".repeat(60);
    let what_text = "b".repeat(60);
    let result = tool_decision(&mut store, &what_text, Some(&why_text), None, None, None);
    assert!(result.contains("Decision #"));
}

#[test]
fn test_list_decisions_uses_direct_project_id() {
    let mut store = test_store();
    let (proj_id, _, exp_id) = setup_project(&mut store);
    store.create_decision(Some(exp_id), "decision with project", Some("why"), Some(proj_id)).unwrap();
    store.create_decision(None, "decision without project", Some("why"), None).unwrap();
    let decisions = store.list_decisions(proj_id).unwrap();
    assert_eq!(decisions.len(), 2);
}

#[test]
fn test_phase_update_description() {
    let mut store = test_store();
    let (_, phase_id, _) = setup_project(&mut store);
    let result = tool_phase_update(&mut store, phase_id, Some("A detailed description"), Some("Goal 1"), Some("Criteria 1"), None);
    assert!(result.contains("fields updated"));
    let phase = store.get_phase(phase_id).unwrap();
    assert_eq!(phase.description, Some("A detailed description".to_string()));
    assert_eq!(phase.goals, Some("Goal 1".to_string()));
    assert_eq!(phase.success_criteria, Some("Criteria 1".to_string()));
}

#[test]
fn test_phase_update_to_in_progress_sets_started_at() {
    let mut store = test_store();
    let (_, phase_id, _) = setup_project(&mut store);
    let phase_before = store.get_phase(phase_id).unwrap();
    assert!(phase_before.started_at.is_none());
    let result = tool_phase_update(&mut store, phase_id, None, None, None, Some("in_progress"));
    assert!(result.contains("InProgress"));
    let phase_after = store.get_phase(phase_id).unwrap();
    assert!(phase_after.started_at.is_some());
    assert_eq!(phase_after.status, PhaseStatus::InProgress);
}

#[test]
fn test_phase_update_completion_gating_pending_experiments() {
    let mut store = test_store();
    let (_, phase_id, _) = setup_project(&mut store);
    let result = tool_phase_update(&mut store, phase_id, None, None, None, Some("complete"));
    assert!(result.contains("Cannot complete phase"));
    assert!(result.contains("pending experiment"));
}

#[test]
fn test_phase_update_completion_succeeds_all_resolved() {
    let mut store = test_store();
    let (_, phase_id, exp_id) = setup_project(&mut store);
    store.update_experiment_status(exp_id, ExperimentStatus::Pass, Some("done")).unwrap();
    let result = tool_phase_update(&mut store, phase_id, None, None, None, Some("complete"));
    assert!(result.contains("Complete"));
    let phase = store.get_phase(phase_id).unwrap();
    assert!(phase.completed_at.is_some());
    assert_eq!(phase.status, PhaseStatus::Complete);
}

#[test]
fn test_phase_update_invalid_status() {
    let mut store = test_store();
    let (_, phase_id, _) = setup_project(&mut store);
    let result = tool_phase_update(&mut store, phase_id, None, None, None, Some("foobar"));
    assert!(result.contains("VALIDATION ERROR"));
}

#[test]
fn test_phase_update_nonexistent() {
    let mut store = test_store();
    let result = tool_phase_update(&mut store, 999, None, None, None, None);
    assert!(result.contains("Phase not found"));
}

#[test]
fn test_scaffold_shows_rollup() {
    let mut store = test_store();
    let (_proj_id, phase_id, exp_id) = setup_project(&mut store);
    let exp2 = store.create_experiment(Some(phase_id), "Exp 2").unwrap();
    store.update_experiment_status(exp2.id, ExperimentStatus::Pass, Some("ok")).unwrap();
    let exp3 = store.create_experiment(Some(phase_id), "Exp 3").unwrap();
    store.update_experiment_status(exp3.id, ExperimentStatus::Fail, Some("bad")).unwrap();
    store.create_finding(Some(exp_id), "A finding").unwrap();
    store.create_hypothesis(Some(phase_id), "A hypothesis").unwrap();

    let result = tool_scaffold(&store, "test-project", phase_id);
    assert!(result.contains("Experiment Summary:"));
    assert!(result.contains("3 total"));
    assert!(result.contains("1 pending"));
    assert!(result.contains("1 pass"));
    assert!(result.contains("1 fail"));
    assert!(result.contains("Findings: 1"));
    assert!(result.contains("Open hypotheses: 1"));
}

#[test]
fn test_next_shows_phase_dependencies() {
    let mut store = test_store();
    let proj = store.create_project("dep-test", None, None).unwrap();
    let p1 = store.create_phase(proj.id, "Base Phase", 40, &[]).unwrap();
    let _p2 = store.create_phase(proj.id, "Dependent Phase", 30, &[p1.id]).unwrap();
    store.update_phase_status(p1.id, PhaseStatus::Complete).unwrap();
    let result = tool_next(&store, "dep-test");
    assert!(result.contains("Dependent Phase"), "output: {}", result);
    assert!(result.contains("Depends on:"), "output: {}", result);
}

#[test]
fn test_finding_too_short_rejected() {
    let mut store = test_store();
    let (_, _, exp_id) = setup_project(&mut store);
    let result = tool_log_finding(&mut store, exp_id, "too short");
    assert!(result.contains("VALIDATION ERROR"));
    assert!(result.contains("100 required"));
}

#[test]
fn test_finding_exactly_100_chars_accepted() {
    let mut store = test_store();
    let (_, _, exp_id) = setup_project(&mut store);
    let text = "a".repeat(100);
    let result = tool_log_finding(&mut store, exp_id, &text);
    assert!(result.contains("Finding #"));
    assert!(!result.contains("VALIDATION ERROR"));
}

#[test]
fn test_finding_orphan_warning() {
    let mut store = test_store();
    let _ = setup_project(&mut store);
    let text = "a".repeat(150);
    let result = tool_log_finding(&mut store, 0, &text);
    assert!(result.contains("Finding #"));
    assert!(result.contains("orphaned findings"));
}

#[test]
fn test_finding_with_experiment_no_orphan_warning() {
    let mut store = test_store();
    let (_, _, exp_id) = setup_project(&mut store);
    let text = "a".repeat(150);
    let result = tool_log_finding(&mut store, exp_id, &text);
    assert!(result.contains("Finding #"));
    assert!(!result.contains("orphaned"));
}

#[test]
fn test_lit_status_lifecycle() {
    let mut store = test_store();
    let proj = store.create_project("test-project", Some("tp"), None).unwrap();
    let lit = store.create_literature(proj.id, "Paper", Some("1234.56789"), None, None, Some("Author"), None, None, None, None, None).unwrap();
    assert_eq!(lit.status, Some("unread".to_string()));

    let result = tool_lit_status(&mut store, lit.id, "read");
    assert!(result.contains("status updated to 'read'"));
    let fetched = store.get_literature(lit.id).unwrap();
    assert_eq!(fetched.status, Some("read".to_string()));

    let result = tool_lit_status(&mut store, lit.id, "cited");
    assert!(result.contains("status updated to 'cited'"));

    let result = tool_lit_status(&mut store, lit.id, "tested");
    assert!(result.contains("status updated to 'tested'"));

    let result = tool_lit_status(&mut store, lit.id, "integrated");
    assert!(result.contains("status updated to 'integrated'"));
    let fetched = store.get_literature(lit.id).unwrap();
    assert_eq!(fetched.status, Some("integrated".to_string()));
}

#[test]
fn test_lit_status_invalid_status() {
    let mut store = test_store();
    let proj = store.create_project("test-project", Some("tp"), None).unwrap();
    let lit = store.create_literature(proj.id, "Paper", Some("1234.56789"), None, None, Some("Author"), None, None, None, None, None).unwrap();
    let result = tool_lit_status(&mut store, lit.id, "foobar");
    assert!(result.contains("VALIDATION ERROR"));
}

#[test]
fn test_lit_status_nonexistent() {
    let mut store = test_store();
    let result = tool_lit_status(&mut store, 999, "read");
    assert!(result.contains("Error") || result.contains("not found"));
}

#[test]
fn test_principle_surfaced_in_log_finding() {
    let mut store = test_store();
    let (proj_id, _, exp_id) = setup_project(&mut store);
    store.create_principle(proj_id, PrincipleScope::Project, "Never force-kill GPU processes — use systemctl stop", Some("Prevents driver wedge"), Some("mandatory")).unwrap();
    let text = "a".repeat(150);
    let result = tool_log_finding(&mut store, exp_id, &text);
    assert!(result.contains("Active principles"), "Expected principles surfaced in: {}", result);
    assert!(result.contains("Never force-kill"), "Expected principle text in: {}", result);
}

#[test]
fn test_scaffold_shows_constraints() {
    let mut store = test_store();
    let (proj_id, phase_id, _) = setup_project(&mut store);
    store.create_constraint(proj_id, ConstraintScope::Hardware, &"a".repeat(60), Some("hardware spec"), Some("hard"), None, None, None).unwrap();
    let result = tool_scaffold(&store, "test-project", phase_id);
    assert!(result.contains("Active Constraints"), "Expected constraints in scaffold: {}", result);
    assert!(result.contains("[hard]"), "Expected severity in: {}", result);
}

#[test]
fn test_orphan_detection_excludes_linked_nodes() {
    let mut store = test_store();
    let (proj_id, _phase_id, exp_id) = setup_project(&mut store);
    let text = "a".repeat(100);
    let f1 = store.create_finding(Some(exp_id), &text).unwrap();
    let f2 = store.create_finding(Some(exp_id), &text).unwrap();
    store.create_edge(NodeType::Finding, f1.id, NodeType::Finding, f2.id, EdgeType::Supports).unwrap();
    let lit = store.create_literature(proj_id, "unlinked paper", Some("1234.5"), None, None, Some("Author"), None, None, None, None, None).unwrap();

    let finding_orphans = store.get_orphaned_nodes("finding", proj_id).unwrap();
    assert!(finding_orphans.is_empty(), "Linked findings should not be orphaned: {:?}", finding_orphans);

    let lit_orphans = store.get_orphaned_nodes("literature", proj_id).unwrap();
    assert_eq!(lit_orphans.len(), 1);
    assert_eq!(lit_orphans[0], lit.id);
}

#[test]
fn test_finding_suggests_experiment_and_literature_edges() {
    let mut store = test_store();
    let (proj_id, _, exp_id) = setup_project(&mut store);
    store.create_literature(proj_id, "Recent Paper", Some("2401.00001"), None, None, Some("Author"), None, None, None, None, None).unwrap();
    let text = "a".repeat(150);
    let result = tool_log_finding(&mut store, exp_id, &text);
    assert!(result.contains("Finding #"));
    assert!(result.contains("Causal Links"), "Expected causal links section in: {}", result);
    assert!(result.contains("target_type=Decision") || result.contains("target_type=Hypothesis"), "Expected downstream suggestions in: {}", result);
    assert!(result.contains("Recent literature"), "Expected literature suggestion in: {}", result);
}

#[test]
fn test_dashboard_groups_subprojects_under_parent() {
    let mut store = test_store();
    let parent = store.create_project("home-cloud", None, None).unwrap();
    let child = store.create_project("execution-engine", None, Some(parent.id)).unwrap();
    store.create_phase(child.id, "Refactor EE", 40, &[]).unwrap();
    let result = tool_dashboard(&store);
    assert!(result.contains("## home-cloud"), "Should have parent header: {}", result);
    assert!(result.contains("[home-cloud/execution-engine]"), "Should show parent/child format: {}", result);
}

#[test]
fn test_dashboard_standalone_project_no_group_header() {
    let mut store = test_store();
    store.create_project("standalone", None, None).unwrap();
    let result = tool_dashboard(&store);
    assert!(!result.contains("## standalone"), "Standalone should not have group header: {}", result);
}

#[test]
fn test_dashboard_mixed_standalone_and_grouped() {
    let mut store = test_store();
    let standalone = store.create_project("volta-renaissance", None, None).unwrap();
    store.create_phase(standalone.id, "Phase 1", 50, &[]).unwrap();
    let parent = store.create_project("home-cloud", None, None).unwrap();
    let child1 = store.create_project("execution-engine", None, Some(parent.id)).unwrap();
    let child2 = store.create_project("infrastructure", None, Some(parent.id)).unwrap();
    store.create_phase(child1.id, "EE Phase", 30, &[]).unwrap();
    store.create_phase(child2.id, "Infra Phase", 20, &[]).unwrap();

    let result = tool_dashboard(&store);
    assert!(result.contains("[volta-renaissance]"), "Should show standalone: {}", result);
    assert!(result.contains("## home-cloud"), "Should have parent header: {}", result);
    assert!(result.contains("[home-cloud/execution-engine]"), "Should show child1: {}", result);
    assert!(result.contains("[home-cloud/infrastructure]"), "Should show child2: {}", result);
}

#[test]
fn test_dashboard_parent_own_phases_shown() {
    let mut store = test_store();
    let parent = store.create_project("home-cloud", None, None).unwrap();
    let _child = store.create_project("execution-engine", None, Some(parent.id)).unwrap();
    store.create_phase(parent.id, "Platform Phase", 50, &[]).unwrap();
    let result = tool_dashboard(&store);
    assert!(result.contains("## home-cloud"), "Should have parent header: {}", result);
    assert!(result.contains("Platform Phase"), "Should show parent's own phase: {}", result);
}

#[test]
fn test_list_subprojects_via_store() {
    let mut store = test_store();
    let parent = store.create_project("home-cloud", None, None).unwrap();
    store.create_project("execution-engine", None, Some(parent.id)).unwrap();
    store.create_project("agent-system", None, Some(parent.id)).unwrap();
    let subs = store.list_subprojects(parent.id).unwrap();
    assert_eq!(subs.len(), 2);
    let names: Vec<_> = subs.iter().map(|s| s.name.as_str()).collect();
    assert!(names.contains(&"execution-engine"));
    assert!(names.contains(&"agent-system"));
}

#[test]
fn test_create_subproject_invalid_parent_rejected() {
    let mut store = test_store();
    let result = store.create_project("orphan", None, Some(9999));
    assert!(result.is_err(), "Should reject invalid parent_id");
}

#[test]
fn test_log_finding_auto_creates_phase_contains_edge() {
    let mut store = test_store();
    let (_, phase_id, exp_id) = setup_project(&mut store);
    let text = "a".repeat(150);
    let result = tool_log_finding(&mut store, exp_id, &text);
    assert!(result.contains("Finding #"));
    assert!(result.contains("Phase#") && result.contains("--Contains-->") && result.contains("Finding#"),
        "Expected Phase --Contains--> Finding auto-edge in: {}", result);
    let findings = store.list_findings(Some(exp_id)).unwrap();
    let fid = findings.last().unwrap().id;
    let edges = store.get_edges_to(NodeType::Finding, fid).unwrap();
    let contains: Vec<_> = edges.iter().filter(|e| e.relation == EdgeType::Contains && e.source_type == NodeType::Phase).collect();
    assert_eq!(contains.len(), 1, "Expected exactly 1 Phase --Contains--> Finding edge");
    assert_eq!(contains[0].source_id, phase_id);
    let produced: Vec<_> = edges.iter().filter(|e| e.relation == EdgeType::ProducedBy).collect();
    assert_eq!(produced.len(), 1, "Expected exactly 1 Experiment --ProducedBy--> Finding edge");
}

#[test]
fn test_log_finding_no_phase_edge_without_experiment() {
    let mut store = test_store();
    let _ = setup_project(&mut store);
    let text = "a".repeat(150);
    let result = tool_log_finding(&mut store, 0, &text);
    assert!(result.contains("Finding #"));
    assert!(!result.contains("--Contains-->"), "Should not auto-create phase edge without experiment: {}", result);
}

#[test]
fn test_log_finding_causal_guidance_section() {
    let mut store = test_store();
    let (_, _, exp_id) = setup_project(&mut store);
    let text = "a".repeat(150);
    let result = tool_log_finding(&mut store, exp_id, &text);
    assert!(result.contains("=== Causal Links ==="), "Expected causal links section in: {}", result);
    assert!(result.contains("Auto-created:"), "Expected auto-created section in: {}", result);
    assert!(result.contains("Suggested (specify if applicable):"), "Expected suggestions in: {}", result);
    assert!(result.contains("informs a decision"), "Expected decision suggestion: {}", result);
    assert!(result.contains("supports a hypothesis"), "Expected hypothesis suggestion: {}", result);
}

#[test]
fn test_decision_warns_no_causal_upstream() {
    let mut store = test_store();
    let _ = setup_project(&mut store);
    let why_text = "a".repeat(60);
    let what_text = "b".repeat(60);
    let result = tool_decision(&mut store, &what_text, Some(&why_text), None, None, None);
    assert!(result.contains("Decision #"));
    assert!(result.contains("WARNING"), "Expected warning about no causal upstream: {}", result);
    assert!(result.contains("experiment_id") && result.contains("finding_ids"),
        "Expected guidance to provide causal upstream: {}", result);
}

#[test]
fn test_decision_auto_creates_experiment_informed_edge() {
    let mut store = test_store();
    let (_, _, exp_id) = setup_project(&mut store);
    let why_text = "a".repeat(60);
    let what_text = "b".repeat(60);
    let result = tool_decision(&mut store, &what_text, Some(&why_text), Some(exp_id), None, None);
    assert!(result.contains("Decision #"));
    assert!(result.contains("Experiment#") && result.contains("--Informed-->") && result.contains("Decision#"),
        "Expected Experiment --Informed--> Decision auto-edge in: {}", result);
    assert!(!result.contains("WARNING"), "Should not warn when experiment_id provided: {}", result);
    let decisions = store.list_decisions(0).unwrap();
    let did = decisions.last().unwrap().id;
    let edges = store.get_edges_to(NodeType::Decision, did).unwrap();
    let informed: Vec<_> = edges.iter().filter(|e| e.relation == EdgeType::Informed && e.source_type == NodeType::Experiment).collect();
    assert_eq!(informed.len(), 1);
    assert_eq!(informed[0].source_id, exp_id);
}

#[test]
fn test_decision_auto_creates_finding_informed_edges() {
    let mut store = test_store();
    let (_, _, exp_id) = setup_project(&mut store);
    let text = "a".repeat(150);
    let f1 = store.create_finding(Some(exp_id), &text).unwrap();
    let f2 = store.create_finding(Some(exp_id), &text).unwrap();
    let why_text = "a".repeat(60);
    let what_text = "b".repeat(60);
    let fids = format!("{},{}", f1.id, f2.id);
    let result = tool_decision(&mut store, &what_text, Some(&why_text), None, Some(&fids), None);
    assert!(result.contains("Decision #"));
    assert!(result.contains(&format!("Finding#{}", f1.id)), "Expected finding #{} edge: {}", f1.id, result);
    assert!(result.contains(&format!("Finding#{}", f2.id)), "Expected finding #{} edge: {}", f2.id, result);
    assert!(!result.contains("WARNING"), "Should not warn when finding_ids provided: {}", result);
}

#[test]
fn test_decision_causal_guidance_suggests_downstream() {
    let mut store = test_store();
    let (_, _, exp_id) = setup_project(&mut store);
    let why_text = "a".repeat(60);
    let what_text = "b".repeat(60);
    let result = tool_decision(&mut store, &what_text, Some(&why_text), Some(exp_id), None, None);
    assert!(result.contains("=== Causal Links ==="), "Expected causal links: {}", result);
    assert!(result.contains("spawns a new experiment"), "Expected experiment downstream suggestion: {}", result);
    assert!(result.contains("updates a hypothesis"), "Expected hypothesis downstream suggestion: {}", result);
    assert!(result.contains("derives a principle"), "Expected principle downstream suggestion: {}", result);
}

#[test]
fn test_exp_complete_auto_creates_phase_contains_experiment_edge() {
    let mut store = test_store();
    let (_, phase_id, exp_id) = setup_project(&mut store);
    let result = tool_exp_complete(&mut store, exp_id, "pass", "result text", None);
    assert!(result.contains("Experiment #"));
    assert!(result.contains(&format!("Phase#{}", phase_id)) && result.contains("--Contains-->") && result.contains(&format!("Experiment#{}", exp_id)),
        "Expected Phase --Contains--> Experiment auto-edge in: {}", result);
}

#[test]
fn test_exp_complete_auto_creates_phase_finding_edges() {
    let mut store = test_store();
    let (_, phase_id, exp_id) = setup_project(&mut store);
    let result = tool_exp_complete(&mut store, exp_id, "pass", "result text", Some("A finding from the experiment"));
    assert!(result.contains("Finding #"));
    assert!(result.contains(&format!("Phase#{}", phase_id)) && result.contains("--Contains--> Finding"),
        "Expected Phase --Contains--> Finding auto-edge in: {}", result);
    assert!(result.contains(&format!("Experiment#{}", exp_id)) && result.contains("--ProducedBy-->"),
        "Expected Experiment --ProducedBy--> Finding auto-edge in: {}", result);
}

#[test]
fn test_exp_complete_causal_guidance() {
    let mut store = test_store();
    let (_, _, exp_id) = setup_project(&mut store);
    let result = tool_exp_complete(&mut store, exp_id, "pass", "result text", None);
    assert!(result.contains("=== Causal Links ==="), "Expected causal links: {}", result);
    assert!(result.contains("tested a hypothesis"), "Expected hypothesis suggestion: {}", result);
    assert!(result.contains("warrants a decision"), "Expected decision suggestion: {}", result);
}

#[test]
fn test_research_complete_auto_creates_phase_contains_edge() {
    let mut store = test_store();
    let (_, phase_id, _) = setup_project(&mut store);
    let research = store.create_research(Some(phase_id), "Research task").unwrap();
    let result = tool_research_complete(&mut store, research.id, "complete", Some("Report text"), Some(phase_id), None);
    assert!(result.contains("Research #"));
    assert!(result.contains("Phase#") && result.contains("--Contains-->") && result.contains("Research#"),
        "Expected Phase --Contains--> Research auto-edge in: {}", result);
    let edges = store.get_edges_to(NodeType::Research, research.id).unwrap();
    let contains: Vec<_> = edges.iter().filter(|e| e.relation == EdgeType::Contains).collect();
    assert_eq!(contains.len(), 1);
    assert_eq!(contains[0].source_id, phase_id);
}

#[test]
fn test_research_complete_auto_derives_phase_from_record() {
    let mut store = test_store();
    let (_, phase_id, _) = setup_project(&mut store);
    let research = store.create_research(Some(phase_id), "Research task").unwrap();
    let result = tool_research_complete(&mut store, research.id, "complete", Some("Report text"), None, None);
    assert!(result.contains("Research #"));
    let edges = store.get_edges_to(NodeType::Research, research.id).unwrap();
    let contains: Vec<_> = edges.iter().filter(|e| e.relation == EdgeType::Contains).collect();
    assert_eq!(contains.len(), 1, "Expected phase edge derived from research record");
}

#[test]
fn test_research_complete_auto_creates_finding_informed_edges() {
    let mut store = test_store();
    let (_, phase_id, exp_id) = setup_project(&mut store);
    let text = "a".repeat(150);
    let f1 = store.create_finding(Some(exp_id), &text).unwrap();
    let f2 = store.create_finding(Some(exp_id), &text).unwrap();
    let research = store.create_research(Some(phase_id), "Research task").unwrap();
    let fids = format!("{},{}", f1.id, f2.id);
    let result = tool_research_complete(&mut store, research.id, "complete", Some("Report"), Some(phase_id), Some(&fids));
    assert!(result.contains(&format!("Finding#{}", f1.id)), "Expected finding #{} edge: {}", f1.id, result);
    assert!(result.contains(&format!("Finding#{}", f2.id)), "Expected finding #{} edge: {}", f2.id, result);
    let edges = store.get_edges_to(NodeType::Research, research.id).unwrap();
    let informed: Vec<_> = edges.iter().filter(|e| e.relation == EdgeType::Informed).collect();
    assert_eq!(informed.len(), 2, "Expected 2 Finding --Informed--> Research edges");
}

#[test]
fn test_research_complete_causal_guidance() {
    let mut store = test_store();
    let (_, phase_id, _) = setup_project(&mut store);
    let research = store.create_research(Some(phase_id), "Research task").unwrap();
    let result = tool_research_complete(&mut store, research.id, "complete", Some("Report"), None, None);
    assert!(result.contains("=== Causal Links ==="), "Expected causal links: {}", result);
    assert!(result.contains("produced findings"), "Expected findings suggestion: {}", result);
    assert!(result.contains("informs a decision"), "Expected decision suggestion: {}", result);
}

#[test]
fn test_decision_with_both_experiment_and_findings() {
    let mut store = test_store();
    let (_, _, exp_id) = setup_project(&mut store);
    let text = "a".repeat(150);
    let f1 = store.create_finding(Some(exp_id), &text).unwrap();
    let why_text = "a".repeat(60);
    let what_text = "b".repeat(60);
    let fids = format!("{}", f1.id);
    let result = tool_decision(&mut store, &what_text, Some(&why_text), Some(exp_id), Some(&fids), None);
    assert!(result.contains("Decision #"));
    assert!(result.contains("Experiment#") && result.contains("--Informed-->"), "Expected experiment informed edge: {}", result);
    assert!(result.contains(&format!("Finding#{}", f1.id)), "Expected finding informed edge: {}", result);
    assert!(!result.contains("WARNING"), "Should not warn: {}", result);
}

#[test]
fn test_parse_ids_helper() {
    let ids = parse_ids("1,2,3");
    assert_eq!(ids, vec![1, 2, 3]);
    let ids = parse_ids("42");
    assert_eq!(ids, vec![42]);
    let ids = parse_ids("");
    assert!(ids.is_empty());
    let ids = parse_ids("1, 2 , 3");
    assert_eq!(ids, vec![1, 2, 3]);
    let ids = parse_ids("abc,1,xyz");
    assert_eq!(ids, vec![1]);
}

#[test]
fn test_split_review_works() {
    let mut store = test_store();
    let _ = setup_project(&mut store);
    let result = tool_review(&store, "test-project", "2025-01-01");
    assert!(result.contains("Research Review"));
}

#[test]
fn test_review_shows_orphaned_hypotheses() {
    let mut store = test_store();
    let (_, phase_id, _) = setup_project(&mut store);
    store.create_hypothesis(Some(phase_id), "Orphan hypothesis").unwrap();
    let result = tool_review(&store, "test-project", "2025-01-01");
    assert!(result.contains("orphaned hypothesis"));
}

#[test]
fn test_review_no_orphan_warning_when_all_linked() {
    let mut store = test_store();
    let (_, phase_id, exp_id) = setup_project(&mut store);
    let hyp = store.create_hypothesis(Some(phase_id), "Linked hypothesis").unwrap();
    let finding = store.create_finding(Some(exp_id), "evidence").unwrap();
    store.create_edge(NodeType::Finding, finding.id, NodeType::Hypothesis, hyp.id, EdgeType::Supports).unwrap();
    let result = tool_review(&store, "test-project", "2025-01-01");
    assert!(!result.contains("orphaned hypothesis"));
}

#[test]
fn test_constraint_expiry_detection() {
    let mut store = test_store();
    let (proj_id, _, _) = setup_project(&mut store);
    store.create_constraint(proj_id, ConstraintScope::Hardware, &"a".repeat(60), Some("test source"), Some("hard"),
        Some("GPU"), None, Some("2025-01-01")).unwrap();
    store.create_constraint(proj_id, ConstraintScope::Software, &"b".repeat(60), Some("test source"), Some("soft"),
        None, None, Some("2099-12-31")).unwrap();
    let result = tool_review(&store, "test-project", "2025-01-01");
    assert!(result.contains("Expired constraints: 1"), "Expected 1 expired constraint in: {}", result);
    assert!(result.contains("expired 2025-01-01"), "Expected expiry date in: {}", result);
}

#[test]
fn test_orphan_detection() {
    let mut store = test_store();
    let (proj_id, phase_id, exp_id) = setup_project(&mut store);
    let text = "a".repeat(100);
    store.create_finding(Some(exp_id), &text).unwrap();
    store.create_finding(Some(exp_id), &text).unwrap();
    store.create_decision(None, "orphan decision", Some("why"), Some(proj_id)).unwrap();
    store.create_hypothesis(Some(phase_id), "orphan hypothesis").unwrap();
    store.create_literature(proj_id, "orphan paper", Some("1234.5"), None, None, Some("Author"), None, None, None, None, None).unwrap();
    store.create_principle(proj_id, PrincipleScope::Project, "orphan principle", None, None).unwrap();
    store.create_constraint(proj_id, ConstraintScope::Hardware, "orphan constraint", Some("source"), None, None, None, None).unwrap();
    let result = tool_review(&store, "test-project", "2025-01-01");
    assert!(result.contains("Orphaned nodes:"), "Expected orphan detection in: {}", result);
    assert!(result.contains("Finding:") || result.contains("finding"), "Expected finding orphans in: {}", result);
    assert!(result.contains("Literature:") || result.contains("literature"), "Expected literature orphans in: {}", result);
}

#[test]
fn review_report_exact_for_fixed_date() {
    let mut store = test_store();
    let (proj_id, _, _) = setup_project(&mut store);
    store.create_constraint(proj_id, ConstraintScope::Hardware, "limit", None, None, None, None, Some("2030-06-01")).unwrap();
    let before = tool_review(&store, "tp", "2030-05-31");
    assert!(!before.contains("Expired constraints"));
    let after = tool_review(&store, "tp", "2030-06-01");
    assert!(after.contains("\n## Expired constraints: 1\n  C#1: limit (expired 2030-06-01)\n"));
    assert!(after.starts_with("=== Research Review: test-project ===\n\n## Experiments: 1 total, 0 pass, 0 fail, 1 pending\n\n## Top phases by impact:\n  #1 [impact:40] Pending Phase 1\n\nLiterature: 0 entries. Check for new papers.\n"));
    assert!(after.contains("\n## Orphaned nodes: 1\n  Constraint: 1 orphaned (C#1)\n"));
    assert_eq!(tool_review(&store, "nope", "2030-01-01"), "Project not found: nope");
}

#[test]
fn parse_ids_reads_back_rendered_ids() {
    let ids: Vec<i64> = vec![3, -7, 3, i64::MIN, i64::MAX, 0];
    let text = ids.iter().map(|i| i.to_string()).collect::<Vec<_>>().join(",");
    assert_eq!(pm::mcp::nodes::parse_ids(&text), ids);
    assert_eq!(pm::mcp::nodes::parse_ids(""), Vec::<i64>::new());
}

#[test]
fn deactivated_project_leaves_the_dashboard() {
    let mut store = test_store();
    store.create_project("solo", None, None).unwrap();
    let p = pm::mcp::common::find_project(&store, "solo").unwrap();
    store.create_phase(p.id, "Work", 5, &[]).unwrap();
    assert!(pm::mcp::dashboard::tool_dashboard(&store).contains("[solo]"));
    let off = pm::mcp::projects::tool_project_set_status(&mut store, "solo", false);
    assert!(off.ends_with("deactivated."), "{}", off);
    assert!(!pm::mcp::dashboard::tool_dashboard(&store).contains("[solo]"));
    let on = pm::mcp::projects::tool_project_set_status(&mut store, "solo", true);
    assert!(on.ends_with("activated."), "{}", on);
    assert!(pm::mcp::dashboard::tool_dashboard(&store).contains("[solo]"));
}
