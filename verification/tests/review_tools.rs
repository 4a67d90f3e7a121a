use pm::mcp::audit::kg_audit_facts;
use pm::mcp::context::{handoff_text, tool_session_context};
use pm::mcp::projects::tool_project_list;
use pm::mcp::repair::tool_orphan_repair;
use pm::store::{EdgeType, ExperimentStatus, HypothesisStatus, NodeType, Store};

fn small_project(store: &mut Store) -> (i64, i64, i64) {
    let proj = store.create_project("alpha", None, None).unwrap();
    let phase = store.create_phase(proj.id, "P1", 10, &[]).unwrap();
    let exp = store.create_experiment(Some(phase.id), "E one").unwrap();
    (proj.id, phase.id, exp.id)
}

#[test]
fn orphan_repair_unknown_project() {
    let store = Store::in_memory();
    assert_eq!(tool_orphan_repair(&store, "nope"), "Project not found: nope");
}

#[test]
fn orphan_repair_exact_report() {
    let mut store = Store::in_memory();
    let (pid, _, _) = small_project(&mut store);
    store.create_decision(None, "Use X", Some("because"), Some(pid)).unwrap();
    let out = tool_orphan_repair(&store, "alpha");
    let expected = "=== Orphan Repair Report: alpha ===\n\
\nFound 2 issues: 1 HIGH, 0 MEDIUM, 1 LOW\n\
\n## [HIGH] Decision without causal upstream (1)\n  D(id:1) -- Use X\n    Repair: Link to E(id:1) via pm_add_edge or create a finding that leads to it\n\
\n## [LOW] True orphan (Experiment) (1)\n  E(id:1) -- E one\n    Repair: Link via pm_add_edge to connect this experiment into the KG\n\
\n--- KG Stats ---\nPhases: 1, Experiments: 1, Findings: 0\nDecisions: 1, Hypotheses: 0, Research: 0\nPrinciples: 0, Constraints: 0, Literature: 0\nEdges: 0\n";
    assert_eq!(out, expected);
}

#[test]
fn orphan_repair_clean_graph() {
    let mut store = Store::in_memory();
    let (_, phase, exp) = small_project(&mut store);
    store.create_edge(NodeType::Phase, phase, NodeType::Experiment, exp, EdgeType::Contains).unwrap();
    let out = tool_orphan_repair(&store, "alpha");
    assert!(out.contains("No structural issues found. KG is clean."));
    assert!(out.contains("Edges: 1\n"));
}

#[test]
fn orphan_repair_branches_and_bleed() {
    let mut store = Store::in_memory();
    let (pid, phase, e1) = small_project(&mut store);
    let e2 = store.create_experiment(Some(phase), "E two").unwrap().id;
    let e3 = store.create_experiment(Some(phase), "E three").unwrap().id;
    store.create_edge(NodeType::Experiment, e1, NodeType::Experiment, e2, EdgeType::Informed).unwrap();
    store.create_edge(NodeType::Experiment, e1, NodeType::Experiment, e3, EdgeType::BranchesFrom).unwrap();
    store.update_experiment_status(e3, ExperimentStatus::Pass, None).unwrap();
    let other = store.create_project("beta", None, None).unwrap();
    let ophase = store.create_phase(other.id, "Q1", 5, &[]).unwrap();
    let oexp = store.create_experiment(Some(ophase.id), "foreign").unwrap();
    store.create_decision(Some(oexp.id), "Borrowed result", Some("why"), Some(pid)).unwrap();
    let out = tool_orphan_repair(&store, "alpha");
    assert!(out.contains("--- Causal Backbone Topology ---"));
    assert!(out.contains("Branch points (1):\n  E(id:1) -> fan-out to 2: E#2, E#3\n"));
    assert!(out.contains("Dangling branches (1):\n  E(id:1) has 1/2 downstream experiments still pending\n"));
    assert!(out.contains("## [HIGH] Cross-project causal bleed (1)"));
    assert!(out.contains("experiment_id=4 (belongs to project 'beta') -- reassign"));
    assert!(out.contains("## [MED] Dangling branch (1)"));
}

#[test]
fn project_list_exact() {
    let mut store = Store::in_memory();
    let a = store.create_project("alpha", None, None).unwrap();
    store.create_phase(a.id, "P1", 1, &[]).unwrap();
    let b = store.create_project("beta", None, None).unwrap();
    store.create_project("beta-sub", Some("bs"), Some(b.id)).unwrap();
    let out = tool_project_list(&store);
    assert_eq!(out, "Projects:\n  #1 alpha (standalone)  Phases: 1\n  #2 beta (parent)  (empty)\n    \u{2514}\u{2500} #3 beta-sub [bs]\n       (empty)\n");
}

#[test]
fn project_list_counts_joined() {
    let mut store = Store::in_memory();
    let (_, _, exp) = small_project(&mut store);
    store.create_finding(Some(exp), "a finding").unwrap();
    let out = tool_project_list(&store);
    assert_eq!(out, "Projects:\n  #1 alpha (standalone)  Phases: 1 | Experiments: 1 | Findings: 1\n");
}

#[test]
fn kg_audit_facts_counts() {
    let mut store = Store::in_memory();
    let (pid, phase, exp) = small_project(&mut store);
    let f = store.create_finding(Some(exp), "observed").unwrap();
    let d1 = store.create_decision(None, "Keep going", Some("data"), Some(pid)).unwrap();
    store.create_decision(None, "Stop", Some("none"), Some(pid)).unwrap();
    store.create_edge(NodeType::Finding, f.id, NodeType::Decision, d1.id, EdgeType::Informed).unwrap();
    let h = store.create_hypothesis(Some(phase), "H text").unwrap();
    store.create_hypothesis(Some(phase), "H two").unwrap();
    assert_eq!(store.get_hypothesis(h.id).unwrap().status, HypothesisStatus::Proposed);
    let other = store.create_project("beta", None, None).unwrap();
    let ophase = store.create_phase(other.id, "Q", 1, &[]).unwrap();
    store.create_edge(NodeType::Phase, ophase.id, NodeType::Finding, f.id, EdgeType::RelatedTo).unwrap();
    let facts = kg_audit_facts(&store, "alpha").unwrap();
    assert_eq!(facts.project_name, "alpha");
    assert_eq!(facts.decisions, 2);
    assert_eq!(facts.decisions_with_upstream, 1);
    assert_eq!(facts.broken_chains, vec!["  D#2 (no causal upstream): Stop".to_string()]);
    assert_eq!(facts.hypotheses, 2);
    assert_eq!(facts.hypotheses_tested, 0);
    assert_eq!(facts.untested.len(), 2);
    assert_eq!(facts.untested[0], "    H#1: H text");
    assert_eq!(facts.edges, 2);
    assert_eq!(facts.cross_refs, vec!["  Edge #2: Finding#1 (alpha) <-> Phase#2 (external) [RelatedTo]".to_string()]);
    assert!(kg_audit_facts(&store, "gamma").is_none());
}

#[test]
fn session_context_small_project() {
    let mut store = Store::in_memory();
    let _ = small_project(&mut store);
    let out = tool_session_context(&store, "alpha");
    let expected = "=== Session Context: alpha \u{2014} Phase #1: P1 ===\n\n\
## Active Phase\nP1 [PENDING] [impact:10]\n  Experiments: 1 total (1 pending, 0 pass, 0 fail)\n\n\
## Suggested Next Actions\n  - 1 pending experiments to execute\n  - Next: E#1 \u{2014} E one\n\
\n[Graph: 1 nodes, 0 edges within 3 hops of phase]\n\
\n=== Knowledge Briefing ===\n\n## Active Phase: #1 P1\n\n";
    assert_eq!(out, expected);
}

#[test]
fn session_context_recent_findings_first() {
    let mut store = Store::in_memory();
    let (_, phase, exp) = small_project(&mut store);
    let f1 = store.create_finding(Some(exp), "older").unwrap();
    let f2 = store.create_finding(Some(exp), "newer").unwrap();
    store.create_edge(NodeType::Phase, phase, NodeType::Experiment, exp, EdgeType::Contains).unwrap();
    store.create_edge(NodeType::Experiment, exp, NodeType::Finding, f1.id, EdgeType::ProducedBy).unwrap();
    store.create_edge(NodeType::Experiment, exp, NodeType::Finding, f2.id, EdgeType::ProducedBy).unwrap();
    let out = tool_session_context(&store, "alpha");
    assert!(out.contains("## Recent Findings (top 2)\n  F#2: newer\n  F#1: older\n"));
    assert!(out.contains("### Recent Findings (Phase #1):\n  F#2: newer\n  F#1: older\n"));
}

#[test]
fn session_context_without_phases() {
    let mut store = Store::in_memory();
    store.create_project("empty", None, None).unwrap();
    assert_eq!(tool_session_context(&store, "empty"), "No actionable phases found for project: empty");
    assert_eq!(tool_session_context(&store, "zzz"), "Project not found: zzz");
}

#[test]
fn handoff_document() {
    let mut store = Store::in_memory();
    let (_, phase, exp) = small_project(&mut store);
    store.update_phase_status(phase, pm::store::PhaseStatus::InProgress).unwrap();
    store.create_finding(Some(exp), "first result").unwrap();
    store.create_finding(Some(exp), "second result").unwrap();
    let out = handoff_text(&store, "alpha").unwrap();
    assert_eq!(out, "=== Session Handoff: alpha ===\n\n## Progress: 0/1 phases complete\n\n## Active:\n  Phase #1 [impact:10]: P1\n\n## Next Action: Phase #1 [impact:10] P1\n\n## Recent Findings:\n  #2: second result\n  #1: first result\n");
    assert!(handoff_text(&store, "nobody").is_none());
}

#[test]
fn orphan_repair_counts_any_incoming_edge_as_upstream() {
    let mut store = Store::in_memory();
    let (pid, _, _) = small_project(&mut store);
    let d = store.create_decision(None, "Use X", Some("because"), Some(pid)).unwrap();
    let l = store.create_literature(pid, "A paper", None, None, None, None, None, None, None, None, None).unwrap();
    store.create_edge(NodeType::Literature, l.id, NodeType::Decision, d.id, EdgeType::RelatedTo).unwrap();
    let out = tool_orphan_repair(&store, "alpha");
    assert!(!out.contains("Decision without causal upstream"), "{}", out);
}

#[test]
fn session_context_names_the_phase_by_its_project_number() {
    let mut store = Store::in_memory();
    let other = store.create_project("beta", None, None).unwrap();
    store.create_phase(other.id, "B1", 5, &[]).unwrap();
    let _ = small_project(&mut store);
    let out = tool_session_context(&store, "alpha");
    assert!(out.starts_with("=== Session Context: alpha \u{2014} Phase #1: P1 ===\n\n"), "{}", out);
}
