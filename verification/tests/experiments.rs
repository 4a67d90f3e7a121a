use pm::mcp::experiment::tool_experiment_create;
use pm::store::{ConstraintScope, EdgeType, NodeType, Store};

fn project_with_phase(store: &mut Store) -> (i64, i64) {
    let proj = store.create_project("alpha", None, None).unwrap();
    let phase = store.create_phase(proj.id, "P1", 10, &[]).unwrap();
    (proj.id, phase.id)
}

#[test]
fn experiment_name_too_short() {
    let mut store = Store::in_memory();
    let (_, phase) = project_with_phase(&mut store);
    let out = tool_experiment_create(&mut store, phase, "short", None, None, None, "2025-01-01");
    assert!(out.starts_with("\u{274c} Experiment name too short (min 10 chars)."));
    assert!(store.list_experiments(Some(phase)).unwrap().is_empty());
}

#[test]
fn first_experiment_needs_no_upstream() {
    let mut store = Store::in_memory();
    let (_, phase) = project_with_phase(&mut store);
    let out = tool_experiment_create(&mut store, phase, "baseline measurement run", None, None, None, "2025-01-01");
    assert_eq!(out, "Experiment #1 created: baseline measurement run\n\nCausal links:\n  + Phase#1 --Contains--> Exp#1\n");
    let edges = store.get_edges_from(NodeType::Phase, phase).unwrap();
    assert_eq!(edges.len(), 1);
    assert_eq!(edges[0].relation, EdgeType::Contains);
}

#[test]
fn later_experiment_requires_upstream() {
    let mut store = Store::in_memory();
    let (_, phase) = project_with_phase(&mut store);
    tool_experiment_create(&mut store, phase, "baseline measurement run", None, None, None, "2025-01-01");
    let out = tool_experiment_create(&mut store, phase, "second measurement run", None, None, None, "2025-01-01");
    assert!(out.starts_with("\u{274c} CAUSAL BACKBONE ERROR: Experiment requires causal upstream.\n"));
    assert_eq!(store.list_experiments(Some(phase)).unwrap().len(), 1);
}

#[test]
fn missing_phase_is_refused() {
    let mut store = Store::in_memory();
    let out = tool_experiment_create(&mut store, 9, "an experiment name", None, None, None, "2025-01-01");
    assert_eq!(out, "Error creating experiment: FOREIGN KEY constraint failed");
}

#[test]
fn second_downstream_experiment_makes_a_branch_point() {
    let mut store = Store::in_memory();
    let (_, phase) = project_with_phase(&mut store);
    tool_experiment_create(&mut store, phase, "baseline measurement run", None, None, None, "2025-01-01");
    let second = tool_experiment_create(&mut store, phase, "follow-up measurement", None, None, Some(1), "2025-01-01");
    assert!(second.contains("  + Exp#1 --Informed--> Exp#2\n"));
    let third = tool_experiment_create(&mut store, phase, "alternative measurement", None, None, Some(1), "2025-01-01");
    assert!(third.contains("\n** BRANCH POINT: Exp#1 now has 2 downstream experiments (including this one). This is a research branch point.\n"));
    assert!(third.contains("  (upgraded 1 existing Informed edges to BranchesFrom)\n"));
    assert!(third.contains("  + Exp#1 --BranchesFrom--> Exp#3\n"));
    let from_first = store.get_edges_from(NodeType::Experiment, 1).unwrap();
    assert_eq!(from_first.len(), 2);
    assert!(from_first.iter().all(|e| e.relation == EdgeType::BranchesFrom));
}

#[test]
fn constraints_split_by_expiry_date() {
    let mut store = Store::in_memory();
    let (pid, phase) = project_with_phase(&mut store);
    store.create_constraint(pid, ConstraintScope::Hardware, "GPU memory 24GB", None, Some("hard"), None, None, Some("2030-01-01")).unwrap();
    store.create_constraint(pid, ConstraintScope::Software, "Python 3.11 only", None, None, None, None, None).unwrap();
    let out = tool_experiment_create(&mut store, phase, "baseline measurement run", None, None, None, "2030-06-30");
    assert!(out.ends_with("\nActive constraints to consider:\n  C#2 [hard]: Python 3.11 only\n\nWARNING: Expired constraints (may need re-validation):\n  C#1: GPU memory 24GB (expired 2030-01-01)\n"));
    let mut store2 = Store::in_memory();
    let (pid2, phase2) = project_with_phase(&mut store2);
    store2.create_constraint(pid2, ConstraintScope::Hardware, "GPU memory 24GB", None, Some("hard"), None, None, Some("2030-01-01")).unwrap();
    let out2 = tool_experiment_create(&mut store2, phase2, "baseline measurement run", None, None, None, "2029-12-31");
    assert!(out2.ends_with("\nActive constraints to consider:\n  C#1 [hard]: GPU memory 24GB\n"));
}
