use pm::dag::DagEngine;
use pm::store::{ExperimentStatus, PhaseStatus, Store};

fn setup() -> (Store, i64) {
    let mut store = Store::in_memory();
    let proj = store.create_project("test", None, None).unwrap();
    (store, proj.id)
}

#[test]
fn topological_sort_respects_dependencies() {
    let (mut store, pid) = setup();
    let p1 = store.create_phase(pid, "A", 10, &[]).unwrap();
    let p2 = store.create_phase(pid, "B", 20, &[p1.id]).unwrap();
    let _p3 = store.create_phase(pid, "C", 30, &[p2.id]).unwrap();

    let dag = DagEngine::new(&store, pid);
    let sorted = dag.topological_sort().unwrap();
    assert_eq!(sorted.len(), 3);
    assert_eq!(sorted[0].name, "A");
    assert_eq!(sorted[1].name, "B");
    assert_eq!(sorted[2].name, "C");
}

#[test]
fn next_phases_returns_impact_sorted_actionable() {
    let (mut store, pid) = setup();
    let p1 = store.create_phase(pid, "Low", 10, &[]).unwrap();
    let _p2 = store.create_phase(pid, "High", 50, &[]).unwrap();
    let _p3 = store.create_phase(pid, "Blocked", 100, &[p1.id]).unwrap();

    let dag = DagEngine::new(&store, pid);
    let next = dag.next_phases().unwrap();
    assert_eq!(next.len(), 2);
    assert_eq!(next[0].name, "High");
    assert_eq!(next[1].name, "Low");
}

#[test]
fn next_phases_excludes_complete_and_deprioritized() {
    let (mut store, pid) = setup();
    store.create_phase(pid, "Done", 10, &[]).unwrap();
    store.update_phase_status(1, PhaseStatus::Complete).unwrap();
    store.create_phase(pid, "Skip", 20, &[]).unwrap();
    store.update_phase_status(2, PhaseStatus::Deprioritized).unwrap();
    store.create_phase(pid, "Active", 30, &[]).unwrap();

    let dag = DagEngine::new(&store, pid);
    let next = dag.next_phases().unwrap();
    assert_eq!(next.len(), 1);
    assert_eq!(next[0].name, "Active");
}

#[test]
fn next_phases_unblocks_when_dep_completes() {
    let (mut store, pid) = setup();
    let p1 = store.create_phase(pid, "Gate", 10, &[]).unwrap();
    let _p2 = store.create_phase(pid, "Blocked", 50, &[p1.id]).unwrap();

    {
        let dag = DagEngine::new(&store, pid);
        let next = dag.next_phases().unwrap();
        assert_eq!(next.len(), 1);
        assert_eq!(next[0].name, "Gate");
    }

    store.update_phase_status(p1.id, PhaseStatus::Complete).unwrap();
    let dag = DagEngine::new(&store, pid);
    let next = dag.next_phases().unwrap();
    assert_eq!(next.len(), 1);
    assert_eq!(next[0].name, "Blocked");
}

#[test]
fn stagnation_detected_after_threshold() {
    let (mut store, pid) = setup();
    let phase = store.create_phase(pid, "P1", 10, &[]).unwrap();
    for i in 0..3 {
        let exp = store.create_experiment(Some(phase.id), &format!("fail_{}", i)).unwrap();
        store.update_experiment_status(exp.id, ExperimentStatus::Fail, Some("failed")).unwrap();
    }
    let dag = DagEngine::new(&store, pid);
    assert_eq!(dag.stagnation_check(3).unwrap(), Some(3));
    assert_eq!(dag.stagnation_check(4).unwrap(), None);
}

#[test]
fn stagnation_resets_on_pass() {
    let (mut store, pid) = setup();
    let phase = store.create_phase(pid, "P1", 10, &[]).unwrap();
    let e1 = store.create_experiment(Some(phase.id), "fail_old").unwrap();
    store.update_experiment_status(e1.id, ExperimentStatus::Fail, None).unwrap();
    let e2 = store.create_experiment(Some(phase.id), "pass").unwrap();
    store.update_experiment_status(e2.id, ExperimentStatus::Pass, None).unwrap();
    let e3 = store.create_experiment(Some(phase.id), "fail_1").unwrap();
    store.update_experiment_status(e3.id, ExperimentStatus::Fail, None).unwrap();
    let e4 = store.create_experiment(Some(phase.id), "fail_2").unwrap();
    store.update_experiment_status(e4.id, ExperimentStatus::Fail, None).unwrap();

    let dag = DagEngine::new(&store, pid);
    assert_eq!(dag.stagnation_check(3).unwrap(), None);
    assert_eq!(dag.stagnation_check(2).unwrap(), Some(2));
}

#[test]
fn topological_sort_of_independent_phases_keeps_all() {
    let (mut store, pid) = setup();
    store.create_phase(pid, "X", 1, &[]).unwrap();
    store.create_phase(pid, "Y", 2, &[]).unwrap();
    let dag = DagEngine::new(&store, pid);
    let sorted = dag.topological_sort().unwrap();
    assert_eq!(sorted.len(), 2);
}

#[test]
fn next_phases_breaks_impact_ties_by_creation_order() {
    let (mut store, pid) = setup();
    store.create_phase(pid, "First", 20, &[]).unwrap();
    store.create_phase(pid, "Second", 20, &[]).unwrap();
    let dag = DagEngine::new(&store, pid);
    let next = dag.next_phases().unwrap();
    assert_eq!(next[0].name, "First");
    assert_eq!(next[1].name, "Second");
}
