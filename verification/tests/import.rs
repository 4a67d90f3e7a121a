use pm::import::{import_v2, ImportData, ImportDecision, ImportExperiment, ImportFinding, ImportPhase};
use pm::store::{ExperimentStatus, PhaseStatus, Store};

fn phase(id: i64, name: &str, impact: i32, deps: Vec<i64>, status: &str) -> ImportPhase {
    ImportPhase { id, name: name.to_string(), impact, depends_on: deps, status: status.to_string() }
}

fn exp(id: i64, name: &str, phase: Option<i64>, status: &str, result: Option<&str>) -> ImportExperiment {
    ImportExperiment { id, name: name.to_string(), phase, status: status.to_string(), result: result.map(|s| s.to_string()) }
}

#[test]
fn import_carries_old_ids_over_to_new_ones() {
    let mut store = Store::in_memory();
    store.create_project("other", None, None).unwrap();
    let other_phase = store.create_phase(1, "existing", 1, &[]).unwrap();
    let data = ImportData {
        phases: Some(vec![
            phase(10, "Base", 50, vec![], "complete"),
            phase(20, "Next", 40, vec![10, 99], "in_progress"),
            phase(30, "Later", 30, vec![20, 10], "paused-at-ceiling"),
        ]),
        experiments: Some(vec![
            exp(7, "e1", Some(20), "pass", Some("it worked")),
            exp(8, "e2", Some(55), "weird", None),
        ]),
        findings: Some(vec![
            ImportFinding { text: "f on e1".to_string(), experiment: Some(7) },
            ImportFinding { text: "loose".to_string(), experiment: Some(3) },
        ]),
        decisions: Some(vec![ImportDecision { what: "go".to_string(), why: Some("because".to_string()), experiment: Some(8) }]),
    };
    let (report, err) = import_v2(&mut store, "legacy", &data);
    assert!(err.is_none());
    assert_eq!(report, "Created project: legacy (id: 2)\n  3 phases\n  2 experiments\n  2 findings\n  1 decisions\n\nImport complete. Run: pm next legacy\n");
    let phases = store.list_phases(2).unwrap();
    assert_eq!(phases.len(), 3);
    assert_eq!(phases[0].id, other_phase.id + 1);
    assert_eq!(phases[0].status, PhaseStatus::Complete);
    assert_eq!(phases[1].depends_on, vec![2]);
    assert_eq!(phases[1].status, PhaseStatus::InProgress);
    assert_eq!(phases[2].depends_on, vec![3, 2]);
    assert_eq!(phases[2].status, PhaseStatus::Paused);
    let e1 = store.get_experiment(1).unwrap();
    assert_eq!(e1.phase_id, Some(3));
    assert_eq!(e1.status, ExperimentStatus::Pass);
    assert_eq!(e1.result, Some("it worked".to_string()));
    let e2 = store.get_experiment(2).unwrap();
    assert_eq!(e2.phase_id, None);
    assert_eq!(e2.status, ExperimentStatus::Inconclusive);
    assert_eq!(store.get_finding(1).unwrap().experiment_id, Some(1));
    assert_eq!(store.get_finding(2).unwrap().experiment_id, None);
    let d = store.get_decision(1).unwrap();
    assert_eq!(d.experiment_id, Some(2));
    assert_eq!(d.why, Some("because".to_string()));
}

#[test]
fn import_of_a_file_without_tables_makes_only_the_project() {
    let mut store = Store::in_memory();
    let data = ImportData { phases: None, experiments: None, findings: None, decisions: None };
    let (report, err) = import_v2(&mut store, "empty", &data);
    assert!(err.is_none());
    assert_eq!(report, "Created project: empty (id: 1)\n\nImport complete. Run: pm next empty\n");
    assert_eq!(store.list_projects().unwrap().len(), 1);
    assert!(store.list_phases(1).unwrap().is_empty());
}

#[test]
fn import_lets_the_latest_phase_with_an_old_id_win() {
    let mut store = Store::in_memory();
    let data = ImportData {
        phases: Some(vec![phase(5, "first", 1, vec![], "pending"), phase(5, "second", 1, vec![], "pending"),
            phase(6, "third", 1, vec![5], "pending")]),
        experiments: Some(vec![]),
        findings: None,
        decisions: None,
    };
    let (report, err) = import_v2(&mut store, "dup", &data);
    assert!(err.is_none());
    assert!(report.contains("  0 experiments\n"));
    assert_eq!(store.get_phase(3).unwrap().depends_on, vec![2]);
}
