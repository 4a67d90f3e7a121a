use pm::board::{board_report, dashboard_phase_context};
use pm::store::{ExperimentStatus, PhaseStatus, Store};

#[test]
fn phase_context_exact() {
    let mut store = Store::in_memory();
    let p = store.create_project("p", None, None).unwrap();
    let ph = store.create_phase(p.id, "Ph", 10, &[]).unwrap();
    let e1 = store.create_experiment(Some(ph.id), "a").unwrap();
    store.create_experiment(Some(ph.id), "b").unwrap();
    let e3 = store.create_experiment(Some(ph.id), "c").unwrap();
    let e4 = store.create_experiment(Some(ph.id), "d").unwrap();
    store.update_experiment_status(e3.id, ExperimentStatus::Pass, None).unwrap();
    store.update_experiment_status(e4.id, ExperimentStatus::Fail, None).unwrap();
    store.create_finding(Some(e1.id), "first").unwrap();
    store.create_finding(Some(e1.id), "second").unwrap();
    store.create_finding(Some(e3.id), "third").unwrap();
    store.create_hypothesis(Some(ph.id), "h?").unwrap();
    let expected = [
        "\n      Experiments: 2 pending, 1 pass, 1 fail",
        "\n      Pending (2): E#1 (2 findings), E#2",
        "\n      1 untested hypothesis(es)",
        "\n      Latest: F#3 third",
    ].concat();
    assert_eq!(dashboard_phase_context(&store, ph.id), expected);
}

#[test]
fn phase_context_of_empty_phase_is_empty() {
    let mut store = Store::in_memory();
    let p = store.create_project("p", None, None).unwrap();
    let ph = store.create_phase(p.id, "Ph", 10, &[]).unwrap();
    assert_eq!(dashboard_phase_context(&store, ph.id), "");
}

#[test]
fn phase_context_flags_a_resolved_phase_and_caps_names_at_four() {
    let mut store = Store::in_memory();
    let p = store.create_project("p", None, None).unwrap();
    let ph = store.create_phase(p.id, "Ph", 10, &[]).unwrap();
    let e = store.create_experiment(Some(ph.id), "x").unwrap();
    store.update_experiment_status(e.id, ExperimentStatus::Pass, None).unwrap();
    assert_eq!(dashboard_phase_context(&store, ph.id),
        "\n      Experiments: 0 pending, 1 pass, 0 fail -- REVIEW NEEDED (all resolved)");
    let ph2 = store.create_phase(p.id, "Ph2", 10, &[]).unwrap();
    for k in 0..6 {
        store.create_experiment(Some(ph2.id), &format!("y{}", k)).unwrap();
    }
    let ctx = dashboard_phase_context(&store, ph2.id);
    assert!(ctx.contains("\n      Pending (6): E#2, E#3, E#4, E#5, +2 more"));
    let ph3 = store.create_phase(p.id, "Ph3", 10, &[]).unwrap();
    store.create_experiment(Some(ph3.id), "z").unwrap();
    assert!(dashboard_phase_context(&store, ph3.id).ends_with("\n      Pending: E#8"));
}

#[test]
fn board_report_exact() {
    let mut store = Store::in_memory();
    let solo = store.create_project("solo", None, None).unwrap();
    let home = store.create_project("home", None, None).unwrap();
    let child = store.create_project("child", None, Some(home.id)).unwrap();
    let a = store.create_phase(solo.id, "A", 50, &[]).unwrap();
    let b = store.create_phase(solo.id, "B", 30, &[]).unwrap();
    store.create_phase(child.id, "C", 20, &[]).unwrap();
    store.create_phase(home.id, "H", 5, &[]).unwrap();
    store.update_phase_status(a.id, PhaseStatus::InProgress).unwrap();
    store.update_phase_status(b.id, PhaseStatus::Paused).unwrap();
    let expected = [
        "=== Cross-Project Dashboard ===\n\n",
        "  [solo] IN-PROGRESS #1 [impact:50] A\n",
        "  [solo] PAUSED #2 [impact:30] B\n",
        "## home\n",
        "  [home] NEXT #4 [impact:5] H\n",
        "  [home/child] NEXT #3 [impact:20] C\n",
        "\n",
        "\n## ACTION: Execute the highest-impact item above.\n",
    ].concat();
    assert_eq!(board_report(&store), expected);
}

#[test]
fn board_report_prefers_the_phase_under_way_and_adds_its_account() {
    let mut store = Store::in_memory();
    let p = store.create_project("p", None, None).unwrap();
    store.create_phase(p.id, "High", 90, &[]).unwrap();
    let low = store.create_phase(p.id, "Low", 10, &[]).unwrap();
    store.update_phase_status(low.id, PhaseStatus::InProgress).unwrap();
    store.create_experiment(Some(low.id), "e").unwrap();
    let out = board_report(&store);
    assert!(out.contains("  [p] IN-PROGRESS #2 [impact:10] Low\n      Experiments: 1 pending, 0 pass, 0 fail\n      Pending: E#1\n"));
    assert!(!out.contains("High"));
}

#[test]
fn board_report_on_empty_store() {
    let store = Store::in_memory();
    assert_eq!(board_report(&store),
        "=== Cross-Project Dashboard ===\n\n\n## ACTION: Execute the highest-impact item above.\n");
}

#[test]
fn next_report_exact() {
    let mut store = Store::in_memory();
    let p = store.create_project("p", None, None).unwrap();
    store.create_phase(p.id, "Low", 10, &[]).unwrap();
    let hi = store.create_phase(p.id, "High", 90, &[]).unwrap();
    store.create_phase(p.id, "Mid", 50, &[]).unwrap();
    store.create_phase(p.id, "Least", 5, &[]).unwrap();
    store.update_phase_status(hi.id, PhaseStatus::InProgress).unwrap();
    let expected = [
        "=== Next Phases (by impact) ===\n\n",
        "  IN-PROGRESS #2 [impact:90] High\n",
        "  NEXT #3 [impact:50] Mid\n",
        "  NEXT #1 [impact:10] Low\n",
        "\n## ACTION: Execute the top phase.\n",
    ].concat();
    assert_eq!(pm::board::next_report(&store, p.id), expected);
}

#[test]
fn next_report_warns_of_stagnation() {
    let mut store = Store::in_memory();
    let p = store.create_project("p", None, None).unwrap();
    let ph = store.create_phase(p.id, "Ph", 10, &[]).unwrap();
    for k in 0..3 {
        let e = store.create_experiment(Some(ph.id), &format!("e{}", k)).unwrap();
        store.update_experiment_status(e.id, ExperimentStatus::Fail, None).unwrap();
    }
    let out = pm::board::next_report(&store, p.id);
    assert!(out.contains("\n  WARNING: STAGNATION \u{2014} 3 consecutive failed experiments\n"));
}
