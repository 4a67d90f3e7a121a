use pm::mcp::init::tool_session_init;
use pm::store::{PhaseStatus, Store};

fn setup_project(store: &mut Store) -> (i64, i64, i64) {
    let proj = store.create_project("test-project", Some("tp"), None).unwrap();
    let phase = store.create_phase(proj.id, "Phase 1", 40, &[]).unwrap();
    let exp = store.create_experiment(Some(phase.id), "Exp 1").unwrap();
    (proj.id, phase.id, exp.id)
}

#[test]
fn test_split_session_init_works() {
    let mut store = Store::in_memory();
    let _ = setup_project(&mut store);
    let result = tool_session_init(&store);
    assert!(result.contains("Session Init") || result.contains("pending"));
}

#[test]
fn test_session_init_shows_subproject_hierarchy() {
    let mut store = Store::in_memory();
    let parent = store.create_project("home-cloud", None, None).unwrap();
    let child = store.create_project("execution-engine", None, Some(parent.id)).unwrap();
    let phase = store.create_phase(child.id, "Refactor EE", 40, &[]).unwrap();
    store.create_experiment(Some(phase.id), "Test refactor").unwrap();
    let result = tool_session_init(&store);
    assert!(result.contains("home-cloud/execution-engine") || result.contains("execution-engine"),
        "Session init should reference subproject: {}", result);
}

#[test]
fn session_init_on_empty_store_has_nothing_to_do() {
    let store = Store::in_memory();
    assert_eq!(tool_session_init(&store), "No pending tasks in actionable phases.");
}

#[test]
fn session_init_exact_for_subproject() {
    let mut store = Store::in_memory();
    let parent = store.create_project("home-cloud", None, None).unwrap();
    let child = store.create_project("execution-engine", None, Some(parent.id)).unwrap();
    let phase = store.create_phase(child.id, "Refactor EE", 40, &[]).unwrap();
    store.create_experiment(Some(phase.id), "Test refactor").unwrap();
    let expected = [
        "=== Session Init: Actionable Tasks ===\n\n",
        "## [home-cloud/execution-engine] Phase #1 [impact:40] Refactor EE\n",
        "  Status: NEXT | Experiments: 1 pending, 0 pass, 0 fail\n\n",
        "  TASK 1: Exp #1 \u{2014} Test refactor\n",
        "    Status: pending | Phase: #1 (Refactor EE)\n",
        "    -> TaskCreate: subject=\"execution-engine Exp #1: Test refactor\" ",
        "description=\"Phase #1 (Refactor EE). Execute experiment and record findings.\"\n\n",
        "Create these as task tracker items and work through them.",
        "\n=== Knowledge Briefing ===\n\n## Active Phase: #1 Refactor EE\n\n",
    ].concat();
    assert_eq!(tool_session_init(&store), expected);
}

#[test]
fn session_init_exact_with_orphaned_finding() {
    let mut store = Store::in_memory();
    let proj = store.create_project("solo", None, None).unwrap();
    let phase = store.create_phase(proj.id, "P", 10, &[]).unwrap();
    let exp = store.create_experiment(Some(phase.id), "E").unwrap();
    store.create_finding(Some(exp.id), "short text").unwrap();
    let expected = [
        "=== Session Init: Actionable Tasks ===\n\n",
        "## [solo] Phase #1 [impact:10] P\n",
        "  Status: NEXT | Experiments: 1 pending, 0 pass, 0 fail\n\n",
        "  TASK 1: Exp #1 \u{2014} E\n",
        "    Status: pending | Phase: #1 (P)\n",
        "    -> TaskCreate: subject=\"solo Exp #1: E\" ",
        "description=\"Phase #1 (P). Execute experiment and record findings.\"\n\n",
        "--- Orphaned Findings (no KG edges) ---\n\n  F#1: short text\n",
        "\n  -> Link these to experiments/hypotheses with pm_add_edge.\n\n",
        "Create these as task tracker items and work through them.",
        "\n=== Knowledge Briefing ===\n\n## Active Phase: #1 P\n\n",
        "### Recent Findings (Phase #1):\n  F#1: short text\n\n",
    ].concat();
    assert_eq!(tool_session_init(&store), expected);
}

#[test]
fn session_init_numbers_tasks_across_phases_and_caps_at_five() {
    let mut store = Store::in_memory();
    let proj = store.create_project("big", None, None).unwrap();
    let p1 = store.create_phase(proj.id, "First", 90, &[]).unwrap();
    let p2 = store.create_phase(proj.id, "Second", 50, &[]).unwrap();
    for k in 0..6 {
        store.create_experiment(Some(p1.id), &format!("a{}", k)).unwrap();
    }
    store.create_experiment(Some(p2.id), "b0").unwrap();
    store.update_phase_status(p1.id, PhaseStatus::InProgress).unwrap();
    let result = tool_session_init(&store);
    assert!(result.contains("Status: IN-PROGRESS | Experiments: 6 pending, 0 pass, 0 fail"));
    assert!(result.contains("TASK 5: Exp #5 \u{2014} a4"));
    assert!(!result.contains("a5"));
    assert!(result.contains("TASK 6: Exp #7 \u{2014} b0"));
    assert!(!result.contains("TASK 7"));
    assert!(result.find("Phase #1 [impact:90]").unwrap() < result.find("Phase #2 [impact:50]").unwrap());
}

#[test]
fn session_init_ignores_completed_phases() {
    let mut store = Store::in_memory();
    let proj = store.create_project("done", None, None).unwrap();
    let phase = store.create_phase(proj.id, "Over", 10, &[]).unwrap();
    store.create_experiment(Some(phase.id), "E").unwrap();
    store.update_phase_status(phase.id, PhaseStatus::Complete).unwrap();
    assert_eq!(tool_session_init(&store), "No pending tasks in actionable phases.");
}
