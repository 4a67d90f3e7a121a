use pm::analysis::contradictions::{
    antonym_signal, format_layer1_results, negation_parity, generate_nli_prompt, marker_signal, negation_signal, numeric_signal,
    score_pair, ContradictionCandidate, Layer1Result,
};
use pm::mcp::finding::tool_log_finding;
use pm::store::Store;

#[test]
fn test_negation_signal_opposite() {
    let (fired, score) = negation_signal(
        "The FP pipeline is saturated during decode",
        "The FP pipeline is NOT saturated during decode"
    );
    assert!(fired);
    assert!(score > 0);
}

#[test]
fn test_antonym_signal_detected() {
    let (fired, _) = antonym_signal(
        "Performance increased with the optimization",
        "Performance decreased after the change"
    );
    assert!(fired);
}

#[test]
fn test_antonym_signal_no_match() {
    let (fired, _) = antonym_signal(
        "The kernel uses shared memory",
        "The algorithm processes data in parallel"
    );
    assert!(!fired);
}

#[test]
fn test_numeric_divergence() {
    let (fired, _) = numeric_signal(
        "Achieved 97.2 tok/s on the NVLink pair",
        "Measured only 45.6 tok/s on the same configuration"
    );
    assert!(fired);
}

#[test]
fn test_numeric_compatible() {
    let (fired, _) = numeric_signal(
        "Achieved 97.2 tok/s",
        "Measured 95.4 tok/s"
    );
    assert!(!fired);
}

#[test]
fn test_marker_signal() {
    let (fired, _) = marker_signal(
        "The original analysis was correct",
        "Actually, the previous finding was wrong about the bottleneck"
    );
    assert!(fired);
}

#[test]
fn test_score_pair_multiple_signals() {
    let (score, signals) = score_pair(
        "The kernel is NOT bandwidth-bound, achieving only 45 tok/s",
        "The kernel is bandwidth-bound, achieving 97 tok/s"
    );
    assert!(score >= 9, "Multiple signals should produce high score, got {}", score);
    assert!(signals.len() >= 2, "Should fire multiple signals, got {:?}", signals);
}

#[test]
fn test_score_pair_no_contradiction() {
    let (score, signals) = score_pair(
        "TurboQuant achieves 3.5 bits per element",
        "The V100 has 900 GB/s HBM2 bandwidth"
    );
    assert!(score < 3, "Unrelated texts should have low score, got {}", score);
    assert!(signals.is_empty());
}

#[test]
fn test_generate_nli_prompt_structure() {
    let prompt = generate_nli_prompt(
        "New finding text",
        &[ContradictionCandidate {
            node_type: "Finding".into(),
            node_id: 31,
            text_excerpt: "Old finding text".into(),
            signal_score: 7,
            signals: vec!["negation_parity".into()],
        }]
    );
    assert!(prompt.contains("DIRECT_NEGATION"));
    assert!(prompt.contains("New finding text"));
    assert!(prompt.contains("Old finding text"));
    assert!(prompt.contains("Think step by step"));
}

#[test]
fn score_pair_exact_weights_and_names() {
    let (score, signals) = score_pair(
        "The kernel is NOT bandwidth-bound, achieving only 45 tok/s",
        "The kernel is bandwidth-bound, achieving 97 tok/s"
    );
    assert_eq!(score, 9);
    assert_eq!(signals, vec!["negation_parity".to_string(), "numeric_divergence".to_string()]);
}

#[test]
fn numeric_signal_needs_a_shared_context_word() {
    let (fired, _) = numeric_signal("TurboQuant achieves 3.5 bits per element", "The V100 has 900 GB/s HBM2 bandwidth");
    assert!(!fired);
    let (fired, weight) = numeric_signal("latency 120 ms", "latency 50 ms");
    assert!(fired);
    assert_eq!(weight, 5);
    let (fired, _) = numeric_signal("latency 1.0 ms", "latency 50 ms");
    assert!(!fired, "numbers not above one are ignored");
    let (fired, _) = numeric_signal("latency 100 ms", "latency 67 ms");
    assert!(!fired, "a ratio of exactly 100/67 stays within bounds");
}

#[test]
fn layer1_report_exact() {
    let c = ContradictionCandidate {
        node_type: "Finding".into(),
        node_id: 4,
        text_excerpt: "x".repeat(130),
        signal_score: 13,
        signals: vec!["antonym_pair".into(), "numeric_divergence".into(), "negation_parity".into()],
    };
    let out = format_layer1_results("new", &Layer1Result { candidates: vec![c], subagent_prompt: Some("p".into()) });
    let expected = [
        "\n=== Contradiction Detection (Layer 1) ===\n1 candidate(s) flagged for review:\n\n",
        "  Finding #4 [score:1.3] signals: antonym_pair, numeric_divergence, negation_parity\n    \"",
        &"x".repeat(120),
        "...\"\n\n",
        "Layer 2 NLI analysis suggested. Prompt available for the subagent.\n",
    ].concat();
    assert_eq!(out, expected);
    let empty = format_layer1_results("new", &Layer1Result { candidates: vec![], subagent_prompt: None });
    assert_eq!(empty, "");
}

#[test]
fn negation_tokens_are_counted_per_occurrence() {
    assert!(!negation_parity("It is not not fast"));
    assert!(negation_parity("No, it is not not fast"));
    assert!(negation_parity("The kernel is NOT bandwidth-bound"));
}

#[test]
fn log_finding_flags_contradicting_findings_of_the_project() {
    let mut store = Store::in_memory();
    let p = store.create_project("p", None, None).unwrap();
    let ph = store.create_phase(p.id, "Ph", 10, &[]).unwrap();
    let e = store.create_experiment(Some(ph.id), "E").unwrap();
    let old = "The kernel is bandwidth-bound, achieving 97 tok/s on the pair. ".repeat(2);
    store.create_finding(Some(e.id), &old).unwrap();
    store.create_finding(Some(e.id), &"Unrelated observation about logging. ".repeat(3)).unwrap();
    let new = "The kernel is NOT bandwidth-bound, achieving only 45 tok/s on the pair. It was measured again on the same devices.";
    let out = tool_log_finding(&mut store, e.id, &new);
    assert!(out.contains("\n=== Contradiction Detection (Layer 1) ===\n2 candidate(s) flagged for review:\n\n  Finding #1 [score:0.9] signals: negation_parity, numeric_divergence\n"),
        "{}", out);
    assert!(out.contains("  Finding #2 [score:0.4] signals: negation_parity\n"), "{}", out);
    assert!(out.ends_with("Layer 2 NLI analysis suggested. Prompt available for the subagent.\n"));
}
