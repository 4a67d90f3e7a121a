use pm::analysis::contradictions::negation_parity;
use pm::files::{archive_name, sanitize_title};

#[test]
fn test_negation_parity_positive() {
    assert!(!negation_parity("The kernel is bandwidth-bound"));
}

#[test]
fn test_negation_parity_negative() {
    assert!(negation_parity("The kernel is NOT bandwidth-bound"));
}

#[test]
fn test_negation_parity_double_negative() {
    assert!(!negation_parity("It is not impossible to optimize"));
}

#[test]
fn negation_counts_whole_words_only() {
    assert!(!negation_parity("Nothing notable: another knot"));
    assert!(negation_parity("It doesn't fit"));
}

#[test]
fn test_sanitize_title() {
    let sanitized = sanitize_title("Hello World! (2024) — A Paper");
    assert_eq!(sanitized, "HelloWorld2024APaper");
}

#[test]
fn sanitize_title_keeps_at_most_fifty_characters() {
    let long = "x".repeat(80);
    assert_eq!(sanitize_title(&long).chars().count(), 50);
    assert_eq!(sanitize_title("a-b_c d"), "a-b_cd");
}

#[test]
fn archive_name_joins_id_and_title() {
    assert_eq!(archive_name(7, "My Paper"), "7_MyPaper.pdf");
}
