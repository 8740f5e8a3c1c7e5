use rstify::acl::{match_parts, normalize_pattern, topic_matches};

#[test]
fn test_exact_match() {
    assert!(topic_matches("alerts.cpu", "alerts.cpu"));
    assert!(!topic_matches("alerts.cpu", "alerts.mem"));
}

#[test]
fn test_single_wildcard() {
    assert!(topic_matches("alerts.*", "alerts.cpu"));
    assert!(topic_matches("alerts.*", "alerts.mem"));
    assert!(!topic_matches("alerts.*", "alerts.cpu.high"));
    assert!(!topic_matches("alerts.*", "logs.cpu"));
}

#[test]
fn test_double_wildcard() {
    assert!(topic_matches("alerts.**", "alerts.cpu"));
    assert!(topic_matches("alerts.**", "alerts.cpu.high"));
    assert!(topic_matches("alerts.**", "alerts.cpu.high.critical"));
    assert!(!topic_matches("alerts.**", "logs.cpu"));
}

#[test]
fn test_complex_patterns() {
    assert!(topic_matches("*.cpu.**", "alerts.cpu.high"));
    assert!(topic_matches("*.cpu.**", "logs.cpu.usage.percent"));
    assert!(!topic_matches("*.cpu.**", "alerts.mem.high"));
}

#[test]
fn test_full_wildcard() {
    assert!(topic_matches("**", "anything.at.all"));
    assert!(topic_matches("**", "single"));
}

#[test]
fn test_match_parts_directly() {
    let pattern = vec!["alerts".to_string(), "*".to_string()];
    let topic = vec!["alerts".to_string(), "cpu".to_string()];
    assert!(match_parts(&pattern, &topic));
    let longer = vec!["alerts".to_string(), "cpu".to_string(), "high".to_string()];
    assert!(!match_parts(&pattern, &longer));
}

#[test]
fn test_normalize_pattern_strips_whitespace() {
    assert_eq!(normalize_pattern("alerts . cpu"), "alerts.cpu");
    assert_eq!(normalize_pattern(" alerts.** "), "alerts.**");
    assert_eq!(normalize_pattern("alerts.cpu"), "alerts.cpu");
    // normalizing twice changes nothing
    let once = normalize_pattern("  a . b .c ");
    assert_eq!(normalize_pattern(&once), once);
}

#[test]
fn test_normalized_patterns_match_alike() {
    let raw = "alerts . **";
    let tidy = "alerts.**";
    assert_eq!(
        topic_matches(&normalize_pattern(raw), "alerts.cpu.high"),
        topic_matches(&normalize_pattern(tidy), "alerts.cpu.high"),
    );
}

#[test]
fn test_empty_segments_are_literal() {
    assert!(topic_matches("a..b", "a..b"));
    assert!(!topic_matches("a..b", "a.b"));
}
