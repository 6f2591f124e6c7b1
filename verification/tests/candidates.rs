use autocommit::ai::candidates::{is_valid_commit_message, normalize, CandidateError};
use autocommit::types::MessageStyle;

#[test]
fn normalizes_valid_unique_candidates() {
    let candidates = vec![
        "feat(core): add cache".to_string(),
        "feat(core): add cache".to_string(),
        "perf(core): reuse cached messages".to_string(),
    ];
    let normalized = normalize(candidates, MessageStyle::Short, &[]).unwrap();

    assert_eq!(normalized.len(), 2);
}

#[test]
fn rejects_invalid_or_previously_used_candidates() {
    let candidates = vec![
        "not conventional".to_string(),
        "fix(core): previous".to_string(),
    ];
    let error = normalize(
        candidates,
        MessageStyle::Short,
        &["fix(core): previous".to_string()],
    )
    .unwrap_err();

    assert!(error.message().contains("did not return"));
}

#[test]
fn validates_long_message_bullet_format_without_network_access() {
    assert!(is_valid_commit_message(
        "perf(ai): reduce generation cost\n\n- batch alternatives\n- bound diff context",
        MessageStyle::Long
    ));
    assert!(!is_valid_commit_message(
        "perf(ai): reduce generation cost\nmissing blank line",
        MessageStyle::Long
    ));
    assert!(!is_valid_commit_message(
        "fix(cli): hide text\u{202e}",
        MessageStyle::Short
    ));
}

#[test]
fn normalized_candidates_are_trimmed_unix_ordered_and_distinct() {
    let candidates = vec![
        "  fix(ui): align box  ".to_string(),
        "fix(ui): align box".to_string(),
        "".to_string(),
        "docs(readme): explain setup".to_string(),
    ];
    let normalized = normalize(candidates, MessageStyle::Short, &[]).unwrap();

    assert_eq!(
        normalized,
        vec!["fix(ui): align box".to_string(), "docs(readme): explain setup".to_string()]
    );
}

#[test]
fn long_candidates_have_crlf_replaced() {
    let candidates = vec!["feat(api): add route\r\n\r\n- handle errors".to_string()];
    let normalized = normalize(candidates, MessageStyle::Long, &[]).unwrap();

    assert_eq!(normalized, vec!["feat(api): add route\n\n- handle errors".to_string()]);
}

#[test]
fn every_candidate_excluded_is_an_error() {
    let result = normalize(
        vec!["feat(core): one".to_string()],
        MessageStyle::Short,
        &["feat(core): one".to_string()],
    );

    assert_eq!(result, Err(CandidateError::NoNewValidCandidate));
}

#[test]
fn short_messages_have_one_scoped_conventional_line() {
    assert!(is_valid_commit_message("feat(auth): add login", MessageStyle::Short));
    assert!(!is_valid_commit_message("feat: add login", MessageStyle::Short));
    assert!(!is_valid_commit_message("fix(parser)!: reject empty input", MessageStyle::Short));
    assert!(!is_valid_commit_message("feat(auth): add login\n\n- detail", MessageStyle::Short));
    assert!(!is_valid_commit_message("feature(auth): add login", MessageStyle::Short));
    assert!(!is_valid_commit_message("feat(): add login", MessageStyle::Short));
    assert!(!is_valid_commit_message("feat(auth): add login.", MessageStyle::Short));
    assert!(!is_valid_commit_message("feat(auth): ```code```", MessageStyle::Short));
    assert!(!is_valid_commit_message("", MessageStyle::Short));
}

#[test]
fn summaries_longer_than_seventy_two_characters_are_rejected() {
    let long = format!("feat(core): {}", "a".repeat(61));
    assert_eq!(long.chars().count(), 73);
    assert!(!is_valid_commit_message(&long, MessageStyle::Short));
    let fits = format!("feat(core): {}", "a".repeat(60));
    assert!(is_valid_commit_message(&fits, MessageStyle::Short));
}

#[test]
fn long_messages_need_a_bulleted_body() {
    assert!(!is_valid_commit_message("chore(deps): bump crates", MessageStyle::Long));
    assert!(!is_valid_commit_message("chore(deps): bump crates\n\nplain text", MessageStyle::Long));
    assert!(!is_valid_commit_message("chore(deps): bump crates\n\n- ", MessageStyle::Long));
    assert!(is_valid_commit_message("chore(deps): bump crates\n\n- update serde", MessageStyle::Long));
}

#[test]
fn control_characters_are_rejected() {
    assert!(!is_valid_commit_message("fix(cli): beep\u{7}", MessageStyle::Short));
}
