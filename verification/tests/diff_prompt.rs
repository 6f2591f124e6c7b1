use autocommit::diff::{clean_diff, generate_prompt};
use autocommit::types::CommitType;

#[test]
fn test_clean_diff_removes_metadata_lines() {
    let diff = "diff --git a/file.ts b/file.ts\nindex abc..def 100644\n--- a/file.ts\n+++ b/file.ts\n@@ -1,3 +1,4 @@\n hello\n+world";
    let cleaned = clean_diff(diff);
    assert!(!cleaned.contains("diff --git"));
    assert!(!cleaned.contains("index "));
    assert!(!cleaned.contains("--- "));
    assert!(!cleaned.contains("+++ "));
    assert!(cleaned.contains("+world"));
}

#[test]
fn test_generate_prompt_with_type() {
    let prompt = generate_prompt("test diff", Some(CommitType::Feat), &[], "");
    assert!(prompt.contains("Use type: feat."));
    assert!(prompt.contains("Git diff:\ntest diff"));
}

#[test]
fn test_generate_prompt_with_files() {
    let prompt = generate_prompt("diff", None, &["src/main.rs".to_string()], "");
    assert!(prompt.contains("Changed files: src/main.rs"));
}

#[test]
fn test_generate_prompt_with_ticket() {
    let prompt = generate_prompt("diff", None, &[], "feature/PROJ-123-add-auth");
    assert!(prompt.contains("[PROJ-123]"));
}

#[test]
fn clean_diff_keeps_content_lines_in_order() {
    let diff = "diff --git a/x b/x\n@@ -1 +1 @@\n-old\n+new";
    assert_eq!(clean_diff(diff), "@@ -1 +1 @@\n-old\n+new");
}

#[test]
fn prompt_without_type_files_or_ticket_ends_with_the_diff() {
    let prompt = generate_prompt("d", None, &[], "main");
    assert!(prompt.ends_with("\n\nGit diff:\nd"));
    assert!(!prompt.contains("Use type"));
}

#[test]
fn prompt_has_an_exact_layout() {
    assert_eq!(
        generate_prompt("d", Some(CommitType::Fix), &["a".to_string(), "b".to_string()], ""),
        "Use type: fix.\n\nChanged files: a, b\n\nGit diff:\nd"
    );
    assert_eq!(
        generate_prompt("d", None, &[], "bugfix/AB-7"),
        "Determine the best conventional commit type.\n\nIMPORTANT: The branch name contains ticket ID AB-7. You MUST append [AB-7] to the end of the commit summary line.\n\nGit diff:\nd"
    );
}
