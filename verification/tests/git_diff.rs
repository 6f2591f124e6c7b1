use autocommit::git::diff::{
    DiffSummarizer, extract_ticket_id, generate_prompt, summarize_diff, MAX_PATCH_BYTES, MAX_SOURCE_LINE_BYTES,
};
use autocommit::types::CommitType;
use sha2::{Digest, Sha256};

fn hex(bytes: &[u8]) -> String {
    bytes.iter().map(|b| format!("{b:02x}")).collect()
}

#[test]
fn summarize_diff_removes_metadata_and_balances_files() {
    let diff = "diff --git a/one.rs b/one.rs\nindex abc..def 100644\n--- a/one.rs\n+++ b/one.rs\n@@ -1 +1 @@\n-old\n+new\ndiff --git a/two.rs b/two.rs\n@@ -1 +1 @@\n-before\n+after\n";
    let files = ["one.rs".to_string(), "two.rs".to_string()];
    let context = summarize_diff(diff.as_bytes(), &files);

    assert!(!context.patch.contains("index "));
    assert!(!context.patch.contains("--- "));
    assert!(context.patch.contains("a/one.rs"));
    assert!(context.patch.contains("a/two.rs"));
    assert_eq!(context.stats.changed_files, 2);
}

#[test]
fn summarize_diff_omits_generated_file_patches() {
    let diff = "diff --git a/Cargo.lock b/Cargo.lock\n@@ -1 +1 @@\n-old\n+new\n";
    let context = summarize_diff(diff.as_bytes(), &["Cargo.lock".to_string()]);

    assert!(context.patch.contains("patch omitted"));
    assert!(!context.patch.contains("+new"));
    assert_eq!(context.stats.omitted_generated_files, 1);
}

#[test]
fn summarize_diff_reallocates_unused_budget_to_later_files() {
    let large_change = "+x\n".repeat(2_500);
    let diff = format!(
        "diff --git a/small.rs b/small.rs\n+small\ndiff --git a/large.rs b/large.rs\n{large_change}"
    );
    let files = ["small.rs".to_string(), "large.rs".to_string()];
    let context = summarize_diff(diff.as_bytes(), &files);

    assert!(context.patch.len() > MAX_PATCH_BYTES / 2);
    assert!(context.patch.len() <= MAX_PATCH_BYTES);
}

#[test]
fn summarize_diff_bounds_long_lines_and_hashes_discarded_tail() {
    let prefix = "+".repeat(MAX_SOURCE_LINE_BYTES + 500);
    let first = format!("diff --git a/a.rs b/a.rs\n{prefix}x\n");
    let second = format!("diff --git a/a.rs b/a.rs\n{prefix}y\n");
    let files = ["a.rs".to_string()];
    let first_context = summarize_diff(first.as_bytes(), &files);
    let second_context = summarize_diff(second.as_bytes(), &files);

    assert!(first_context.patch.len() <= MAX_PATCH_BYTES);
    assert!(first_context.stats.truncated);
    assert_ne!(first_context.fingerprint, second_context.fingerprint);
}

#[test]
fn generate_prompt_uses_type_as_hint_and_limits_file_list() {
    let files = (0..500)
        .map(|index| format!("src/very-long-file-name-{index}.rs"))
        .collect::<Vec<_>>();
    let prompt = generate_prompt(
        "test diff",
        Some(CommitType::Feat),
        &files,
        "feature/PROJ-123-add-auth",
        &[],
    );

    assert!(prompt.contains("Likely commit type: feat"));
    assert!(prompt.contains("[PROJ-123]"));
    assert!(prompt.contains("more)"));
    assert!(prompt.contains("Git diff:\ntest diff"));
}

#[test]
fn generate_prompt_lists_previous_candidates_last() {
    let prompt = generate_prompt(
        "diff",
        None,
        &[],
        "",
        &["feat(core): first option".to_string()],
    );

    assert!(prompt.ends_with("- feat(core): first option"));
}

#[test]
fn fingerprint_is_the_digest_of_every_input_byte() {
    let diff = "diff --git a/x.rs b/x.rs\n+line\n";
    let context = summarize_diff(diff.as_bytes(), &["x.rs".to_string()]);

    assert_eq!(context.fingerprint, hex(&Sha256::digest(diff.as_bytes())));
    assert_eq!(context.stats.raw_bytes, diff.len());
    assert_eq!(context.stats.included_bytes, context.patch.len());
    assert!(!context.stats.truncated);
}

#[test]
fn empty_input_asks_to_infer_from_the_file_list() {
    let context = summarize_diff(b"", &[]);

    assert_eq!(
        context.patch,
        "No textual patch was produced; infer the change from the staged file list."
    );
    assert_eq!(context.stats.changed_files, 0);
    assert_eq!(context.stats.raw_bytes, 0);
}

#[test]
fn small_patch_is_kept_whole_without_metadata() {
    let diff = "diff --git a/x.rs b/x.rs\nindex 1..2\n--- a/x.rs\n+++ b/x.rs\n@@ -1 +1 @@\r\n-a\n+b\n";
    let context = summarize_diff(diff.as_bytes(), &["x.rs".to_string()]);

    assert_eq!(context.patch, "diff --git a/x.rs b/x.rs\n@@ -1 +1 @@\n-a\n+b");
}

#[test]
fn generated_file_patch_is_replaced_by_a_note() {
    let diff = "diff --git a/web/dist/app.js b/web/dist/app.js\n+minified\n";
    let context = summarize_diff(diff.as_bytes(), &["web/dist/app.js".to_string()]);

    assert_eq!(
        context.patch,
        "diff --git a/web/dist/app.js b/web/dist/app.js\n[patch omitted: generated, vendored, or lock file]"
    );
}

#[test]
fn ticket_ids_are_uppercase_letters_a_dash_and_digits() {
    let chars = |s: &str| s.chars().collect::<Vec<char>>();
    assert_eq!(extract_ticket_id(&chars("feature/PROJ-123-add-auth")), Some(chars("PROJ-123")));
    assert_eq!(extract_ticket_id(&chars("fix/abc-12")), None);
    assert_eq!(extract_ticket_id(&chars("ABC-x DEF-9")), Some(chars("DEF-9")));
    assert_eq!(extract_ticket_id(&chars("main")), None);
}

#[test]
fn prompt_without_hints_has_an_exact_layout() {
    assert_eq!(
        generate_prompt("d", None, &[], "", &[]),
        "Determine the best conventional commit type from the patch.\nChanged files: none\n\nGit diff:\nd"
    );
}

#[test]
fn only_the_last_six_previous_candidates_are_listed() {
    let excluded = (1..=8).map(|n| format!("fix(a): option {n}")).collect::<Vec<_>>();
    let prompt = generate_prompt("d", None, &[], "", &excluded);

    assert!(!prompt.contains("option 2\n"));
    assert!(prompt.contains("\n- fix(a): option 3\n"));
    assert!(prompt.ends_with("\n- fix(a): option 8"));
}

#[test]
fn reading_in_chunks_gives_the_same_summary() {
    let large_change = "+x\n".repeat(1_500);
    let diff = format!(
        "diff --git a/one.rs b/one.rs\nindex 1..2\n--- a/one.rs\n+++ b/one.rs\n@@ -1 +1 @@\n-a\n+b\ndiff --git a/Cargo.lock b/Cargo.lock\n+lock\ndiff --git a/two.rs b/two.rs\n{large_change}{}y",
        "+".repeat(MAX_SOURCE_LINE_BYTES + 10)
    );
    let files = ["one.rs".to_string(), "Cargo.lock".to_string(), "two.rs".to_string()];
    let whole = summarize_diff(diff.as_bytes(), &files);
    for chunk_size in [1, 7, 4096] {
        let mut summarizer = DiffSummarizer::new(&files);
        for chunk in diff.as_bytes().chunks(chunk_size) {
            summarizer.feed(chunk);
        }
        let streamed = summarizer.finish();
        assert_eq!(streamed.patch, whole.patch);
        assert_eq!(streamed.fingerprint, whole.fingerprint);
        assert_eq!(streamed.stats.raw_bytes, whole.stats.raw_bytes);
        assert_eq!(streamed.stats.included_bytes, whole.stats.included_bytes);
        assert_eq!(streamed.stats.omitted_generated_files, 1);
        assert!(streamed.stats.truncated);
    }
    assert_eq!(whole.fingerprint.len(), 64);
}
