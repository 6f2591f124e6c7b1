use autocommit::classifier::classify_files;
use autocommit::types::CommitType;

#[test]
fn classifies_test_files_without_substring_false_positives() {
    assert_eq!(
        classify_files(&["tests/foo.rs".to_string(), "src/bar_test.rs".to_string()]),
        Some(CommitType::Test)
    );
    assert_eq!(classify_files(&["src/latest.rs".to_string()]), None);
}

#[test]
fn classifies_documentation_files() {
    assert_eq!(
        classify_files(&["README.md".to_string(), "docs/guide.txt".to_string()]),
        Some(CommitType::Docs)
    );
}

#[test]
fn classifies_configuration_files() {
    assert_eq!(
        classify_files(&["Cargo.toml".to_string(), "Cargo.lock".to_string()]),
        Some(CommitType::Chore)
    );
}

#[test]
fn leaves_mixed_or_source_changes_for_the_model() {
    assert_eq!(
        classify_files(&["README.md".to_string(), "src/main.rs".to_string()]),
        None
    );
}

#[test]
fn no_files_leave_the_type_open() {
    assert_eq!(classify_files(&[]), None);
}

#[test]
fn test_directories_and_suffixes_are_recognised() {
    assert_eq!(classify_files(&["src/__tests__/app.js".to_string()]), Some(CommitType::Test));
    assert_eq!(classify_files(&["spec/parser_spec.rb".to_string()]), Some(CommitType::Test));
    assert_eq!(classify_files(&["web/app.test.ts".to_string()]), Some(CommitType::Test));
}

#[test]
fn configuration_and_docs_mixed_is_left_open() {
    assert_eq!(
        classify_files(&["Cargo.toml".to_string(), "README.md".to_string()]),
        None
    );
}

#[test]
fn configuration_names_are_matched_without_case() {
    assert_eq!(
        classify_files(&["web/Package.JSON".to_string(), ".env.local".to_string()]),
        Some(CommitType::Chore)
    );
    assert_eq!(classify_files(&["vite.config.ts".to_string()]), Some(CommitType::Chore));
}

#[test]
fn documentation_extensions_are_matched_without_case() {
    assert_eq!(classify_files(&["GUIDE.MDX".to_string()]), Some(CommitType::Docs));
    assert_eq!(classify_files(&["notes.txt".to_string()]), None);
}
