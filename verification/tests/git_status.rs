use autocommit::git::{commit_arguments, parse_repository_state};

#[test]
fn parses_branch_and_only_staged_files() {
    let status = b"# branch.head feature/APP-42-cache\0\
1 M. N... 100644 100644 100644 abc def src/main.rs\0\
1 .M N... 100644 100644 100644 abc def README.md\0";
    let state = parse_repository_state(status);

    assert_eq!(state.branch_name, "feature/APP-42-cache");
    assert_eq!(state.staged_files, ["src/main.rs"]);
}

#[test]
fn parses_renames_without_treating_source_as_a_record() {
    let status = b"# branch.head main\0\
2 R. N... 100644 100644 100644 abc def R100 src/new name.rs\0\
src/old name.rs\0\
1 A. N... 000000 100644 100644 000 def src/next.rs\0";
    let state = parse_repository_state(status);

    assert_eq!(state.staged_files, ["src/new name.rs", "src/next.rs"]);
}

#[test]
fn hides_detached_head_marker() {
    let state = parse_repository_state(b"# branch.head (detached)\0");

    assert!(state.branch_name.is_empty());
}

#[test]
fn empty_status_has_no_branch_and_no_files() {
    let state = parse_repository_state(b"");

    assert!(state.branch_name.is_empty());
    assert!(state.staged_files.is_empty());
}

#[test]
fn unmerged_records_count_and_untracked_do_not() {
    let status = b"# branch.oid abc\0\
u UU N... 100644 100644 100644 100644 a b c conflict.rs\0\
? new.txt\0\
1 D. N... 100644 000000 000000 abc 000 gone.rs\0";
    let state = parse_repository_state(status);

    assert_eq!(state.staged_files, ["conflict.rs", "gone.rs"]);
}

#[test]
fn records_with_too_few_fields_are_ignored() {
    let state = parse_repository_state(b"1 M. N... short\0");

    assert!(state.staged_files.is_empty());
}

#[test]
fn commit_arguments_follow_the_flags() {
    assert_eq!(commit_arguments("fix(a): b", false, false), ["commit", "-m", "fix(a): b"]);
    assert_eq!(
        commit_arguments("fix(a): b", true, true),
        ["commit", "-S", "--no-verify", "-m", "fix(a): b"]
    );
    assert_eq!(commit_arguments("m", false, true), ["commit", "--no-verify", "-m", "m"]);
}
