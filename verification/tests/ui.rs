use autocommit::cli::ui::{
    accent_for, action_for_selection, Accent, app_header_text, bullet_text, effective_width, navigation_hint,
    preview_layout, sanitize_terminal_text, summary_parts, wrap_preview, MAX_PREVIEW_WIDTH,
};
use autocommit::types::ActionType;
use dialoguer::console::measure_text_width;

#[test]
fn preview_wraps_long_lines_to_the_available_width() {
    let lines = wrap_preview(
        "perf(cli): improve an unusually long terminal interface preview\n\n- preserve readable wrapping for every generated message",
        28,
    );

    assert!(lines.iter().all(|line| measure_text_width(line) <= 28));
    assert!(lines.iter().any(|line| line.starts_with("- ")));
    assert!(lines.iter().any(|line| line.starts_with("  for")));
}

#[test]
fn preview_removes_terminal_and_bidirectional_controls() {
    let sanitized = sanitize_terminal_text("\x1b[31mfix(cli): safe preview\x1b[0m\x07\u{202e}");

    assert_eq!(sanitized, "fix(cli): safe preview");
}

#[test]
fn sanitizing_keeps_line_feeds_and_expands_tabs() {
    assert_eq!(sanitize_terminal_text("a\tb\nc\r"), "a    b\nc");
}

#[test]
fn wrapping_breaks_between_words_and_indents_bullets() {
    assert_eq!(wrap_preview("a b c", 3), vec!["a b".to_string(), "c".to_string()]);
    assert_eq!(
        wrap_preview("- item one two", 8),
        vec!["- item".to_string(), "  one".to_string(), "  two".to_string()]
    );
    assert_eq!(wrap_preview("", 10), vec![String::new()]);
    assert_eq!(wrap_preview("x\n\ny", 10), vec!["x".to_string(), String::new(), "y".to_string()]);
}

#[test]
fn words_longer_than_the_width_are_split_by_character() {
    assert_eq!(
        wrap_preview("abcdefg", 3),
        vec!["abc".to_string(), "def".to_string(), "g".to_string()]
    );
}

#[test]
fn summaries_split_into_type_scope_and_description() {
    let parts = summary_parts("feat(auth): implement login").unwrap();
    assert_eq!(parts.commit_type, "feat");
    assert_eq!(parts.scope.as_deref(), Some("auth"));
    assert_eq!(parts.description, "implement login");

    let parts = summary_parts("chore: tidy").unwrap();
    assert_eq!(parts.commit_type, "chore");
    assert_eq!(parts.scope, None);
    assert_eq!(parts.description, "tidy");

    assert!(summary_parts("just some text").is_none());
}

#[test]
fn bullets_are_recognised_by_their_marker() {
    assert_eq!(bullet_text("- add cache layer").as_deref(), Some("add cache layer"));
    assert_eq!(bullet_text("add cache layer"), None);
}

#[test]
fn menu_choices_map_to_actions() {
    assert_eq!(action_for_selection(Some(0)), ActionType::Accept);
    assert_eq!(action_for_selection(Some(1)), ActionType::Edit);
    assert_eq!(action_for_selection(Some(2)), ActionType::Regenerate);
    assert_eq!(action_for_selection(Some(3)), ActionType::Quit);
    assert_eq!(action_for_selection(None), ActionType::Quit);
}

#[test]
fn narrow_terminals_get_the_short_hint() {
    assert_eq!(navigation_hint(20), "↑↓ move  ·  enter select");
    assert_eq!(navigation_hint(80), "↑↓ navigate  ·  enter select  ·  esc cancel");
}

#[test]
fn unknown_terminal_width_counts_as_the_preview_maximum() {
    assert_eq!(effective_width(0), MAX_PREVIEW_WIDTH);
    assert_eq!(effective_width(120), 120);
}

#[test]
fn header_text_is_one_safe_line() {
    assert_eq!(app_header_text("2 files\n\x07gemini"), "2 files gemini");
}

#[test]
fn narrow_preview_is_not_boxed() {
    let layout = preview_layout("fix(a): b", 20, 5);
    assert!(!layout.boxed);
    assert_eq!(layout.lines, vec!["fix(a): b".to_string()]);
}

#[test]
fn wide_preview_box_fits_its_lines() {
    let layout = preview_layout("fix(cli): keep the box tidy", 100, 10);
    assert!(layout.boxed);
    assert_eq!(layout.box_width, 48);
    assert_eq!(layout.content_width, 44);
    assert_eq!(layout.top_rule_width, 33);
    assert_eq!(layout.lines, vec!["fix(cli): keep the box tidy".to_string()]);
    assert_eq!(layout.paddings, vec![44 - 27]);
}

#[test]
fn commit_types_have_their_accent() {
    assert_eq!(accent_for("feat"), Accent::BrightGreen);
    assert_eq!(accent_for("revert"), Accent::BrightRed);
    assert_eq!(accent_for("chore"), Accent::BrightBlack);
    assert_eq!(accent_for("Feat"), Accent::Normal);
    assert_eq!(accent_for("wip"), Accent::Normal);
}
