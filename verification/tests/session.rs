use autocommit::session::{CandidateBrowser, Decision};
use autocommit::types::ActionType;

fn browser() -> CandidateBrowser {
    CandidateBrowser::new(vec!["feat(a): one".to_string(), "feat(a): two".to_string()])
}

#[test]
fn accepting_commits_the_current_candidate() {
    let mut b = browser();
    match b.on_action(ActionType::Accept) {
        Decision::Commit(m) => assert_eq!(m, "feat(a): one"),
        other => panic!("unexpected {other:?}"),
    }
}

#[test]
fn another_shows_the_next_and_asks_for_more_only_at_the_end() {
    let mut b = browser();
    assert!(matches!(b.on_action(ActionType::Regenerate), Decision::ShowNext));
    assert_eq!(b.current(), "feat(a): two");
    assert!(matches!(b.on_action(ActionType::Regenerate), Decision::NeedMore));
    assert_eq!(b.current(), "feat(a): two");
    b.add_candidates(vec!["feat(a): three".to_string()]);
    assert_eq!(b.current(), "feat(a): three");
    assert_eq!(b.candidates().len(), 3);
}

#[test]
fn editing_hands_out_the_current_candidate() {
    let mut b = browser();
    b.on_action(ActionType::Regenerate);
    match b.on_action(ActionType::Edit) {
        Decision::Edit(m) => assert_eq!(m, "feat(a): two"),
        other => panic!("unexpected {other:?}"),
    }
}

#[test]
fn quitting_aborts() {
    let mut b = browser();
    assert!(matches!(b.on_action(ActionType::Quit), Decision::Abort));
    assert_eq!(b.current(), "feat(a): one");
}
