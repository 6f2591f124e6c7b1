use autocommit::ai::providers::{gemini_message, openai_message};

#[test]
fn gemini_parts_are_joined_and_trimmed() {
    let parts = vec!["  {\"candidates\":".to_string(), "[]} \n".to_string()];
    assert_eq!(
        gemini_message(Some(&parts), Some("STOP")),
        Ok("{\"candidates\":[]}".to_string())
    );
}

#[test]
fn empty_gemini_answers_report_the_finish_reason() {
    assert_eq!(
        gemini_message(None, Some("MAX_TOKENS")),
        Err("Gemini returned an empty commit message (finish reason: MAX_TOKENS)".to_string())
    );
    let blank = vec!["  ".to_string()];
    assert_eq!(
        gemini_message(Some(&blank), None),
        Err("Gemini returned an empty commit message (finish reason: unknown)".to_string())
    );
}

#[test]
fn openai_refusals_and_blank_content_are_errors() {
    assert_eq!(
        openai_message(Some("x"), Some("no")),
        Err("OpenAI refused to generate a commit message: no".to_string())
    );
    assert_eq!(
        openai_message(Some(" \n"), None),
        Err("OpenAI returned an empty commit message".to_string())
    );
    assert_eq!(
        openai_message(None, None),
        Err("OpenAI returned an empty commit message".to_string())
    );
    assert_eq!(openai_message(Some(" {} "), None), Ok("{}".to_string()));
}
