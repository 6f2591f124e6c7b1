use autocommit::cli::{command, format_optional_count, header_context, Args, CliCommand, CliError};
use autocommit::types::{MessageStyle, ModelType};

fn args() -> Args {
    Args {
        openai_key: None,
        gemini_key: None,
        model: None,
        short: false,
        long: false,
        sign: false,
        no_sign: false,
        bypass_hooks: false,
        stats: false,
        no_cache: false,
    }
}

#[test]
fn no_setting_option_means_commit() {
    assert!(matches!(command(&args()), Ok(CliCommand::Commit)));
    let mut a = args();
    a.bypass_hooks = true;
    a.stats = true;
    assert!(matches!(command(&a), Ok(CliCommand::Commit)));
}

#[test]
fn keys_come_first() {
    let mut a = args();
    a.gemini_key = Some("g".to_string());
    a.openai_key = Some("o".to_string());
    a.short = true;
    match command(&a) {
        Ok(CliCommand::SaveApiKey { model, key }) => {
            assert_eq!(model, ModelType::Openai);
            assert_eq!(key, "o");
        }
        other => panic!("unexpected {other:?}"),
    }
}

#[test]
fn model_option_names_a_provider() {
    let mut a = args();
    a.model = Some("gemini".to_string());
    a.long = true;
    assert!(matches!(command(&a), Ok(CliCommand::SetModel(ModelType::Gemini))));
    a.model = Some("llama".to_string());
    match command(&a) {
        Err(e) => {
            assert!(matches!(&e, CliError::UnknownModel(m) if m == "llama"));
            assert_eq!(
                e.message(),
                "Please specify --model with \"openai\" or \"gemini\" (got: llama)"
            );
        }
        other => panic!("unexpected {other:?}"),
    }
}

#[test]
fn style_and_signing_options_in_order() {
    let mut a = args();
    a.long = true;
    a.sign = true;
    assert!(matches!(command(&a), Ok(CliCommand::SetMessageStyle(MessageStyle::Long))));
    a.long = false;
    a.no_sign = true;
    assert!(matches!(command(&a), Ok(CliCommand::SetSignedCommit(true))));
    a.sign = false;
    assert!(matches!(command(&a), Ok(CliCommand::SetSignedCommit(false))));
}

#[test]
fn confirmations_name_the_setting() {
    assert_eq!(CliCommand::SetModel(ModelType::Openai).confirmation(), "Default model set to openai!");
    assert_eq!(
        CliCommand::SetMessageStyle(MessageStyle::Short).confirmation(),
        "Message style set to short!"
    );
    assert_eq!(CliCommand::SetSignedCommit(false).confirmation(), "Signed commits disabled!");
    assert_eq!(
        CliCommand::SaveApiKey { model: ModelType::Gemini, key: "k".to_string() }.confirmation(),
        "Gemini API key saved to ~/.autocommitrc!"
    );
    assert_eq!(CliCommand::Commit.confirmation(), "");
}

#[test]
fn header_counts_files_in_words() {
    assert_eq!(header_context(1, "OpenAI", "gpt-5-nano"), "1 staged file · OpenAI · gpt-5-nano");
    assert_eq!(header_context(12, "Gemini", "m"), "12 staged files · Gemini · m");
    assert_eq!(header_context(0, "Gemini", "m"), "0 staged files · Gemini · m");
}

#[test]
fn optional_counts_read_unknown_when_missing() {
    assert_eq!(format_optional_count(Some(1234)), "1234");
    assert_eq!(format_optional_count(Some(0)), "0");
    assert_eq!(format_optional_count(None), "unknown");
}
