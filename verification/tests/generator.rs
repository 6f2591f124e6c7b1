use autocommit::ai::cache::build_key;
use autocommit::ai::prompts::{MAX_TOKENS_LONG, MAX_TOKENS_SHORT, PROMPT_VERSION, SYSTEM_PROMPT_SHORT};
use autocommit::ai::{
    configured_model_name, judge_answer, AnswerError, AnswerOutcome, retry_generation, GenerateOptions, Generator, GeneratorError,
    DEFAULT_GEMINI_MODEL, DEFAULT_OPENAI_MODEL,
};
use autocommit::git::diff::generate_prompt;
use autocommit::types::{CommitType, MessageStyle, ModelType};

#[test]
fn a_blank_key_makes_no_generator() {
    let result = Generator::new(ModelType::Gemini, "  ".to_string(), None);
    assert!(matches!(result, Err(GeneratorError::MissingApiKey(ModelType::Gemini))));
    if let Err(e) = result {
        assert_eq!(e.message(), "No gemini API key is configured");
    }
}

#[test]
fn model_names_default_per_provider() {
    assert_eq!(configured_model_name(ModelType::Openai, None), DEFAULT_OPENAI_MODEL);
    assert_eq!(configured_model_name(ModelType::Gemini, Some("  ")), DEFAULT_GEMINI_MODEL);
    assert_eq!(configured_model_name(ModelType::Gemini, Some("gemini-pro")), "gemini-pro");
}

#[test]
fn generator_reports_its_provider() {
    let g = Generator::new(ModelType::Openai, "sk".to_string(), Some("gpt-x")).unwrap();
    assert_eq!(g.provider_name(), "OpenAI");
    assert_eq!(g.model_name(), "gpt-x");
    assert_eq!(g.model(), ModelType::Openai);
    assert_eq!(g.api_key(), "sk");
}

#[test]
fn plan_uses_the_style_prompt_and_a_key_over_every_input() {
    let g = Generator::new(ModelType::Openai, "sk".to_string(), None).unwrap();
    let files = vec!["src/lib.rs".to_string()];
    let options = GenerateOptions {
        diff: "+x",
        diff_fingerprint: "abc",
        commit_type: Some(CommitType::Fix),
        files: &files,
        branch_name: "main",
        message_style: MessageStyle::Short,
    };
    let plan = g.plan(&options, &[], true);
    let prompt = generate_prompt("+x", Some(CommitType::Fix), &files, "main", &[]);
    assert_eq!(plan.system_prompt, SYSTEM_PROMPT_SHORT);
    assert_eq!(plan.max_tokens, MAX_TOKENS_SHORT);
    assert_eq!(plan.user_prompt, prompt);
    assert_eq!(
        plan.cache_key,
        build_key(&["openai", DEFAULT_OPENAI_MODEL, "short", PROMPT_VERSION, "abc", &prompt])
    );
    assert_eq!(plan.prompt_cache_key, "autocommit-abc");
    assert!(plan.use_cache);

    let excluded = vec!["fix(a): b".to_string()];
    let long = GenerateOptions { message_style: MessageStyle::Long, ..options };
    let plan = g.plan(&long, &excluded, true);
    assert_eq!(plan.max_tokens, MAX_TOKENS_LONG);
    assert!(!plan.use_cache);
}

#[test]
fn one_retry_after_an_unusable_answer() {
    assert!(retry_generation(0));
    assert!(!retry_generation(1));
}

#[test]
fn usable_answers_are_accepted_after_normalizing() {
    let payload = Some(vec![" fix(ui): align box ".to_string(), "nonsense".to_string()]);
    match judge_answer(payload, MessageStyle::Short, &[], 0) {
        AnswerOutcome::Accepted(v) => assert_eq!(v, vec!["fix(ui): align box".to_string()]),
        other => panic!("unexpected {other:?}"),
    }
}

#[test]
fn unusable_answers_are_asked_again_once() {
    assert!(matches!(judge_answer(None, MessageStyle::Short, &[], 0), AnswerOutcome::AskAgain));
    assert!(matches!(
        judge_answer(None, MessageStyle::Short, &[], 1),
        AnswerOutcome::Failed(AnswerError::Unparseable)
    ));
    let excluded = vec!["fix(ui): align box".to_string()];
    let payload = Some(vec!["fix(ui): align box".to_string()]);
    assert!(matches!(
        judge_answer(payload, MessageStyle::Short, &excluded, 1),
        AnswerOutcome::Failed(AnswerError::NoNewValidCandidate)
    ));
    assert_eq!(
        AnswerError::Unparseable.message(),
        "AI returned an invalid structured commit-message response"
    );
}
