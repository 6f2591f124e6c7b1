//! Generating commit message candidates: what is asked of a provider, and
//! how its answers are judged.
use vstd::prelude::*;

use crate::git::diff::{generate_prompt, spec_prompt};
use crate::text::{append_str, chars_of, str_option_view, string_of, string_views, trim, trim_str};
use crate::types::{message_style_name, model_type_name, CommitType, MessageStyle, ModelType};

use self::cache::{build_key, spec_key};
use self::candidates::{normalize, normalized};
use self::prompts::{
    MAX_TOKENS_LONG, MAX_TOKENS_SHORT, PROMPT_VERSION, SYSTEM_PROMPT_LONG, SYSTEM_PROMPT_SHORT,
};

pub mod cache;
pub mod candidates;
pub mod client;
pub mod prompts;
pub mod providers;
pub mod schema;

verus! {

pub const DEFAULT_OPENAI_MODEL: &'static str = "gpt-5-nano";

pub const DEFAULT_GEMINI_MODEL: &'static str = "gemini-3.5-flash-lite";

/// A request that yields no usable candidates is made once more.
pub const GENERATION_ATTEMPTS: usize = 2;

pub const GENERATION_RETRY_PAUSE_MILLIS: u64 = 350;

/// What a generation request is about.
pub struct GenerateOptions<'a> {
    pub diff: &'a str,
    pub diff_fingerprint: &'a str,
    pub commit_type: Option<CommitType>,
    pub files: &'a [String],
    pub branch_name: &'a str,
    pub message_style: MessageStyle,
}

/// Token counts that a provider reported, where it reported them.
#[derive(Debug, Clone, Copy, PartialEq, Eq, Structural)]
pub struct TokenUsage {
    pub input_tokens: Option<u64>,
    pub cached_input_tokens: Option<u64>,
    pub output_tokens: Option<u64>,
}

impl Default for TokenUsage {
    fn default() -> (u: Self)
        ensures
            u.input_tokens is None && u.cached_input_tokens is None && u.output_tokens is None,
    {
        TokenUsage { input_tokens: None, cached_input_tokens: None, output_tokens: None }
    }
}

/// How a generation went.
#[derive(Debug)]
pub struct GenerationMetrics {
    pub model: String,
    pub duration: std::time::Duration,
    pub cache_hit: bool,
    pub usage: TokenUsage,
}

/// The candidates of a generation and how it went.
#[derive(Debug)]
pub struct GenerationResult {
    pub candidates: Vec<String>,
    pub metrics: GenerationMetrics,
}

/// Why a generator could not be made.
#[derive(Debug, Clone, Copy, PartialEq, Eq, Structural)]
pub enum GeneratorError {
    /// The selected provider has no usable API key.
    MissingApiKey(ModelType),
}

impl GeneratorError {
    /// The text shown to the user for this error.
    pub fn message(&self) -> (s: String)
        ensures
            *self matches GeneratorError::MissingApiKey(m) && s@ == "No "@ + model_type_name(m)
                + " API key is configured"@,
    {
        match self {
            GeneratorError::MissingApiKey(m) => {
                let mut v: Vec<char> = Vec::new();
                append_str(&mut v, "No ");
                append_str(&mut v, m.as_str());
                append_str(&mut v, " API key is configured");
                string_of(&v)
            },
        }
    }
}

/// The provider, the model name, and the key of a generation session.
pub struct Generator {
    model: ModelType,
    model_name: String,
    api_key: String,
}

/// The model that a provider is asked for: the name configured in the
/// environment when it is not blank, else the provider's default.
pub open spec fn spec_model_name(model: ModelType, configured: Option<Seq<char>>) -> Seq<char> {
    match configured {
        Some(n) if trim(n).len() > 0 => n,
        _ => match model {
            ModelType::Openai => DEFAULT_OPENAI_MODEL@,
            ModelType::Gemini => DEFAULT_GEMINI_MODEL@,
        },
    }
}

/// The model name to use for `model`, given the value of its
/// `AUTOCOMMIT_*_MODEL` variable.
pub fn configured_model_name(model: ModelType, configured: Option<&str>) -> (r: String)
    ensures
        r@ == spec_model_name(model, str_option_view(configured)),
{
    match configured {
        Some(n) => {
            let t = trim_str(n);
            if t.len() > 0 {
                let v = chars_of(n);
                return string_of(&v);
            }
        },
        None => {},
    }
    let d = match model {
        ModelType::Openai => chars_of(DEFAULT_OPENAI_MODEL),
        ModelType::Gemini => chars_of(DEFAULT_GEMINI_MODEL),
    };
    string_of(&d)
}

/// What is sent for one generation and whether the local cache is
/// consulted.
pub struct GenerationPlan {
    pub system_prompt: &'static str,
    pub max_tokens: u32,
    pub user_prompt: String,
    pub cache_key: String,
    pub prompt_cache_key: String,
    pub use_cache: bool,
}

pub open spec fn system_prompt_for(style: MessageStyle) -> Seq<char> {
    match style {
        MessageStyle::Long => SYSTEM_PROMPT_LONG@,
        MessageStyle::Short => SYSTEM_PROMPT_SHORT@,
    }
}

pub open spec fn max_tokens_for(style: MessageStyle) -> u32 {
    match style {
        MessageStyle::Long => MAX_TOKENS_LONG,
        MessageStyle::Short => MAX_TOKENS_SHORT,
    }
}

impl Generator {
    pub closed spec fn spec_model(&self) -> ModelType {
        self.model
    }

    pub closed spec fn spec_model_name(&self) -> Seq<char> {
        self.model_name@
    }

    pub closed spec fn spec_api_key(&self) -> Seq<char> {
        self.api_key@
    }

    /// A generator for `model` with `api_key`; an error when the key is
    /// blank. `configured_name` is the value of the provider's
    /// `AUTOCOMMIT_*_MODEL` variable, if set.
    pub fn new(model: ModelType, api_key: String, configured_name: Option<&str>) -> (r: Result<
        Generator,
        GeneratorError,
    >)
        ensures
            r is Err <==> trim(api_key@).len() == 0,
            r matches Err(e) ==> e == GeneratorError::MissingApiKey(model),
            r matches Ok(g) ==> g.spec_model() == model && g.spec_api_key() == api_key@
                && g.spec_model_name() == spec_model_name(model, str_option_view(configured_name)),
    {
        let t = trim_str(api_key.as_str());
        if t.len() == 0 {
            return Err(GeneratorError::MissingApiKey(model));
        }
        Ok(Generator { model, model_name: configured_model_name(model, configured_name), api_key })
    }

    /// The provider's display name.
    pub fn provider_name(&self) -> (s: &'static str)
        ensures
            s@ == match self.spec_model() {
                ModelType::Gemini => "Gemini"@,
                ModelType::Openai => "OpenAI"@,
            },
    {
        match self.model {
            ModelType::Gemini => "Gemini",
            ModelType::Openai => "OpenAI",
        }
    }

    pub fn model_name(&self) -> (s: &str)
        ensures
            s@ == self.spec_model_name(),
    {
        self.model_name.as_str()
    }

    pub fn model(&self) -> (m: ModelType)
        ensures
            m == self.spec_model(),
    {
        self.model
    }

    pub fn api_key(&self) -> (s: &str)
        ensures
            s@ == self.spec_api_key(),
    {
        self.api_key.as_str()
    }

    /// What to send for `options`: the system prompt and token limit of the
    /// style, the user prompt, the key of the local cache (over provider,
    /// model, style, prompt version, diff fingerprint and prompt), the
    /// provider-side cache key, and whether the local cache is consulted
    /// (only when allowed and no candidate is excluded).
    pub fn plan(&self, options: &GenerateOptions, excluded_candidates: &[String], use_cache: bool) -> (p: GenerationPlan)
        ensures
            p.system_prompt@ == system_prompt_for(options.message_style),
            p.max_tokens == max_tokens_for(options.message_style),
            p.user_prompt@ == spec_prompt(
                options.diff@,
                options.commit_type,
                string_views(options.files@),
                options.branch_name@,
                string_views(excluded_candidates@),
            ),
            p.cache_key@ == spec_key(
                seq![
                    model_type_name(self.spec_model()),
                    self.spec_model_name(),
                    message_style_name(options.message_style),
                    PROMPT_VERSION@,
                    options.diff_fingerprint@,
                    p.user_prompt@,
                ],
            ),
            p.prompt_cache_key@ == "autocommit-"@ + options.diff_fingerprint@,
            p.use_cache == (use_cache && excluded_candidates@.len() == 0),
    {
        let system_prompt = match options.message_style {
            MessageStyle::Long => SYSTEM_PROMPT_LONG,
            MessageStyle::Short => SYSTEM_PROMPT_SHORT,
        };
        let max_tokens = match options.message_style {
            MessageStyle::Long => MAX_TOKENS_LONG,
            MessageStyle::Short => MAX_TOKENS_SHORT,
        };
        let user_prompt = generate_prompt(
            options.diff,
            options.commit_type,
            options.files,
            options.branch_name,
            excluded_candidates,
        );
        let parts: [&str; 6] = [
            self.model.as_str(),
            self.model_name.as_str(),
            options.message_style.as_str(),
            PROMPT_VERSION,
            options.diff_fingerprint,
            user_prompt.as_str(),
        ];
        let cache_key = build_key(&parts);
        proof {
            assert(cache::str_views(parts@) =~= seq![
                model_type_name(self.spec_model()),
                self.spec_model_name(),
                message_style_name(options.message_style),
                PROMPT_VERSION@,
                options.diff_fingerprint@,
                user_prompt@,
            ]);
        }
        let mut pk: Vec<char> = Vec::new();
        append_str(&mut pk, "autocommit-");
        append_str(&mut pk, options.diff_fingerprint);
        GenerationPlan {
            system_prompt,
            max_tokens,
            user_prompt,
            cache_key,
            prompt_cache_key: string_of(&pk),
            use_cache: use_cache && excluded_candidates.len() == 0,
        }
    }
}

/// Whether a generation whose answer could not be used on attempt
/// `attempt` (counted from 0) is tried again.
pub fn retry_generation(attempt: usize) -> (r: bool)
    ensures
        r == (attempt + 1 < GENERATION_ATTEMPTS),
{
    attempt < GENERATION_ATTEMPTS - 1
}

/// Why a provider's answer could not be used.
#[derive(Debug, Clone, Copy, PartialEq, Eq, Structural)]
pub enum AnswerError {
    /// The answer was not the expected JSON object of candidates.
    Unparseable,
    /// No candidate survived `normalize`.
    NoNewValidCandidate,
}

impl AnswerError {
    /// The text shown to the user for this error.
    pub fn message(&self) -> (s: &'static str)
        ensures
            s@ == match *self {
                AnswerError::Unparseable => "AI returned an invalid structured commit-message response"@,
                AnswerError::NoNewValidCandidate => "AI did not return a new valid Conventional Commit message"@,
            },
    {
        match self {
            AnswerError::Unparseable => "AI returned an invalid structured commit-message response",
            AnswerError::NoNewValidCandidate => "AI did not return a new valid Conventional Commit message",
        }
    }
}

/// What follows a provider's answer.
#[derive(Debug, Clone)]
pub enum AnswerOutcome {
    /// These candidates are offered.
    Accepted(Vec<String>),
    /// The answer was unusable; pause, then ask again.
    AskAgain,
    /// The answer was unusable and no attempt is left.
    Failed(AnswerError),
}

/// The judgement of the answer to attempt `attempt` (counted from 0).
/// `payload` is the list of candidates the answer held, or `None` when it
/// was not the expected JSON object. The normalized candidates are offered
/// when any is left; otherwise the request is tried again while attempts
/// remain.
pub fn judge_answer(
    payload: Option<Vec<String>>,
    message_style: MessageStyle,
    excluded_candidates: &[String],
    attempt: usize,
) -> (r: AnswerOutcome)
    ensures
        ({
            let again = attempt + 1 < GENERATION_ATTEMPTS;
            match payload {
                None => if again {
                    r is AskAgain
                } else {
                    r == AnswerOutcome::Failed(AnswerError::Unparseable)
                },
                Some(c) => {
                    let kept = normalized(
                        string_views(c@),
                        message_style,
                        string_views(excluded_candidates@),
                    );
                    if kept.len() > 0 {
                        r matches AnswerOutcome::Accepted(v) && string_views(v@) == kept
                    } else if again {
                        r is AskAgain
                    } else {
                        r == AnswerOutcome::Failed(AnswerError::NoNewValidCandidate)
                    }
                },
            }
        }),
{
    let error = match payload {
        None => AnswerError::Unparseable,
        Some(c) => match normalize(c, message_style, excluded_candidates) {
            Ok(v) => return AnswerOutcome::Accepted(v),
            Err(_) => AnswerError::NoNewValidCandidate,
        },
    };
    if retry_generation(attempt) {
        AnswerOutcome::AskAgain
    } else {
        AnswerOutcome::Failed(error)
    }
}

} // verus!
