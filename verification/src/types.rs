use vstd::prelude::*;

verus! {

/// A Conventional Commits type.
#[derive(Debug, Clone, Copy, PartialEq, Eq, Structural)]
pub enum CommitType {
    Feat,
    Fix,
    Docs,
    Style,
    Refactor,
    Perf,
    Test,
    Build,
    Ci,
    Chore,
    Revert,
}

/// The name under which a commit type is written in a summary line.
pub open spec fn commit_type_name(t: CommitType) -> Seq<char> {
    match t {
        CommitType::Feat => "feat"@,
        CommitType::Fix => "fix"@,
        CommitType::Docs => "docs"@,
        CommitType::Style => "style"@,
        CommitType::Refactor => "refactor"@,
        CommitType::Perf => "perf"@,
        CommitType::Test => "test"@,
        CommitType::Build => "build"@,
        CommitType::Ci => "ci"@,
        CommitType::Chore => "chore"@,
        CommitType::Revert => "revert"@,
    }
}

impl CommitType {
    pub fn as_str(&self) -> (s: &'static str)
        ensures
            s@ == commit_type_name(*self),
    {
        match self {
            CommitType::Feat => "feat",
            CommitType::Fix => "fix",
            CommitType::Docs => "docs",
            CommitType::Style => "style",
            CommitType::Refactor => "refactor",
            CommitType::Perf => "perf",
            CommitType::Test => "test",
            CommitType::Build => "build",
            CommitType::Ci => "ci",
            CommitType::Chore => "chore",
            CommitType::Revert => "revert",
        }
    }
}

/// The AI provider that generates commit messages.
#[derive(Debug, Clone, Copy, PartialEq, Eq, Structural)]
pub enum ModelType {
    Openai,
    Gemini,
}

pub open spec fn model_type_name(m: ModelType) -> Seq<char> {
    match m {
        ModelType::Openai => "openai"@,
        ModelType::Gemini => "gemini"@,
    }
}

impl Default for ModelType {
    fn default() -> (m: Self)
        ensures
            m == ModelType::Openai,
    {
        ModelType::Openai
    }
}

impl ModelType {
    pub fn as_str(&self) -> (s: &'static str)
        ensures
            s@ == model_type_name(*self),
    {
        match self {
            ModelType::Openai => "openai",
            ModelType::Gemini => "gemini",
        }
    }
}

/// Whether a commit message is a single summary line or a summary with
/// bullet points.
#[derive(Debug, Clone, Copy, PartialEq, Eq, Structural)]
pub enum MessageStyle {
    Short,
    Long,
}

pub open spec fn message_style_name(m: MessageStyle) -> Seq<char> {
    match m {
        MessageStyle::Short => "short"@,
        MessageStyle::Long => "long"@,
    }
}

impl Default for MessageStyle {
    fn default() -> (m: Self)
        ensures
            m == MessageStyle::Short,
    {
        MessageStyle::Short
    }
}

impl MessageStyle {
    pub fn as_str(&self) -> (s: &'static str)
        ensures
            s@ == message_style_name(*self),
    {
        match self {
            MessageStyle::Short => "short",
            MessageStyle::Long => "long",
        }
    }
}

/// What the user chose to do with a proposed commit message.
#[derive(Debug, Clone, Copy, PartialEq, Eq, Structural)]
pub enum ActionType {
    Accept,
    Edit,
    Regenerate,
    Quit,
}

} // verus!
