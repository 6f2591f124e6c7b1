//! The command line: what each option asks for, and the texts shown.
use vstd::prelude::*;

use crate::text::{
    append_str, chars_of, copy_string, decimal, decimal_of, str_eq, string_of, string_option_view,
};
use crate::types::{message_style_name, model_type_name, MessageStyle, ModelType};

pub mod ui;

verus! {

/// The command-line options.
#[derive(Debug, Clone)]
pub struct Args {
    pub openai_key: Option<String>,
    pub gemini_key: Option<String>,
    pub model: Option<String>,
    pub short: bool,
    pub long: bool,
    pub sign: bool,
    pub no_sign: bool,
    /// Bypass the pre-commit and commit-msg hooks (`--no-verify`).
    pub bypass_hooks: bool,
    pub stats: bool,
    pub no_cache: bool,
}

/// What one run does.
#[derive(Debug, Clone)]
pub enum CliCommand {
    /// Store an API key for a provider and select it.
    SaveApiKey { model: ModelType, key: String },
    /// Select the default provider.
    SetModel(ModelType),
    /// Select the message style.
    SetMessageStyle(MessageStyle),
    /// Turn commit signing on or off.
    SetSignedCommit(bool),
    /// Propose a message for the staged changes and commit it.
    Commit,
}

/// Why the options could not be followed.
#[derive(Debug, Clone)]
pub enum CliError {
    /// `--model` named no known provider.
    UnknownModel(String),
}

impl CliError {
    /// The text shown to the user for this error.
    pub fn message(&self) -> (s: String)
        ensures
            self matches CliError::UnknownModel(m) && s@
                == "Please specify --model with \"openai\" or \"gemini\" (got: "@ + m@ + ")"@,
    {
        match self {
            CliError::UnknownModel(m) => {
                let mut v: Vec<char> = Vec::new();
                append_str(&mut v, "Please specify --model with \"openai\" or \"gemini\" (got: ");
                append_str(&mut v, m.as_str());
                append_str(&mut v, ")");
                string_of(&v)
            },
        }
    }
}

/// The command view: which command, with its provider, key, style or flag.
pub open spec fn command_matches(c: CliCommand, args: Args) -> bool {
    match args.openai_key {
        Some(k) => c matches CliCommand::SaveApiKey { model, key } && model == ModelType::Openai
            && key@ == k@,
        None => match args.gemini_key {
            Some(k) => c matches CliCommand::SaveApiKey { model, key } && model
                == ModelType::Gemini && key@ == k@,
            None => match args.model {
                Some(m) => if m@ == "openai"@ {
                    c matches CliCommand::SetModel(x) && x == ModelType::Openai
                } else if m@ == "gemini"@ {
                    c matches CliCommand::SetModel(x) && x == ModelType::Gemini
                } else {
                    false
                },
                None => if args.short {
                    c matches CliCommand::SetMessageStyle(s) && s == MessageStyle::Short
                } else if args.long {
                    c matches CliCommand::SetMessageStyle(s) && s == MessageStyle::Long
                } else if args.sign {
                    c matches CliCommand::SetSignedCommit(b) && b
                } else if args.no_sign {
                    c matches CliCommand::SetSignedCommit(b) && !b
                } else {
                    c matches CliCommand::Commit
                },
            },
        },
    }
}

/// A `--model` value that names no provider.
pub open spec fn bad_model(args: Args) -> bool {
    args.openai_key is None && args.gemini_key is None && match args.model {
        Some(m) => m@ != "openai"@ && m@ != "gemini"@,
        None => false,
    }
}

/// The command the options ask for. The first option set wins, in this
/// order: `--openai-key`, `--gemini-key`, `--model`, `--short`, `--long`,
/// `--sign`, `--no-sign`; with none of them, the run commits. An unknown
/// `--model` value is an error.
pub fn command(args: &Args) -> (r: Result<CliCommand, CliError>)
    ensures
        bad_model(*args) <==> r is Err,
        r matches Err(e) ==> (e matches CliError::UnknownModel(m) && string_option_view(args.model) == Some(
            m@,
        )),
        r matches Ok(c) ==> command_matches(c, *args),
{
    if let Some(k) = &args.openai_key {
        return Ok(CliCommand::SaveApiKey { model: ModelType::Openai, key: copy_string(k) });
    }
    if let Some(k) = &args.gemini_key {
        return Ok(CliCommand::SaveApiKey { model: ModelType::Gemini, key: copy_string(k) });
    }
    if let Some(m) = &args.model {
        if str_eq(m.as_str(), "openai") {
            return Ok(CliCommand::SetModel(ModelType::Openai));
        } else if str_eq(m.as_str(), "gemini") {
            return Ok(CliCommand::SetModel(ModelType::Gemini));
        } else {
            return Err(CliError::UnknownModel(copy_string(m)));
        }
    }
    if args.short {
        Ok(CliCommand::SetMessageStyle(MessageStyle::Short))
    } else if args.long {
        Ok(CliCommand::SetMessageStyle(MessageStyle::Long))
    } else if args.sign {
        Ok(CliCommand::SetSignedCommit(true))
    } else if args.no_sign {
        Ok(CliCommand::SetSignedCommit(false))
    } else {
        Ok(CliCommand::Commit)
    }
}

/// What is printed after a setting was saved.
pub open spec fn spec_confirmation(c: CliCommand) -> Seq<char> {
    match c {
        CliCommand::SaveApiKey { model, key } => match model {
            ModelType::Openai => "OpenAI API key saved to ~/.autocommitrc!"@,
            ModelType::Gemini => "Gemini API key saved to ~/.autocommitrc!"@,
        },
        CliCommand::SetModel(m) => "Default model set to "@ + model_type_name(m) + "!"@,
        CliCommand::SetMessageStyle(s) => "Message style set to "@ + message_style_name(s) + "!"@,
        CliCommand::SetSignedCommit(b) => if b {
            "Signed commits enabled!"@
        } else {
            "Signed commits disabled!"@
        },
        CliCommand::Commit => seq![],
    }
}

impl CliCommand {
    /// The confirmation printed after the command's setting was saved
    /// (empty for `Commit`).
    pub fn confirmation(&self) -> (s: String)
        ensures
            s@ == spec_confirmation(*self),
    {
        let mut v: Vec<char> = Vec::new();
        match self {
            CliCommand::SaveApiKey { model, key: _ } => match model {
                ModelType::Openai => append_str(&mut v, "OpenAI API key saved to ~/.autocommitrc!"),
                ModelType::Gemini => append_str(&mut v, "Gemini API key saved to ~/.autocommitrc!"),
            },
            CliCommand::SetModel(m) => {
                append_str(&mut v, "Default model set to ");
                append_str(&mut v, m.as_str());
                append_str(&mut v, "!");
            },
            CliCommand::SetMessageStyle(s) => {
                append_str(&mut v, "Message style set to ");
                append_str(&mut v, s.as_str());
                append_str(&mut v, "!");
            },
            CliCommand::SetSignedCommit(b) => {
                if *b {
                    append_str(&mut v, "Signed commits enabled!");
                } else {
                    append_str(&mut v, "Signed commits disabled!");
                }
            },
            CliCommand::Commit => {},
        }
        string_of(&v)
    }
}

/// The header of a run: how many files are staged, the provider, and the
/// model.
pub open spec fn spec_header_context(changed_files: nat, provider: Seq<char>, model: Seq<char>) -> Seq<char> {
    decimal(changed_files) + (if changed_files == 1 {
        " staged file"@
    } else {
        " staged files"@
    }) + " · "@ + provider + " · "@ + model
}

pub fn header_context(changed_files: usize, provider: &str, model: &str) -> (s: String)
    ensures
        s@ == spec_header_context(changed_files as nat, provider@, model@),
{
    let mut v = decimal_of(changed_files as u64);
    if changed_files == 1 {
        append_str(&mut v, " staged file");
    } else {
        append_str(&mut v, " staged files");
    }
    append_str(&mut v, " · ");
    append_str(&mut v, provider);
    append_str(&mut v, " · ");
    append_str(&mut v, model);
    string_of(&v)
}

/// A token count, or `unknown` when the provider did not report it.
pub fn format_optional_count(count: Option<u64>) -> (s: String)
    ensures
        s@ == match count {
            Some(n) => decimal(n as nat),
            None => "unknown"@,
        },
{
    match count {
        Some(n) => {
            let v = decimal_of(n);
            string_of(&v)
        },
        None => {
            let v = chars_of("unknown");
            string_of(&v)
        },
    }
}

} // verus!
