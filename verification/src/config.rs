//! The user's settings and how environment variables override them.
use vstd::prelude::*;

use crate::text::{chars_of, copy_string, str_eq, string_of, trim, trim_str};
use crate::types::{MessageStyle, ModelType};

verus! {

/// The settings kept in `~/.autocommitrc`.
#[derive(Debug, Clone)]
pub struct Config {
    pub openai_key: String,
    pub gemini_key: String,
    pub model: ModelType,
    pub message_style: MessageStyle,
    pub signed_commit: bool,
}

impl Default for Config {
    fn default() -> (c: Self)
        ensures
            c.openai_key@.len() == 0,
            c.gemini_key@.len() == 0,
            c.model == ModelType::Openai,
            c.message_style == MessageStyle::Short,
            !c.signed_commit,
    {
        Config {
            openai_key: String::new(),
            gemini_key: String::new(),
            model: ModelType::Openai,
            message_style: MessageStyle::Short,
            signed_commit: false,
        }
    }
}

/// The key that a provider is called with.
pub open spec fn key_for(config: Config, model: ModelType) -> Seq<char> {
    match model {
        ModelType::Openai => config.openai_key@,
        ModelType::Gemini => config.gemini_key@,
    }
}

impl Config {
    /// The API key stored for `model`.
    pub fn api_key_for(&self, model: ModelType) -> (k: &str)
        ensures
            k@ == key_for(*self, model),
    {
        match model {
            ModelType::Openai => self.openai_key.as_str(),
            ModelType::Gemini => self.gemini_key.as_str(),
        }
    }

    /// Whether the selected provider has a key that is not blank.
    pub fn has_selected_api_key(&self) -> (r: bool)
        ensures
            r == (trim(key_for(*self, self.model)).len() > 0),
    {
        let k = trim_str(self.api_key_for(self.model));
        k.len() > 0
    }
}

/// The environment variables that override the stored settings; `None` for
/// a variable that is not set.
pub struct ConfigEnv {
    pub gemini_api_key: Option<String>,
    pub openai_api_key: Option<String>,
    pub model: Option<String>,
    pub message_style: Option<String>,
}

/// The stored settings with the environment applied: `GEMINI_API_KEY` and
/// `OPENAI_API_KEY` each replace the stored key of their provider when set;
/// a Gemini key in the environment selects Gemini, else an OpenAI key there
/// selects OpenAI; `AUTOCOMMIT_MODEL` and `AUTOCOMMIT_MESSAGE_STYLE` select a
/// provider and a style when they hold a known name.
pub open spec fn spec_with_env(base: ConfigView, env: ConfigEnv) -> ConfigView {
    let openai = match env.openai_api_key {
        Some(k) => k@,
        None => base.0,
    };
    let gemini = match env.gemini_api_key {
        Some(k) => k@,
        None => base.1,
    };
    let model = if env.gemini_api_key is Some {
        ModelType::Gemini
    } else if env.openai_api_key is Some {
        ModelType::Openai
    } else {
        base.2
    };
    let model = match env.model {
        Some(m) => if m@ == "gemini"@ {
            ModelType::Gemini
        } else if m@ == "openai"@ {
            ModelType::Openai
        } else {
            model
        },
        None => model,
    };
    let style = match env.message_style {
        Some(s) => if s@ == "short"@ {
            MessageStyle::Short
        } else if s@ == "long"@ {
            MessageStyle::Long
        } else {
            base.3
        },
        None => base.3,
    };
    (openai, gemini, model, style, base.4)
}

/// A key in the environment overrides the stored key of its provider, whatever
/// else is set; without environment variables the stored settings stand.
pub proof fn environment_keys_override_stored_keys(base: ConfigView, env: ConfigEnv)
    ensures
        env.openai_api_key matches Some(k) ==> spec_with_env(base, env).0 == k@,
        env.gemini_api_key matches Some(k) ==> spec_with_env(base, env).1 == k@,
        (env.openai_api_key is None && env.gemini_api_key is None && env.model is None
            && env.message_style is None) ==> spec_with_env(base, env) == base,
{
}

/// The settings as plain values: OpenAI key, Gemini key, provider, style,
/// signing.
pub type ConfigView = (Seq<char>, Seq<char>, ModelType, MessageStyle, bool);

/// The settings of a fresh installation.
pub open spec fn default_view() -> ConfigView {
    (seq![], seq![], ModelType::Openai, MessageStyle::Short, false)
}

pub open spec fn config_view(c: Config) -> ConfigView {
    (c.openai_key@, c.gemini_key@, c.model, c.message_style, c.signed_commit)
}

/// The settings in effect: the stored ones (the defaults when they could
/// not be read) with the environment applied.
pub fn get_config(stored: Option<Config>, env: &ConfigEnv) -> (c: Config)
    ensures
        config_view(c) == spec_with_env(
            match stored {
                Some(base) => config_view(base),
                None => default_view(),
            },
            *env,
        ),
{
    let mut config = match stored {
        Some(c) => c,
        None => Config::default(),
    };
    match &env.openai_api_key {
        Some(k) => {
            config.openai_key = copy_string(k);
            config.model = ModelType::Openai;
        },
        None => {},
    }
    match &env.gemini_api_key {
        Some(k) => {
            config.gemini_key = copy_string(k);
            config.model = ModelType::Gemini;
        },
        None => {},
    }
    match &env.model {
        Some(m) => {
            if str_eq(m.as_str(), "gemini") {
                config.model = ModelType::Gemini;
            } else if str_eq(m.as_str(), "openai") {
                config.model = ModelType::Openai;
            }
        },
        None => {},
    }
    match &env.message_style {
        Some(s) => {
            if str_eq(s.as_str(), "short") {
                config.message_style = MessageStyle::Short;
            } else if str_eq(s.as_str(), "long") {
                config.message_style = MessageStyle::Long;
            }
        },
        None => {},
    }
    config
}

/// Whether any API key is stored.
pub fn config_file_exists(config: &Config) -> (r: bool)
    ensures
        r == (config.openai_key@.len() > 0 || config.gemini_key@.len() > 0),
{
    let a = chars_of(config.openai_key.as_str());
    let b = chars_of(config.gemini_key.as_str());
    a.len() > 0 || b.len() > 0
}

/// Stores `api_key` for `model` and selects that provider; the other
/// settings stay as they were.
pub fn save_api_key(config: &mut Config, api_key: &str, model: ModelType)
    ensures
        final(config).model == model,
        key_for(*final(config), model) == api_key@,
        model == ModelType::Openai ==> final(config).gemini_key@ == old(config).gemini_key@,
        model == ModelType::Gemini ==> final(config).openai_key@ == old(config).openai_key@,
        final(config).message_style == old(config).message_style,
        final(config).signed_commit == old(config).signed_commit,
{
    let v = chars_of(api_key);
    match model {
        ModelType::Openai => config.openai_key = string_of(&v),
        ModelType::Gemini => config.gemini_key = string_of(&v),
    }
    config.model = model;
}

/// Selects the provider; the other settings stay as they were.
pub fn set_model(config: &mut Config, model: ModelType)
    ensures
        *final(config) == (Config { model, ..*old(config) }),
{
    config.model = model;
}

/// Selects the message style; the other settings stay as they were.
pub fn set_message_style(config: &mut Config, style: MessageStyle)
    ensures
        *final(config) == (Config { message_style: style, ..*old(config) }),
{
    config.message_style = style;
}

/// Turns commit signing on or off; the other settings stay as they were.
pub fn set_signed_commit(config: &mut Config, signed: bool)
    ensures
        *final(config) == (Config { signed_commit: signed, ..*old(config) }),
{
    config.signed_commit = signed;
}

/// The message style in effect: `AUTOCOMMIT_MESSAGE_STYLE` when it names a
/// style, else the stored one.
pub fn get_message_style(config: &Config, env_style: Option<&str>) -> (s: MessageStyle)
    ensures
        s == match env_style {
            Some(v) => if v@ == "short"@ {
                MessageStyle::Short
            } else if v@ == "long"@ {
                MessageStyle::Long
            } else {
                config.message_style
            },
            None => config.message_style,
        },
{
    match env_style {
        Some(v) => {
            if str_eq(v, "short") {
                return MessageStyle::Short;
            } else if str_eq(v, "long") {
                return MessageStyle::Long;
            }
            config.message_style
        },
        None => config.message_style,
    }
}

/// Whether commits are signed.
pub fn get_signed_commit(config: &Config) -> (r: bool)
    ensures
        r == config.signed_commit,
{
    config.signed_commit
}

/// The settings that the first-run setup chose: one provider and its key
/// (trimmed), the style, and signing; the other key is empty.
pub fn setup_config(model: ModelType, api_key: &str, message_style: MessageStyle, signed_commit: bool) -> (c: Config)
    ensures
        c.model == model,
        key_for(c, model) == trim(api_key@),
        model == ModelType::Openai ==> c.gemini_key@.len() == 0,
        model == ModelType::Gemini ==> c.openai_key@.len() == 0,
        c.message_style == message_style,
        c.signed_commit == signed_commit,
{
    let key = trim_str(api_key);
    let mut config = Config::default();
    config.model = model;
    config.message_style = message_style;
    config.signed_commit = signed_commit;
    match model {
        ModelType::Openai => config.openai_key = string_of(&key),
        ModelType::Gemini => config.gemini_key = string_of(&key),
    }
    config
}

} // verus!
