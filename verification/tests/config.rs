use autocommit::config::{
    config_file_exists, get_config, get_message_style, get_signed_commit, save_api_key,
    set_message_style, set_model, set_signed_commit, setup_config, Config, ConfigEnv,
};
use autocommit::types::{MessageStyle, ModelType};

fn no_env() -> ConfigEnv {
    ConfigEnv { gemini_api_key: None, openai_api_key: None, model: None, message_style: None }
}

fn stored() -> Config {
    Config {
        openai_key: "sk-stored".to_string(),
        gemini_key: String::new(),
        model: ModelType::Openai,
        message_style: MessageStyle::Long,
        signed_commit: true,
    }
}

#[test]
fn defaults_are_openai_short_unsigned_without_keys() {
    let config = get_config(None, &no_env());
    assert_eq!(config.openai_key, "");
    assert_eq!(config.gemini_key, "");
    assert_eq!(config.model, ModelType::Openai);
    assert_eq!(config.message_style, MessageStyle::Short);
    assert!(!config.signed_commit);
    assert!(!config_file_exists(&config));
}

#[test]
fn without_environment_the_stored_settings_stand() {
    let config = get_config(Some(stored()), &no_env());
    assert_eq!(config.openai_key, "sk-stored");
    assert_eq!(config.model, ModelType::Openai);
    assert_eq!(config.message_style, MessageStyle::Long);
    assert!(config.signed_commit);
}

#[test]
fn both_environment_keys_override_and_gemini_is_selected() {
    let env = ConfigEnv {
        gemini_api_key: Some("g-env".to_string()),
        openai_api_key: Some("o-env".to_string()),
        model: None,
        message_style: None,
    };
    let config = get_config(Some(stored()), &env);
    assert_eq!(config.gemini_key, "g-env");
    assert_eq!(config.openai_key, "o-env");
    assert_eq!(config.model, ModelType::Gemini);
}

#[test]
fn openai_key_variable_is_used_when_openai_is_selected() {
    let env = ConfigEnv {
        gemini_api_key: Some("g-env".to_string()),
        openai_api_key: Some("o-env".to_string()),
        model: Some("openai".to_string()),
        message_style: None,
    };
    let config = get_config(Some(stored()), &env);
    assert_eq!(config.model, ModelType::Openai);
    assert_eq!(config.api_key_for(config.model), "o-env");
}

#[test]
fn model_and_style_variables_apply_only_known_names() {
    let env = ConfigEnv {
        gemini_api_key: None,
        openai_api_key: Some("o-env".to_string()),
        model: Some("gemini".to_string()),
        message_style: Some("short".to_string()),
    };
    let config = get_config(Some(stored()), &env);
    assert_eq!(config.openai_key, "o-env");
    assert_eq!(config.model, ModelType::Gemini);
    assert_eq!(config.message_style, MessageStyle::Short);

    let env = ConfigEnv {
        gemini_api_key: None,
        openai_api_key: None,
        model: Some("llama".to_string()),
        message_style: Some("medium".to_string()),
    };
    let config = get_config(Some(stored()), &env);
    assert_eq!(config.model, ModelType::Openai);
    assert_eq!(config.message_style, MessageStyle::Long);
}

#[test]
fn saving_a_key_selects_its_provider_and_keeps_the_rest() {
    let mut config = stored();
    save_api_key(&mut config, "g-new", ModelType::Gemini);
    assert_eq!(config.gemini_key, "g-new");
    assert_eq!(config.openai_key, "sk-stored");
    assert_eq!(config.model, ModelType::Gemini);
    assert_eq!(config.message_style, MessageStyle::Long);
    assert!(config.signed_commit);
    assert!(config_file_exists(&config));
}

#[test]
fn setters_change_one_setting() {
    let mut config = stored();
    set_model(&mut config, ModelType::Gemini);
    assert_eq!(config.model, ModelType::Gemini);
    set_message_style(&mut config, MessageStyle::Short);
    assert_eq!(config.message_style, MessageStyle::Short);
    set_signed_commit(&mut config, false);
    assert!(!get_signed_commit(&config));
    assert_eq!(config.openai_key, "sk-stored");
}

#[test]
fn message_style_variable_overrides_the_stored_style() {
    let config = stored();
    assert_eq!(get_message_style(&config, None), MessageStyle::Long);
    assert_eq!(get_message_style(&config, Some("short")), MessageStyle::Short);
    assert_eq!(get_message_style(&config, Some("SHORT")), MessageStyle::Long);
}

#[test]
fn selected_key_must_not_be_blank() {
    let mut config = stored();
    assert!(config.has_selected_api_key());
    assert_eq!(config.api_key_for(ModelType::Openai), "sk-stored");
    set_model(&mut config, ModelType::Gemini);
    assert!(!config.has_selected_api_key());
    save_api_key(&mut config, "   ", ModelType::Gemini);
    assert!(!config.has_selected_api_key());
}

#[test]
fn setup_stores_one_trimmed_key() {
    let config = setup_config(ModelType::Gemini, "  g-key \n", MessageStyle::Long, true);
    assert_eq!(config.gemini_key, "g-key");
    assert_eq!(config.openai_key, "");
    assert_eq!(config.model, ModelType::Gemini);
    assert_eq!(config.message_style, MessageStyle::Long);
    assert!(config.signed_commit);
}
