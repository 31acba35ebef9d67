use ai::config::{validate_config, Config, ConfigError, Defaults, HistoryConfig, ModelConfig, PresetConfig};

fn model() -> ModelConfig {
    ModelConfig {
        endpoint: "https://api.openai.com".to_string(),
        model: "gpt-4o-mini".to_string(),
        system_prompt: None,
        api_key: Some("key".to_string()),
        api_key_command: None,
        options: None,
        strip_thinking: None,
        thinking_delimiters: vec![],
    }
}

fn config_with(m: ModelConfig) -> Config {
    Config {
        defaults: Defaults {
            model: "fast".to_string(),
            prompt: "concise".to_string(),
            minimal: None,
            strip_thinking: None,
            thinking_delimiters: vec![],
        },
        models: vec![("fast".to_string(), m)],
        prompts: vec![("concise".to_string(), PresetConfig { text: "Be concise.".to_string() })],
        history: HistoryConfig { enabled: None, max_entries: None },
    }
}

#[test]
fn valid_config_passes() {
    assert!(validate_config(&config_with(model())).is_ok());
}

#[test]
fn object_options_pass() {
    let mut m = model();
    m.options = Some("{\"reasoning\":{\"effort\":\"medium\"}}".to_string());
    assert!(validate_config(&config_with(m)).is_ok());
}

#[test]
fn missing_default_model() {
    let mut c = config_with(model());
    c.defaults.model = "other".to_string();
    assert!(matches!(validate_config(&c), Err(ConfigError::DefaultModelMissing(ref n)) if n == "other"));
}

#[test]
fn missing_default_prompt() {
    let mut c = config_with(model());
    c.defaults.prompt = "debug".to_string();
    assert!(matches!(validate_config(&c), Err(ConfigError::DefaultPromptMissing(ref n)) if n == "debug"));
}

#[test]
fn zero_history_size() {
    let mut c = config_with(model());
    c.history.max_entries = Some(0);
    assert!(matches!(validate_config(&c), Err(ConfigError::ZeroMaxEntries)));
}

#[test]
fn both_key_and_command() {
    let mut m = model();
    m.api_key_command = Some("pass show k".to_string());
    assert!(matches!(validate_config(&config_with(m)), Err(ConfigError::BothApiKeyAndCommand(ref n)) if n == "fast"));
}

#[test]
fn neither_key_nor_command() {
    let mut m = model();
    m.api_key = None;
    assert!(matches!(validate_config(&config_with(m)), Err(ConfigError::NoApiKey(ref n)) if n == "fast"));
}

#[test]
fn options_not_json() {
    let mut m = model();
    m.options = Some("{not json".to_string());
    assert!(matches!(validate_config(&config_with(m)), Err(ConfigError::OptionsNotJson(ref n)) if n == "fast"));
}

#[test]
fn options_not_object() {
    let mut m = model();
    m.options = Some("[1, 2]".to_string());
    assert!(matches!(validate_config(&config_with(m)), Err(ConfigError::OptionsNotObject(ref n)) if n == "fast"));
}

#[test]
fn blank_endpoint() {
    let mut m = model();
    m.endpoint = "  ".to_string();
    assert!(matches!(validate_config(&config_with(m)), Err(ConfigError::EmptyEndpoint(ref n)) if n == "fast"));
}

#[test]
fn blank_model_id() {
    let mut m = model();
    m.model = "\t".to_string();
    assert!(matches!(validate_config(&config_with(m)), Err(ConfigError::EmptyModelId(ref n)) if n == "fast"));
}

#[test]
fn first_failing_model_is_reported() {
    let mut c = config_with(model());
    let mut bad = model();
    bad.api_key = None;
    let mut worse = model();
    worse.endpoint = String::new();
    c.models.push(("second".to_string(), bad));
    c.models.push(("third".to_string(), worse));
    assert!(matches!(validate_config(&c), Err(ConfigError::NoApiKey(ref n)) if n == "second"));
}

#[test]
fn duplicate_names_refused() {
    let mut c = config_with(model());
    c.models.push(("fast".to_string(), model()));
    assert!(matches!(validate_config(&c), Err(ConfigError::DuplicateModelName(ref n)) if n == "fast"));
    let mut c = config_with(model());
    c.prompts.push(("concise".to_string(), PresetConfig { text: String::new() }));
    assert!(matches!(validate_config(&c), Err(ConfigError::DuplicatePromptName(ref n)) if n == "concise"));
}
