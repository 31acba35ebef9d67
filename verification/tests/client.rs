use ai::cli::Cli;
use ai::client::{
    api_key_from_output, api_key_source, chat_names, finish_chat, history_enabled, history_max_entries, record_history,
    render_output, replay_delimiters, replay_strip_thinking, resolve_minimal, resolve_strip_thinking,
    resolve_user_input, ApiKeySource, ChatEnd, ClientError, Status,
};
use ai::config::{Config, Defaults, HistoryConfig, ModelConfig, PresetConfig};
use ai::history::HistoryEntry;
use ai::thinking::Delimiter;

fn delim(start: &str, end: &str) -> Delimiter {
    Delimiter { start: start.to_string(), end: end.to_string() }
}

fn model() -> ModelConfig {
    ModelConfig {
        endpoint: "https://api.openai.com".to_string(),
        model: "gpt-4o-mini".to_string(),
        system_prompt: None,
        api_key: None,
        api_key_command: Some("pass show openai/api-key".to_string()),
        options: None,
        strip_thinking: None,
        thinking_delimiters: vec![],
    }
}

fn config() -> Config {
    let mut keyed = model();
    keyed.api_key = Some("sk-1".to_string());
    keyed.api_key_command = None;
    keyed.strip_thinking = Some(true);
    keyed.thinking_delimiters = vec![delim("[", "]")];
    Config {
        defaults: Defaults {
            model: "fast".to_string(),
            prompt: "concise".to_string(),
            minimal: Some(true),
            strip_thinking: Some(false),
            thinking_delimiters: vec![delim("<think>", "</think>")],
        },
        models: vec![("fast".to_string(), model()), ("keyed".to_string(), keyed)],
        prompts: vec![("concise".to_string(), PresetConfig { text: String::new() })],
        history: HistoryConfig { enabled: Some(true), max_entries: Some(2) },
    }
}

fn cli() -> Cli {
    Cli {
        model: None,
        prompt: None,
        minimal: false,
        strip_thinking: false,
        init: false,
        history_clear: false,
        history: None,
        completions: None,
        list_models: false,
        list_prompts: false,
        args: vec![],
    }
}

#[test]
fn input_from_arguments() {
    let args = vec!["explain".to_string(), "this".to_string(), "error".to_string()];
    assert_eq!(resolve_user_input(&args, None).unwrap(), "explain this error");
}

#[test]
fn input_from_stdin() {
    assert_eq!(resolve_user_input(&vec![], Some("summarize this\n".to_string())).unwrap(), "summarize this\n");
    assert!(matches!(resolve_user_input(&vec![], Some(" \n".to_string())), Err(ClientError::EmptyStdin)));
    assert!(matches!(resolve_user_input(&vec![], None), Err(ClientError::NoUserInput)));
}

#[test]
fn key_sources() {
    let c = config();
    assert!(matches!(api_key_source(&c, "keyed"), Ok(ApiKeySource::Key(ref k)) if k == "sk-1"));
    assert!(matches!(api_key_source(&c, "fast"), Ok(ApiKeySource::Command(ref k)) if k == "pass show openai/api-key"));
    assert!(matches!(api_key_source(&c, "nope"), Err(ClientError::ModelNotFound(ref n)) if n == "nope"));
    let mut c = config();
    c.models[0].1.api_key_command = None;
    assert!(matches!(api_key_source(&c, "fast"), Err(ClientError::NoApiKeyCommand(ref n)) if n == "fast"));
}

#[test]
fn key_command_output() {
    assert_eq!(api_key_from_output(true, "  sk-abc\n", "").unwrap(), "sk-abc");
    assert!(matches!(api_key_from_output(true, " \n", ""), Err(ClientError::ApiKeyCommandEmpty)));
    assert!(matches!(api_key_from_output(false, "", "denied"), Err(ClientError::ApiKeyCommandFailed(ref e)) if e == "denied"));
}

#[test]
fn history_settings() {
    let mut c = config();
    assert!(history_enabled(&c));
    assert_eq!(history_max_entries(&c), 2);
    c.history = HistoryConfig { enabled: None, max_entries: None };
    assert!(!history_enabled(&c));
    assert_eq!(history_max_entries(&c), 50);
}

#[test]
fn minimal_settings() {
    let mut c = config();
    assert!(resolve_minimal(&cli(), &c));
    c.defaults.minimal = None;
    assert!(!resolve_minimal(&cli(), &c));
    let mut f = cli();
    f.minimal = true;
    assert!(resolve_minimal(&f, &c));
}

#[test]
fn strip_settings() {
    let c = config();
    assert!(!resolve_strip_thinking(&cli(), &c, "fast").unwrap());
    assert!(resolve_strip_thinking(&cli(), &c, "keyed").unwrap());
    assert!(matches!(resolve_strip_thinking(&cli(), &c, "gone"), Err(ClientError::ModelNotFound(_))));
    let mut f = cli();
    f.strip_thinking = true;
    assert!(resolve_strip_thinking(&f, &c, "gone").unwrap());
    assert!(!replay_strip_thinking(&cli(), &c, "gone"));
    assert!(replay_strip_thinking(&cli(), &c, "keyed"));
}

#[test]
fn replay_delimiter_choice() {
    let c = config();
    assert_eq!(replay_delimiters(&c, "keyed")[0].start, "[");
    assert_eq!(replay_delimiters(&c, "fast")[0].start, "<think>");
    assert_eq!(replay_delimiters(&c, "gone")[0].start, "<think>");
}

#[test]
fn output_rendering() {
    let ds = vec![delim("<think>", "</think>")];
    let reply = "<think>x</think>answer";
    assert_eq!(render_output(reply, &ds, false, false), reply);
    assert_eq!(render_output(reply, &ds, true, false), "answer");
    assert_eq!(render_output(reply, &ds, true, true), "answer");
    assert_eq!(render_output(reply, &ds, false, true), "\x1b[2m<think>x</think>\x1b[0manswer");
}

#[test]
fn status_line_text() {
    let on = Status::new(true);
    assert_eq!(on.show("sending"), Some("\r\x1b[2Ksending".to_string()));
    assert_eq!(on.clear(), Some("\r\x1b[2K".to_string()));
    let off = Status::new(false);
    assert_eq!(off.show("sending"), None);
    assert_eq!(off.clear(), None);
}

#[test]
fn recording_history() {
    let c = config();
    let old = vec![HistoryEntry {
        timestamp: 1,
        model: "fast".to_string(),
        preset_name: "concise".to_string(),
        user_input: "q".to_string(),
        response: "a".to_string(),
    }; 2];
    let kept = record_history(&c, old, 99, "fast", "concise", "question", "answer").unwrap();
    assert_eq!(kept.len(), 2);
    assert_eq!(kept[1].timestamp, 99);
    assert_eq!(kept[1].user_input, "question");
    assert_eq!(kept[1].response, "answer");
    assert_eq!(kept[0].timestamp, 1);
}

#[test]
fn validated_config_gives_a_key_source_for_its_default() {
    let c = config();
    assert!(ai::config::validate_config(&c).is_ok());
    assert!(api_key_source(&c, &c.defaults.model).is_ok());
}

#[test]
fn chat_names_default_and_given() {
    let c = config();
    let (m, p) = chat_names(&cli(), &c);
    assert_eq!((m.as_str(), p.as_str()), ("fast", "concise"));
    let mut f = cli();
    f.model = Some("keyed".to_string());
    f.prompt = Some("debug".to_string());
    let (m, p) = chat_names(&f, &c);
    assert_eq!((m.as_str(), p.as_str()), ("keyed", "debug"));
}

#[test]
fn what_follows_a_chat() {
    let c = config();
    let reply = ai::openai::ChatResult {
        content: "<think>x</think>answer".to_string(),
        thinking_delimiters: vec![delim("<think>", "</think>")],
    };
    match finish_chat(&c, Some(&reply), true, false) {
        ChatEnd::Shown { record, output } => {
            assert!(record);
            assert_eq!(output, "answer");
        }
        ChatEnd::Failed => panic!("reply expected"),
    }
    assert!(matches!(finish_chat(&c, None, true, true), ChatEnd::Failed));
    let mut quiet = config();
    quiet.history.enabled = None;
    assert!(matches!(finish_chat(&quiet, Some(&reply), false, false), ChatEnd::Shown { record: false, .. }));
}
