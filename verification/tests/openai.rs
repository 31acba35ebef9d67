use ai::config::{Config, Defaults, HistoryConfig, ModelConfig, PresetConfig};
use ai::openai::{
    api_error_detail, build_chat_url, build_messages, chat_result, check_options, extract_reasoning, prepare_chat,
    resolve_model, select_delimiters, AssistantMessage, BodyValue, ChatError, ReasoningDetail,
    ReasoningValue,
};
use ai::thinking::Delimiter;

fn delim(start: &str, end: &str) -> Delimiter {
    Delimiter { start: start.to_string(), end: end.to_string() }
}

fn model() -> ModelConfig {
    ModelConfig {
        endpoint: "https://api.openai.com".to_string(),
        model: "gpt-4o-mini".to_string(),
        system_prompt: Some("You are a practical CLI assistant.".to_string()),
        api_key: Some("key".to_string()),
        api_key_command: None,
        options: None,
        strip_thinking: None,
        thinking_delimiters: vec![],
    }
}

fn defaults() -> Defaults {
    Defaults {
        model: "fast".to_string(),
        prompt: "concise".to_string(),
        minimal: None,
        strip_thinking: None,
        thinking_delimiters: vec![delim("<think>", "</think>")],
    }
}

fn config() -> Config {
    Config {
        defaults: defaults(),
        models: vec![("fast".to_string(), model())],
        prompts: vec![
            ("concise".to_string(), PresetConfig { text: "Be concise and direct.".to_string() }),
            ("none".to_string(), PresetConfig { text: "  ".to_string() }),
        ],
        history: HistoryConfig { enabled: None, max_entries: None },
    }
}

fn message(content: Option<&str>, reasoning: Option<ReasoningValue>, details: Option<Vec<ReasoningDetail>>) -> AssistantMessage {
    AssistantMessage { content: content.map(|c| c.to_string()), reasoning, reasoning_details: details }
}

#[test]
fn url_from_host() {
    assert_eq!(build_chat_url("https://api.openai.com"), "https://api.openai.com/v1/chat/completions");
}

#[test]
fn url_from_version_path() {
    assert_eq!(build_chat_url("https://api.openai.com/v1"), "https://api.openai.com/v1/chat/completions");
}

#[test]
fn url_full_path_kept() {
    assert_eq!(
        build_chat_url("https://host/v1/chat/completions"),
        "https://host/v1/chat/completions"
    );
}

#[test]
fn url_trailing_slashes_dropped() {
    assert_eq!(build_chat_url("https://host/v1///"), "https://host/v1/chat/completions");
    assert_eq!(build_chat_url("https://host/"), "https://host/v1/chat/completions");
}

#[test]
fn url_building_is_idempotent() {
    for e in ["https://h", "https://h/v1/", "https://h/v1/chat/completions/", "", "/"] {
        let once = build_chat_url(e);
        assert_eq!(build_chat_url(&once), once);
        assert!(once.ends_with("/chat/completions"));
    }
}

#[test]
fn messages_in_order() {
    let ms = build_messages(&model(), "Be concise.", "hello");
    let got: Vec<(&str, &str)> = ms.iter().map(|m| (m.role.as_str(), m.content.as_str())).collect();
    assert_eq!(
        got,
        vec![
            ("system", "You are a practical CLI assistant."),
            ("system", "Be concise."),
            ("user", "hello"),
        ]
    );
}

#[test]
fn blank_prompts_are_left_out() {
    let mut m = model();
    m.system_prompt = Some(" ".to_string());
    let ms = build_messages(&m, "\n", "hello");
    assert_eq!(ms.len(), 1);
    assert_eq!(ms[0].role, "user");
    assert_eq!(ms[0].content, "hello");
}

#[test]
fn resolve_model_found_and_missing() {
    let c = config();
    assert_eq!(resolve_model(&c, "fast").unwrap().model, "gpt-4o-mini");
    assert!(matches!(resolve_model(&c, "slow"), Err(ChatError::ModelNotFound(ref n)) if n == "slow"));
}

#[test]
fn prepare_chat_builds_request() {
    let req = prepare_chat(&config(), "fast", "concise", "hi").unwrap();
    assert_eq!(req.url, "https://api.openai.com/v1/chat/completions");
    assert!(matches!(req.body[0].1, BodyValue::Text(ref m) if m == "gpt-4o-mini"));
    assert_eq!(req.messages.len(), 3);
    assert_eq!(req.messages[1].content, "Be concise and direct.");
}

#[test]
fn prepare_chat_errors() {
    assert!(matches!(prepare_chat(&config(), "x", "concise", "hi"), Err(ChatError::ModelNotFound(ref n)) if n == "x"));
    assert!(matches!(prepare_chat(&config(), "fast", "y", "hi"), Err(ChatError::PresetNotFound(ref n)) if n == "y"));
}

#[test]
fn options_checks() {
    assert!(check_options("fast", "{\"reasoning\":{}}").is_ok());
    assert!(matches!(check_options("fast", "{"), Err(ChatError::OptionsNotJson(ref n)) if n == "fast"));
    assert!(matches!(check_options("fast", "3"), Err(ChatError::OptionsNotObject(ref n)) if n == "fast"));
    assert!(matches!(
        check_options("fast", "{\"model\":1}"),
        Err(ChatError::OptionOverride(ref n, ref k)) if n == "fast" && k == "model"
    ));
    assert!(matches!(
        check_options("fast", "{\"model\":1,\"messages\":2}"),
        Err(ChatError::OptionOverride(ref n, ref k)) if n == "fast" && k == "messages"
    ));
}

fn body_summary(body: &[(String, BodyValue)]) -> Vec<(String, String)> {
    body.iter()
        .map(|(k, v)| {
            let v = match v {
                BodyValue::Text(t) => format!("text:{t}"),
                BodyValue::Messages => "messages".to_string(),
                BodyValue::Json(j) => format!("json:{j}"),
            };
            (k.clone(), v)
        })
        .collect()
}

#[test]
fn request_body_entries() {
    let req = prepare_chat(&config(), "fast", "concise", "hi").unwrap();
    assert_eq!(
        body_summary(&req.body),
        vec![
            ("model".to_string(), "text:gpt-4o-mini".to_string()),
            ("messages".to_string(), "messages".to_string()),
        ]
    );
    let mut c = config();
    c.models[0].1.options = Some("{\"temperature\": 0.2, \"reasoning\": {\"effort\": \"low\"}}".to_string());
    let req = prepare_chat(&c, "fast", "concise", "hi").unwrap();
    assert_eq!(
        body_summary(&req.body),
        vec![
            ("model".to_string(), "text:gpt-4o-mini".to_string()),
            ("messages".to_string(), "messages".to_string()),
            ("reasoning".to_string(), "json:{\"effort\":\"low\"}".to_string()),
            ("temperature".to_string(), "json:0.2".to_string()),
        ]
    );
}

#[test]
fn request_with_overriding_options_refused() {
    let mut c = config();
    c.models[0].1.options = Some("{\"messages\":[]}".to_string());
    assert!(matches!(
        prepare_chat(&c, "fast", "concise", "hi"),
        Err(ChatError::OptionOverride(ref n, ref k)) if n == "fast" && k == "messages"
    ));
    c.models[0].1.options = Some("not json".to_string());
    assert!(matches!(prepare_chat(&c, "fast", "concise", "hi"), Err(ChatError::OptionsNotJson(_))));
}

#[test]
fn api_error_wording() {
    assert_eq!(api_error_detail(Some("bad key".to_string()), "{...}".to_string()), "bad key");
    assert_eq!(api_error_detail(None, "oops".to_string()), "oops");
}

#[test]
fn reasoning_from_string_field() {
    let m = message(Some("a"), Some(ReasoningValue::Text("why".to_string())), None);
    assert_eq!(extract_reasoning(&m), Some("why".to_string()));
}

#[test]
fn reasoning_from_other_value() {
    let m = message(Some("a"), Some(ReasoningValue::Other("{\"x\":1}".to_string())), None);
    assert_eq!(extract_reasoning(&m), Some("{\"x\":1}".to_string()));
}

#[test]
fn reasoning_from_details() {
    let details = vec![
        ReasoningDetail::TextField("one".to_string()),
        ReasoningDetail::Other,
        ReasoningDetail::Bare("  ".to_string()),
        ReasoningDetail::Bare("two".to_string()),
    ];
    let m = message(Some("a"), Some(ReasoningValue::Text(" ".to_string())), Some(details));
    assert_eq!(extract_reasoning(&m), Some("one\n\ntwo".to_string()));
}

#[test]
fn no_reasoning() {
    let m = message(Some("a"), Some(ReasoningValue::Null), Some(vec![ReasoningDetail::Other]));
    assert_eq!(extract_reasoning(&m), None);
    assert_eq!(extract_reasoning(&message(None, None, None)), None);
}

#[test]
fn delimiters_fall_back_to_defaults() {
    let ds = select_delimiters(&model(), &defaults());
    assert_eq!(ds.len(), 1);
    assert_eq!(ds[0].start, "<think>");
    let mut m = model();
    m.thinking_delimiters = vec![delim("[", "]")];
    let ds = select_delimiters(&m, &defaults());
    assert_eq!(ds[0].start, "[");
}

#[test]
fn reply_with_reasoning_field() {
    let choices = vec![message(Some("answer"), Some(ReasoningValue::Text("why".to_string())), None)];
    let r = chat_result(&model(), &defaults(), choices).unwrap();
    assert_eq!(r.content, "<think>why</think>\nanswer");
    assert_eq!(r.thinking_delimiters.len(), 1);
}

#[test]
fn reply_without_content() {
    let choices = vec![message(None, None, None)];
    let r = chat_result(&model(), &defaults(), choices).unwrap();
    assert_eq!(r.content, "");
}

#[test]
fn reply_without_choices() {
    assert!(matches!(chat_result(&model(), &defaults(), vec![]), Err(ChatError::MissingAssistantMessage)));
}
