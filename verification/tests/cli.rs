use ai::cli::{ensure_no_prompt_args, select_mode, Cli, Flag, Mode, Shell, UsageError};

fn cli() -> Cli {
    Cli {
        model: None,
        prompt: None,
        minimal: false,
        strip_thinking: false,
        init: false,
        history_clear: false,
        history: None,
        completions: None,
        list_models: false,
        list_prompts: false,
        args: vec![],
    }
}

#[test]
fn plain_prompt_is_a_chat() {
    let mut c = cli();
    c.args = vec!["hello".to_string()];
    c.minimal = true;
    assert_eq!(select_mode(&c), Ok(Mode::Chat));
}

#[test]
fn listing_modes() {
    let mut c = cli();
    c.list_models = true;
    assert_eq!(select_mode(&c), Ok(Mode::ListModels));
    let mut c = cli();
    c.list_prompts = true;
    assert_eq!(select_mode(&c), Ok(Mode::ListPrompts));
    c.list_models = true;
    assert_eq!(select_mode(&c), Err(UsageError::ListBoth));
    let mut c = cli();
    c.list_models = true;
    c.completions = Some(Shell::Bash);
    assert_eq!(select_mode(&c), Err(UsageError::ListWithOtherMode));
    let mut c = cli();
    c.list_prompts = true;
    c.model = Some("fast".to_string());
    assert_eq!(select_mode(&c), Err(UsageError::ListWithPromptArgs));
}

#[test]
fn init_with_history_refused() {
    let mut c = cli();
    c.init = true;
    c.history = Some(1);
    assert_eq!(select_mode(&c), Err(UsageError::InitWithHistory));
}

#[test]
fn completions_mode() {
    let mut c = cli();
    c.completions = Some(Shell::Zsh);
    assert_eq!(select_mode(&c), Ok(Mode::Completions(Shell::Zsh)));
    c.minimal = true;
    assert_eq!(select_mode(&c), Err(UsageError::Minimal(Flag::Completions)));
    c.minimal = false;
    c.history_clear = true;
    assert_eq!(select_mode(&c), Err(UsageError::CompletionsWithOtherFlags));
}

#[test]
fn init_mode() {
    let mut c = cli();
    c.init = true;
    assert_eq!(select_mode(&c), Ok(Mode::Init));
    c.args = vec!["x".to_string()];
    assert_eq!(select_mode(&c), Err(UsageError::PromptArgs(Flag::Init)));
}

#[test]
fn history_modes() {
    let mut c = cli();
    c.history_clear = true;
    assert_eq!(select_mode(&c), Ok(Mode::HistoryClear));
    c.history = Some(2);
    assert_eq!(select_mode(&c), Err(UsageError::HistoryWithHistoryClear));
    let mut c = cli();
    c.history = Some(2);
    c.minimal = true;
    c.strip_thinking = true;
    assert_eq!(select_mode(&c), Ok(Mode::History(2)));
    c.prompt = Some("p".to_string());
    assert_eq!(select_mode(&c), Err(UsageError::PromptArgs(Flag::History)));
}

#[test]
fn prompt_args_check() {
    let mut c = cli();
    assert_eq!(ensure_no_prompt_args(&c, Flag::Init, false, false), Ok(()));
    c.strip_thinking = true;
    assert_eq!(ensure_no_prompt_args(&c, Flag::Init, false, false), Err(UsageError::StripThinking(Flag::Init)));
    assert_eq!(ensure_no_prompt_args(&c, Flag::Init, false, true), Ok(()));
}
