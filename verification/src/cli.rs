//! The command line: its flags, and which mode of operation they select or
//! which combination of them is refused.
use vstd::prelude::*;

verus! {

/// A shell that completion scripts can be asked for.
#[derive(PartialEq, Eq, Structural, Clone, Copy, Debug)]
pub enum Shell {
    Bash,
    Elvish,
    Fish,
    PowerShell,
    Zsh,
    /// A shell not listed above.
    Other,
}

/// The parsed command line.
#[derive(Debug, Clone)]
pub struct Cli {
    pub model: Option<String>,
    pub prompt: Option<String>,
    pub minimal: bool,
    pub strip_thinking: bool,
    pub init: bool,
    pub history_clear: bool,
    pub history: Option<usize>,
    pub completions: Option<Shell>,
    pub list_models: bool,
    pub list_prompts: bool,
    pub args: Vec<String>,
}

/// A flag that selects a mode of its own.
#[derive(PartialEq, Eq, Structural, Clone, Copy, Debug)]
pub enum Flag {
    Completions,
    Init,
    HistoryClear,
    History,
}

/// A combination of flags that is refused.
#[derive(PartialEq, Eq, Structural, Clone, Copy, Debug)]
pub enum UsageError {
    /// `--init` together with `--history` or `--history-clear`.
    InitWithHistory,
    /// `--list-models` together with `--list-prompts`.
    ListBoth,
    /// A listing flag together with another mode.
    ListWithOtherMode,
    /// A listing flag together with `--model`, `--prompt` or arguments.
    ListWithPromptArgs,
    /// `--completions` together with `--init` or a history flag.
    CompletionsWithOtherFlags,
    /// The flag together with `--model`, `--prompt` or arguments.
    PromptArgs(Flag),
    /// The flag together with `--minimal`.
    Minimal(Flag),
    /// The flag together with `--strip-thinking`.
    StripThinking(Flag),
    /// `--history` together with `--history-clear`.
    HistoryWithHistoryClear,
}

/// What the program is asked to do.
#[derive(PartialEq, Eq, Structural, Clone, Copy, Debug)]
pub enum Mode {
    ListModels,
    ListPrompts,
    Completions(Shell),
    Init,
    HistoryClear,
    History(usize),
    Chat,
}

/// The command line holds a prompt selection or a prompt.
pub open spec fn has_prompt_args(cli: &Cli) -> bool {
    cli.model is Some || cli.prompt is Some || cli.args@.len() != 0
}

/// Why `flag` cannot stand with the other flags given, if it cannot.
pub open spec fn prompt_args_problem(
    cli: &Cli,
    flag: Flag,
    allow_minimal: bool,
    allow_strip: bool,
) -> Option<UsageError> {
    if has_prompt_args(cli) {
        Some(UsageError::PromptArgs(flag))
    } else if !allow_minimal && cli.minimal {
        Some(UsageError::Minimal(flag))
    } else if !allow_strip && cli.strip_thinking {
        Some(UsageError::StripThinking(flag))
    } else {
        None
    }
}

/// Refuses a mode flag that comes with a prompt selection, a prompt, or a
/// display flag that the mode does not allow.
pub fn ensure_no_prompt_args(cli: &Cli, flag: Flag, allow_minimal: bool, allow_strip: bool) -> (r:
    Result<(), UsageError>)
    ensures
        match r {
            Ok(()) => prompt_args_problem(cli, flag, allow_minimal, allow_strip) is None,
            Err(e) => prompt_args_problem(cli, flag, allow_minimal, allow_strip) == Some(e),
        },
{
    if cli.model.is_some() || cli.prompt.is_some() || cli.args.len() != 0 {
        return Err(UsageError::PromptArgs(flag));
    }
    if !allow_minimal && cli.minimal {
        return Err(UsageError::Minimal(flag));
    }
    if !allow_strip && cli.strip_thinking {
        return Err(UsageError::StripThinking(flag));
    }
    Ok(())
}

/// The mode the command line selects, or why it is refused: listing first,
/// then completions, `--init`, `--history-clear`, `--history`, and a chat
/// otherwise.
pub open spec fn mode_of(cli: &Cli) -> Result<Mode, UsageError> {
    if cli.init && (cli.history_clear || cli.history is Some) {
        Err(UsageError::InitWithHistory)
    } else if cli.list_models || cli.list_prompts {
        if cli.list_models && cli.list_prompts {
            Err(UsageError::ListBoth)
        } else if cli.init || cli.history_clear || cli.history is Some || cli.completions is Some {
            Err(UsageError::ListWithOtherMode)
        } else if has_prompt_args(cli) {
            Err(UsageError::ListWithPromptArgs)
        } else if cli.list_models {
            Ok(Mode::ListModels)
        } else {
            Ok(Mode::ListPrompts)
        }
    } else if cli.completions is Some {
        if cli.init || cli.history_clear || cli.history is Some {
            Err(UsageError::CompletionsWithOtherFlags)
        } else {
            match prompt_args_problem(cli, Flag::Completions, false, false) {
                Some(e) => Err(e),
                None => Ok(Mode::Completions(cli.completions->0)),
            }
        }
    } else if cli.init {
        match prompt_args_problem(cli, Flag::Init, false, false) {
            Some(e) => Err(e),
            None => Ok(Mode::Init),
        }
    } else if cli.history_clear {
        match prompt_args_problem(cli, Flag::HistoryClear, false, false) {
            Some(e) => Err(e),
            None => if cli.history is Some {
                Err(UsageError::HistoryWithHistoryClear)
            } else {
                Ok(Mode::HistoryClear)
            },
        }
    } else if cli.history is Some {
        match prompt_args_problem(cli, Flag::History, true, true) {
            Some(e) => Err(e),
            None => Ok(Mode::History(cli.history->0)),
        }
    } else {
        Ok(Mode::Chat)
    }
}

/// Decides what the command line asks for, refusing the combinations of
/// flags that cannot stand together.
pub fn select_mode(cli: &Cli) -> (r: Result<Mode, UsageError>)
    ensures
        r == mode_of(cli),
{
    if cli.init && (cli.history_clear || cli.history.is_some()) {
        return Err(UsageError::InitWithHistory);
    }
    if cli.list_models || cli.list_prompts {
        if cli.list_models && cli.list_prompts {
            return Err(UsageError::ListBoth);
        }
        if cli.init || cli.history_clear || cli.history.is_some() || cli.completions.is_some() {
            return Err(UsageError::ListWithOtherMode);
        }
        if cli.model.is_some() || cli.prompt.is_some() || cli.args.len() != 0 {
            return Err(UsageError::ListWithPromptArgs);
        }
        if cli.list_models {
            return Ok(Mode::ListModels);
        }
        return Ok(Mode::ListPrompts);
    }
    if let Some(shell) = cli.completions {
        if cli.init || cli.history_clear || cli.history.is_some() {
            return Err(UsageError::CompletionsWithOtherFlags);
        }
        ensure_no_prompt_args(cli, Flag::Completions, false, false)?;
        return Ok(Mode::Completions(shell));
    }
    if cli.init {
        ensure_no_prompt_args(cli, Flag::Init, false, false)?;
        return Ok(Mode::Init);
    }
    if cli.history_clear {
        ensure_no_prompt_args(cli, Flag::HistoryClear, false, false)?;
        if cli.history.is_some() {
            return Err(UsageError::HistoryWithHistoryClear);
        }
        return Ok(Mode::HistoryClear);
    }
    if let Some(index) = cli.history {
        ensure_no_prompt_args(cli, Flag::History, true, true)?;
        return Ok(Mode::History(index));
    }
    Ok(Mode::Chat)
}

} // verus!
