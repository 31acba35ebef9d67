//! The decisions of one run of the client: where the user's input comes
//! from, how the API key is obtained, which display settings apply, what is
//! printed of a reply, and what is recorded in the history.
use vstd::prelude::*;

use crate::cli::Cli;
use crate::config::{
    find_model, lemma_position_in_range, model_index, model_names, Config,
};
use crate::history::{append_entry, kept_entries, HistoryEntry};
use crate::openai::ChatResult;
use crate::text::{is_blank, is_blank_seq, join_with, owned, push_str, trim, trimmed};
use crate::thinking::{
    color_thinking, colored_text, delims_view, strip_thinking_text, stripped_text, Delimiter,
};

verus! {

/// Why a run cannot go on.
#[derive(Debug)]
pub enum ClientError {
    ModelNotFound(String),
    /// The model, named, has neither an API key nor a command for one.
    NoApiKeyCommand(String),
    /// The API key command failed; holds what it wrote to standard error.
    ApiKeyCommandFailed(String),
    ApiKeyCommandEmpty,
    NoUserInput,
    EmptyStdin,
}

/// A refused run, with the texts it mentions.
pub enum ClientProblem {
    ModelNotFound(Seq<char>),
    NoApiKeyCommand(Seq<char>),
    ApiKeyCommandFailed(Seq<char>),
    ApiKeyCommandEmpty,
    NoUserInput,
    EmptyStdin,
}

impl View for ClientError {
    type V = ClientProblem;

    open spec fn view(&self) -> ClientProblem {
        match self {
            ClientError::ModelNotFound(n) => ClientProblem::ModelNotFound(n@),
            ClientError::NoApiKeyCommand(n) => ClientProblem::NoApiKeyCommand(n@),
            ClientError::ApiKeyCommandFailed(e) => ClientProblem::ApiKeyCommandFailed(e@),
            ClientError::ApiKeyCommandEmpty => ClientProblem::ApiKeyCommandEmpty,
            ClientError::NoUserInput => ClientProblem::NoUserInput,
            ClientError::EmptyStdin => ClientProblem::EmptyStdin,
        }
    }
}

/// The arguments as texts.
pub open spec fn args_view(args: Seq<String>) -> Seq<Seq<char>> {
    args.map_values(|a: String| a@)
}

/// The user's input: the arguments joined by spaces when there are any;
/// else standard input (`None` when it is a terminal), refused when blank.
pub open spec fn user_input_of(args: Seq<Seq<char>>, stdin: Option<Seq<char>>) -> Result<
    Seq<char>,
    ClientProblem,
> {
    if args.len() > 0 {
        Ok(join_with(args, seq![' ']))
    } else {
        match stdin {
            None => Err(ClientProblem::NoUserInput),
            Some(t) => if is_blank_seq(t) {
                Err(ClientProblem::EmptyStdin)
            } else {
                Ok(t)
            },
        }
    }
}

/// The user's input, from the arguments or from what standard input held
/// (`None` when standard input is a terminal).
pub fn resolve_user_input(args: &Vec<String>, stdin: Option<String>) -> (r: Result<
    String,
    ClientError,
>)
    ensures
        match user_input_of(
            args_view(args@),
            match stdin {
                Some(t) => Some(t@),
                None => None,
            },
        ) {
            Ok(t) => r matches Ok(s) && s@ == t,
            Err(p) => r matches Err(e) && e@ == p,
        },
{
    let ghost av = args_view(args@);
    if args.len() > 0 {
        let mut joined = String::new();
        let mut i: usize = 0;
        while i < args.len()
            invariant
                0 < args.len(),
                i <= args.len() == av.len(),
                av == args_view(args@),
                i > 0 ==> joined@ == join_with(av.take(i as int), seq![' ']),
                i == 0 ==> joined@ == Seq::<char>::empty(),
            decreases args.len() - i,
        {
            let ghost before = joined@;
            assert(av.take(i + 1).drop_last() == av.take(i as int));
            assert(av.take(i + 1).last() == args@[i as int]@);
            if i > 0 {
                joined.push(' ');
            } else {
                assert(before + args@[i as int]@ == args@[i as int]@);
            }
            push_str(&mut joined, args[i].as_str());
            i = i + 1;
        }
        assert(av.take(args.len() as int) == av);
        return Ok(joined);
    }
    match stdin {
        None => Err(ClientError::NoUserInput),
        Some(text) => {
            if is_blank(text.as_str()) {
                Err(ClientError::EmptyStdin)
            } else {
                Ok(text)
            }
        },
    }
}

/// Where the API key of a model comes from.
#[derive(Debug)]
pub enum ApiKeySource {
    /// The key itself.
    Key(String),
    /// A shell command that prints it.
    Command(String),
}

/// Where the key of the model called `model_name` comes from: its key when
/// set, else its key command.
pub fn api_key_source(config: &Config, model_name: &str) -> (r: Result<ApiKeySource, ClientError>)
    ensures
        match model_index(config, model_name@) {
            None => r matches Err(e) && e@ == ClientProblem::ModelNotFound(model_name@),
            Some(i) => {
                let m = config.models@[i].1;
                match (m.api_key, m.api_key_command) {
                    (Some(k), _) => r matches Ok(ApiKeySource::Key(s)) && s@ == k@,
                    (None, Some(c)) => r matches Ok(ApiKeySource::Command(s)) && s@ == c@,
                    (None, None) => r matches Err(e) && e@ == ClientProblem::NoApiKeyCommand(
                        model_name@,
                    ),
                }
            },
        },
{
    proof {
        lemma_position_in_range(model_names(config), model_name@, 0);
    }
    let i = match find_model(config, model_name) {
        Some(i) => i,
        None => {
            return Err(ClientError::ModelNotFound(owned(model_name)));
        },
    };
    let model = &config.models[i].1;
    if let Some(key) = &model.api_key {
        return Ok(ApiKeySource::Key(key.clone()));
    }
    match &model.api_key_command {
        Some(command) => Ok(ApiKeySource::Command(command.clone())),
        None => Err(ClientError::NoApiKeyCommand(owned(model_name))),
    }
}

/// The key printed by a key command, given whether the command succeeded
/// and what it wrote to standard output and standard error.
pub fn api_key_from_output(success: bool, stdout: &str, stderr: &str) -> (r: Result<
    String,
    ClientError,
>)
    ensures
        !success ==> (r matches Err(e) && e@ == ClientProblem::ApiKeyCommandFailed(stderr@)),
        success && is_blank_seq(stdout@) ==> (r matches Err(e) && e is ApiKeyCommandEmpty),
        success && !is_blank_seq(stdout@) ==> (r matches Ok(k) && k@ == trimmed(stdout@)),
{
    if !success {
        return Err(ClientError::ApiKeyCommandFailed(owned(stderr)));
    }
    if is_blank(stdout) {
        return Err(ClientError::ApiKeyCommandEmpty);
    }
    Ok(trim(stdout))
}

/// The model and preset prompt a chat uses: those named on the command
/// line, else the configured defaults.
pub fn chat_names(cli: &Cli, config: &Config) -> (r: (String, String))
    ensures
        r.0@ == match cli.model {
            Some(m) => m@,
            None => config.defaults.model@,
        },
        r.1@ == match cli.prompt {
            Some(p) => p@,
            None => config.defaults.prompt@,
        },
{
    let model = match &cli.model {
        Some(m) => m.clone(),
        None => config.defaults.model.clone(),
    };
    let prompt = match &cli.prompt {
        Some(p) => p.clone(),
        None => config.defaults.prompt.clone(),
    };
    (model, prompt)
}

/// Whether replies are to be recorded.
pub fn history_enabled(config: &Config) -> (r: bool)
    ensures
        r == (config.history.enabled == Some(true)),
{
    match config.history.enabled {
        Some(b) => b,
        None => false,
    }
}

/// How many entries the history keeps: as configured, 50 otherwise.
pub open spec fn history_max_entries_of(config: &Config) -> usize {
    match config.history.max_entries {
        Some(n) => n,
        None => 50,
    }
}

/// How many entries the history keeps.
pub fn history_max_entries(config: &Config) -> (r: usize)
    ensures
        r == history_max_entries_of(config),
{
    match config.history.max_entries {
        Some(n) => n,
        None => 50,
    }
}

/// Whether status output and colors are off: by `--minimal`, else by the
/// configured default, else not.
pub fn resolve_minimal(cli: &Cli, config: &Config) -> (r: bool)
    ensures
        r == (cli.minimal || config.defaults.minimal == Some(true)),
{
    if cli.minimal {
        true
    } else {
        match config.defaults.minimal {
            Some(b) => b,
            None => false,
        }
    }
}

/// Whether thinking text is removed from the reply of the model called
/// `model_name`: by `--strip-thinking`, else by the model's setting, else by
/// the configured default, else not. The model must be configured unless
/// the flag decides.
pub fn resolve_strip_thinking(cli: &Cli, config: &Config, model_name: &str) -> (r: Result<
    bool,
    ClientError,
>)
    ensures
        cli.strip_thinking ==> r == Ok::<bool, ClientError>(true),
        !cli.strip_thinking ==> match model_index(config, model_name@) {
            None => r matches Err(e) && e@ == ClientProblem::ModelNotFound(model_name@),
            Some(i) => r == Ok::<bool, ClientError>(
                match config.models@[i].1.strip_thinking {
                    Some(b) => b,
                    None => config.defaults.strip_thinking == Some(true),
                },
            ),
        },
{
    if cli.strip_thinking {
        return Ok(true);
    }
    proof {
        lemma_position_in_range(model_names(config), model_name@, 0);
    }
    match find_model(config, model_name) {
        None => Err(ClientError::ModelNotFound(owned(model_name))),
        Some(i) => {
            let model = &config.models[i].1;
            Ok(
                match model.strip_thinking {
                    Some(b) => b,
                    None => match config.defaults.strip_thinking {
                        Some(b) => b,
                        None => false,
                    },
                },
            )
        },
    }
}

/// The same choice when a stored reply is replayed: a model that is no
/// longer configured counts as having no setting.
pub fn replay_strip_thinking(cli: &Cli, config: &Config, model_name: &str) -> (r: bool)
    ensures
        r == (cli.strip_thinking || match model_index(config, model_name@) {
            Some(i) => match config.models@[i].1.strip_thinking {
                Some(b) => b,
                None => config.defaults.strip_thinking == Some(true),
            },
            None => config.defaults.strip_thinking == Some(true),
        }),
{
    if cli.strip_thinking {
        return true;
    }
    proof {
        lemma_position_in_range(model_names(config), model_name@, 0);
    }
    let setting = match find_model(config, model_name) {
        Some(i) => config.models[i].1.strip_thinking,
        None => None,
    };
    match setting {
        Some(b) => b,
        None => match config.defaults.strip_thinking {
            Some(b) => b,
            None => false,
        },
    }
}

/// The delimiters that apply when a reply of the model called `model_name`
/// is replayed: the model's own when it is configured with some, else the
/// defaults.
pub open spec fn replay_delimiters_of(config: &Config, model_name: Seq<char>) -> Seq<Delimiter> {
    match model_index(config, model_name) {
        Some(i) => if config.models@[i].1.thinking_delimiters@.len() > 0 {
            config.models@[i].1.thinking_delimiters@
        } else {
            config.defaults.thinking_delimiters@
        },
        None => config.defaults.thinking_delimiters@,
    }
}

/// The delimiters for replaying a reply of the model called `model_name`.
pub fn replay_delimiters(config: &Config, model_name: &str) -> (r: Vec<Delimiter>)
    ensures
        delims_view(r@) == delims_view(replay_delimiters_of(config, model_name@)),
{
    proof {
        lemma_position_in_range(model_names(config), model_name@, 0);
    }
    match find_model(config, model_name) {
        Some(i) => {
            if config.models[i].1.thinking_delimiters.len() > 0 {
                return crate::thinking::copy_delimiters(&config.models[i].1.thinking_delimiters);
            }
        },
        None => {},
    }
    crate::thinking::copy_delimiters(&config.defaults.thinking_delimiters)
}

/// What is printed of a reply: thinking removed when `strip`, then thinking
/// dimmed when `colorize`.
pub open spec fn output_text(
    content: Seq<char>,
    ds: Seq<(Seq<char>, Seq<char>)>,
    strip: bool,
    colorize: bool,
) -> Seq<char> {
    let text = if strip {
        stripped_text(content, ds)
    } else {
        content
    };
    if colorize {
        colored_text(text, ds)
    } else {
        text
    }
}

/// The text to print for a reply.
pub fn render_output(content: &str, delimiters: &[Delimiter], strip: bool, colorize: bool) -> (r:
    String)
    ensures
        r@ == output_text(content@, delims_view(delimiters@), strip, colorize),
{
    let text = if strip {
        strip_thinking_text(content, delimiters)
    } else {
        owned(content)
    };
    if colorize {
        color_thinking(text.as_str(), delimiters)
    } else {
        text
    }
}

/// What follows a chat.
#[derive(Debug)]
pub enum ChatEnd {
    /// The reply is recorded in the history when `record`, and `output` is printed.
    Shown { record: bool, output: String },
    /// The chat failed: nothing is recorded or printed, and the status line
    /// reports the error.
    Failed,
}

/// Decides what follows a chat, given its reply (`None` when it failed):
/// a reply is recorded when the history is enabled, and printed with
/// thinking stripped and dimmed as asked.
pub fn finish_chat(config: &Config, reply: Option<&ChatResult>, strip: bool, colorize: bool) -> (r:
    ChatEnd)
    ensures
        match reply {
            None => r is Failed,
            Some(res) => r matches ChatEnd::Shown { record, output } && record == (
            config.history.enabled == Some(true)) && output@ == output_text(
                res.content@,
                delims_view(res.thinking_delimiters@),
                strip,
                colorize,
            ),
        },
{
    match reply {
        None => ChatEnd::Failed,
        Some(res) => ChatEnd::Shown {
            record: history_enabled(config),
            output: render_output(
                res.content.as_str(),
                res.thinking_delimiters.as_slice(),
                strip,
                colorize,
            ),
        },
    }
}

/// Records an exchange in the stored `entries`: the history to write back,
/// or `None` when nothing is to be written.
pub fn record_history(
    config: &Config,
    entries: Vec<HistoryEntry>,
    timestamp: u64,
    model_name: &str,
    preset_name: &str,
    user_input: &str,
    response: &str,
) -> (r: Option<Vec<HistoryEntry>>)
    ensures
        (history_max_entries_of(config) == 0) == (r is None),
        r matches Some(v) ==> {
            &&& v@ == kept_entries(entries@.push(v@.last()), history_max_entries_of(config) as nat)
            &&& v@.last().timestamp == timestamp
            &&& v@.last().model@ == model_name@
            &&& v@.last().preset_name@ == preset_name@
            &&& v@.last().user_input@ == user_input@
            &&& v@.last().response@ == response@
        },
{
    let entry = HistoryEntry {
        timestamp,
        model: owned(model_name),
        preset_name: owned(preset_name),
        user_input: owned(user_input),
        response: owned(response),
    };
    append_entry(entries, entry, history_max_entries(config))
}

/// The status line shown while a request is under way.
#[derive(Debug)]
pub struct Status {
    pub enabled: bool,
}

/// The terminal codes that return to the line start and erase the line.
pub open spec fn erase_line() -> Seq<char> {
    seq!['\r', '\x1b', '[', '2', 'K']
}

impl Status {
    /// A status line, shown only when `enabled`.
    pub fn new(enabled: bool) -> (r: Self)
        ensures
            r.enabled == enabled,
    {
        Status { enabled }
    }

    /// The text that replaces the status line by `message`, when shown.
    pub fn show(&self, message: &str) -> (r: Option<String>)
        ensures
            self.enabled ==> (r matches Some(t) && t@ == erase_line() + message@),
            !self.enabled ==> r is None,
    {
        if self.enabled {
            let mut t = String::new();
            t.push('\r');
            t.push('\x1b');
            t.push('[');
            t.push('2');
            t.push('K');
            push_str(&mut t, message);
            Some(t)
        } else {
            None
        }
    }

    /// The text that erases the status line, when shown.
    pub fn clear(&self) -> (r: Option<String>)
        ensures
            self.enabled ==> (r matches Some(t) && t@ == erase_line()),
            !self.enabled ==> r is None,
    {
        if self.enabled {
            let mut t = String::new();
            t.push('\r');
            t.push('\x1b');
            t.push('[');
            t.push('2');
            t.push('K');
            Some(t)
        } else {
            None
        }
    }
}

} // verus!
