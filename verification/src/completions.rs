//! Shell completion scripts for bash, zsh and fish. The scripts ask the
//! program itself for the configured model and prompt names.
use vstd::prelude::*;

use crate::cli::Shell;
use crate::text::owned;

verus! {

/// The completion script for bash.
pub const BASH_SCRIPT: &'static str = r#"# bash completion for ai

_ai_complete() {
  local kind="$1"
  case "$kind" in
    models)
      ai --list-models 2>/dev/null
      ;;
    prompts)
      ai --list-prompts 2>/dev/null
      ;;
  esac
}

_ai() {
  local cur prev
  COMPREPLY=()
  cur="${COMP_WORDS[COMP_CWORD]}"
  prev="${COMP_WORDS[COMP_CWORD-1]}"

  case "$prev" in
    --model)
      COMPREPLY=( $(compgen -W "$(_ai_complete models)" -- "$cur") )
      return 0
      ;;
    --prompt)
      COMPREPLY=( $(compgen -W "$(_ai_complete prompts)" -- "$cur") )
      return 0
      ;;
    --completions)
      COMPREPLY=( $(compgen -W "bash zsh fish" -- "$cur") )
      return 0
      ;;
    --history)
      return 0
      ;;
  esac

  if [[ "$cur" == --* ]]; then
    COMPREPLY=( $(compgen -W "--model --prompt --minimal --strip-thinking --init --history --history-clear --completions --help --version" -- "$cur") )
    return 0
  fi

  return 0
}

complete -F _ai ai
"#;

/// The completion script for zsh.
pub const ZSH_SCRIPT: &'static str = r#"#compdef ai

local -a models prompts
models=(${(f)"$(ai --list-models 2>/dev/null)"})
prompts=(${(f)"$(ai --list-prompts 2>/dev/null)"})

_arguments \
  '--model=[select model]:model:->models' \
  '--prompt=[select preset prompt]:prompt:->prompts' \
  '--minimal[disable status output and thinking colorization]' \
  '--strip-thinking[remove thinking text from output]' \
  '--init[create default config file]' \
  '--history=[replay history item]:index:' \
  '--history-clear[delete stored history]' \
  '--completions=[print shell completions]:shell:(bash zsh fish)' \
  '--help[show help]' \
  '--version[show version]' \
  '*:prompt:'

case $state in
  models)
    _describe 'models' models
    ;;
  prompts)
    _describe 'prompts' prompts
    ;;
esac
"#;

/// The completion script for fish.
pub const FISH_SCRIPT: &'static str = r#"# fish completion for ai

complete -c ai -f -l model -r -a "(ai --list-models 2>/dev/null)" -d "Model"
complete -c ai -f -l prompt -r -a "(ai --list-prompts 2>/dev/null)" -d "Preset prompt"
complete -c ai -f -l minimal -d "Disable status output and thinking colorization"
complete -c ai -f -l strip-thinking -d "Remove thinking text from output"
complete -c ai -f -l init -d "Create default config file"
complete -c ai -f -l history -r -d "Replay history item"
complete -c ai -f -l history-clear -d "Delete stored history"
complete -c ai -f -l completions -r -a "bash zsh fish" -d "Print shell completions"
complete -c ai -f -l help -d "Show help"
complete -c ai -f -l version -d "Show version"
"#;

/// A shell for which no completion script is offered.
#[derive(PartialEq, Eq, Structural, Clone, Copy, Debug)]
pub enum CompletionError {
    UnsupportedShell,
}

/// The bash completion script.
pub fn bash_script() -> (r: String)
    ensures
        r@ == BASH_SCRIPT@,
{
    owned(BASH_SCRIPT)
}

/// The zsh completion script.
pub fn zsh_script() -> (r: String)
    ensures
        r@ == ZSH_SCRIPT@,
{
    owned(ZSH_SCRIPT)
}

/// The fish completion script.
pub fn fish_script() -> (r: String)
    ensures
        r@ == FISH_SCRIPT@,
{
    owned(FISH_SCRIPT)
}

/// The completion script for `shell`; bash, zsh and fish are offered.
pub fn render(shell: Shell) -> (r: Result<String, CompletionError>)
    ensures
        shell == Shell::Bash ==> (r matches Ok(s) && s@ == BASH_SCRIPT@),
        shell == Shell::Zsh ==> (r matches Ok(s) && s@ == ZSH_SCRIPT@),
        shell == Shell::Fish ==> (r matches Ok(s) && s@ == FISH_SCRIPT@),
        shell != Shell::Bash && shell != Shell::Zsh && shell != Shell::Fish ==> r == Err::<
            String,
            CompletionError,
        >(CompletionError::UnsupportedShell),
{
    match shell {
        Shell::Bash => Ok(bash_script()),
        Shell::Zsh => Ok(zsh_script()),
        Shell::Fish => Ok(fish_script()),
        _ => Err(CompletionError::UnsupportedShell),
    }
}

} // verus!
