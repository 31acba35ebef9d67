use ai::cli::Shell;
use ai::completions::{bash_script, fish_script, render, zsh_script, CompletionError, BASH_SCRIPT, FISH_SCRIPT, ZSH_SCRIPT};

#[test]
fn scripts_per_shell() {
    assert_eq!(render(Shell::Bash).unwrap(), BASH_SCRIPT);
    assert_eq!(render(Shell::Zsh).unwrap(), ZSH_SCRIPT);
    assert_eq!(render(Shell::Fish).unwrap(), FISH_SCRIPT);
    assert_eq!(render(Shell::Elvish), Err(CompletionError::UnsupportedShell));
    assert_eq!(render(Shell::PowerShell), Err(CompletionError::UnsupportedShell));
}

#[test]
fn script_contents() {
    assert!(bash_script().starts_with("# bash completion for ai"));
    assert!(bash_script().contains("complete -F _ai ai"));
    assert!(zsh_script().starts_with("#compdef ai"));
    assert!(fish_script().contains("complete -c ai -f -l history-clear -d \"Delete stored history\""));
}
