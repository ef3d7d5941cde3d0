use akash::dialect::{ShellError, ShellType};
use akash::shell::{Bash, PowerShell, Shell, Zsh};
use akash::store::AliasNameError;

#[test]
fn powershell_uses_function_for_compound_commands() {
    let aliases = vec![("ll".to_string(), "ls -la".to_string())];
    let block = ShellType::PowerShell.generate_alias_block(&aliases);
    assert_eq!(block, "# BEGIN akash aliases\nfunction ll { ls -la }\n# END akash aliases");
    assert_eq!(PowerShell.alias_syntax("ll", "ls -la"), "function ll { ls -la }");
    assert_eq!(PowerShell.alias_syntax("p", "a|b"), "function p { a|b }");
    assert_eq!(PowerShell.alias_syntax("s", "a;b"), "function s { a;b }");
}

#[test]
fn powershell_uses_set_alias_for_simple_commands() {
    let aliases = vec![("g".to_string(), "git".to_string())];
    let block = ShellType::PowerShell.generate_alias_block(&aliases);
    assert_eq!(block, "# BEGIN akash aliases\nSet-Alias -Name g -Value git\n# END akash aliases");
}

#[test]
fn posix_escapes_single_quotes() {
    assert_eq!(Bash.alias_syntax("q", "echo 'hi'"), "alias q='echo '\\''hi'\\'''");
    assert_eq!(Zsh.alias_syntax("gs", "git status"), "alias gs='git status'");
    assert_eq!(Bash.alias_syntax("e", ""), "alias e=''");
}

#[test]
fn block_lists_aliases_in_given_order() {
    let aliases = vec![
        ("a".to_string(), "x".to_string()),
        ("b".to_string(), "y z".to_string()),
    ];
    let block = Zsh.generate_alias_block(&aliases);
    assert_eq!(block, "# BEGIN akash aliases\nalias a='x'\nalias b='y z'\n# END akash aliases");
}

#[test]
fn markers_and_names() {
    assert_eq!(Bash.begin_marker(), "# BEGIN akash aliases");
    assert_eq!(PowerShell.end_marker(), "# END akash aliases");
    assert_eq!(Bash.comment_prefix(), "#");
    assert_eq!(Bash.name(), "Bash");
    assert_eq!(Zsh.name(), "Zsh");
    assert_eq!(PowerShell.name(), "PowerShell");
    assert_eq!(ShellType::Zsh.label(), "Zsh Shell");
    assert_eq!(
        Bash.reload_instructions(),
        "Restart your terminal or run: source ~/.bashrc or exec bash"
    );
    assert_eq!(PowerShell.reload_instructions(), "Restart PowerShell or run: . $PROFILE");
}

#[test]
fn config_paths_by_dialect() {
    assert_eq!(Bash.config_path_in(Some("/home/u")), Ok("/home/u/.bashrc".to_string()));
    assert_eq!(Zsh.config_path_in(Some("/home/u/")), Ok("/home/u/.zshrc".to_string()));
    assert_eq!(
        PowerShell.config_path_in(Some("/home/u")),
        Ok("/home/u/Documents/PowerShell/Microsoft.PowerShell_profile.ps1".to_string())
    );
    assert_eq!(Bash.config_path_in(None), Err(ShellError::HomeDirNotFound));
}

#[test]
fn parses_shell_names_in_any_case() {
    assert_eq!(ShellType::from_name("BASH"), Ok(ShellType::Bash));
    assert_eq!(ShellType::from_name("Git-Bash"), Ok(ShellType::Bash));
    assert_eq!(ShellType::from_name("zsh"), Ok(ShellType::Zsh));
    assert_eq!(ShellType::from_name("PwSh"), Ok(ShellType::PowerShell));
    assert_eq!(ShellType::from_name("PowerShell"), Ok(ShellType::PowerShell));
    assert_eq!(
        ShellType::from_name("fish"),
        Err(ShellError::UnsupportedShell("fish".to_string()))
    );
}

#[test]
fn parses_through_from_str() {
    assert_eq!("ZSH".parse::<ShellType>(), Ok(ShellType::Zsh));
    assert!("tcsh".parse::<ShellType>().is_err());
}

#[test]
fn alias_name_error_messages() {
    assert_eq!(AliasNameError::Empty.message(), "Alias name cannot be empty!");
    assert!(AliasNameError::InvalidCharacters.message().contains("underscores"));
}

#[test]
fn config_path_uses_the_users_home() {
    match Zsh.config_path() {
        Ok(p) => assert!(p.ends_with("/.zshrc")),
        Err(e) => assert_eq!(e, ShellError::HomeDirNotFound),
    }
}
